//! The document's persisted form: a canonical JSON text. The serializer
//! writes folders as one compact JSON array; the parser accepts exactly a
//! document in that shape and fails closed on anything else. Parsing what
//! the serializer wrote returns the original document: see
//! [`theorem_parse_serialize_round_trip`].
//!
//! Strings are written between double quotes with `"` and `\` each escaped
//! by a backslash (the parser takes any backslash-escaped character
//! literally); integers in decimal; booleans as `true`/`false`.

use vstd::prelude::*;

use crate::model::doc_view;
use crate::types::DocError;
use crate::types::FolderView;
use crate::types::Task;
use crate::types::TaskFolder;
use crate::types::TaskView;
use crate::types::tasks_view;

verus! {

// ---------------------------------------------------------------------
// The serialized form, as spec functions.
// ---------------------------------------------------------------------

/// The escaped form of one string character.
pub open spec fn esc_char(c: char) -> Seq<char> {
    if c == '"' || c == '\\' {
        seq!['\\', c]
    } else {
        seq![c]
    }
}

/// The escaped form of a string's characters.
pub open spec fn ser_str_body(s: Seq<char>) -> Seq<char>
    decreases s.len(),
{
    if s.len() == 0 {
        Seq::empty()
    } else {
        esc_char(s[0]) + ser_str_body(s.skip(1))
    }
}

/// A quoted, escaped JSON string.
pub open spec fn ser_string(s: Seq<char>) -> Seq<char> {
    seq!['"'] + ser_str_body(s) + seq!['"']
}

/// The decimal digit for a value below ten.
pub open spec fn digit_char(n: int) -> char {
    if n == 0 {
        '0'
    } else if n == 1 {
        '1'
    } else if n == 2 {
        '2'
    } else if n == 3 {
        '3'
    } else if n == 4 {
        '4'
    } else if n == 5 {
        '5'
    } else if n == 6 {
        '6'
    } else if n == 7 {
        '7'
    } else if n == 8 {
        '8'
    } else {
        '9'
    }
}

/// The value of a decimal digit character, or -1 for any other character.
pub open spec fn digit_val(c: char) -> int {
    if c == '0' {
        0
    } else if c == '1' {
        1
    } else if c == '2' {
        2
    } else if c == '3' {
        3
    } else if c == '4' {
        4
    } else if c == '5' {
        5
    } else if c == '6' {
        6
    } else if c == '7' {
        7
    } else if c == '8' {
        8
    } else if c == '9' {
        9
    } else {
        -1
    }
}

/// Whether a character is a decimal digit.
pub open spec fn is_digit(c: char) -> bool {
    digit_val(c) >= 0
}

/// The decimal form of a non-negative integer, most significant digit first.
pub open spec fn ser_nat(n: int) -> Seq<char>
    recommends
        n >= 0,
    decreases n,
{
    if n < 10 {
        seq![digit_char(n)]
    } else {
        ser_nat(n / 10) + seq![digit_char(n % 10)]
    }
}

/// The decimal form of an integer, with a leading minus when negative.
pub open spec fn ser_int(i: int) -> Seq<char> {
    if i < 0 {
        seq!['-'] + ser_nat(-i)
    } else {
        ser_nat(i)
    }
}

/// `true` or `false`.
pub open spec fn ser_bool(b: bool) -> Seq<char> {
    if b {
        "true"@
    } else {
        "false"@
    }
}

/// One task as a JSON object.
pub open spec fn ser_task(t: TaskView) -> Seq<char> {
    "{\"text\":"@ + ser_string(t.text) + ",\"colour\":"@ + ser_string(t.colour)
        + ",\"completed\":"@ + ser_bool(t.completed) + ",\"id\":"@ + ser_string(t.id) + seq!['}']
}

/// The comma-separated continuation of a task list.
pub open spec fn ser_tasks_tail(ts: Seq<TaskView>) -> Seq<char>
    decreases ts.len(),
{
    if ts.len() == 0 {
        Seq::empty()
    } else {
        seq![','] + ser_task(ts[0]) + ser_tasks_tail(ts.skip(1))
    }
}

/// A task list's items, comma-separated, without the surrounding brackets.
pub open spec fn ser_tasks(ts: Seq<TaskView>) -> Seq<char> {
    if ts.len() == 0 {
        Seq::empty()
    } else {
        ser_task(ts[0]) + ser_tasks_tail(ts.skip(1))
    }
}

/// A folder's geometry fields, closing the folder object.
pub open spec fn ser_geom(f: FolderView) -> Seq<char> {
    ",\"width\":"@ + ser_int(f.width) + ",\"height\":"@ + ser_int(f.height) + ",\"x\":"@
        + ser_int(f.x) + ",\"y\":"@ + ser_int(f.y) + ",\"zindex\":"@ + ser_int(f.zindex)
        + seq!['}']
}

/// One folder as a JSON object, its tasks as a JSON array.
pub open spec fn ser_folder(f: FolderView) -> Seq<char> {
    "{\"id\":"@ + ser_string(f.id) + ",\"name\":"@ + ser_string(f.name) + ",\"colour\":"@
        + ser_string(f.colour) + ",\"visible\":"@ + ser_bool(f.visible) + ",\"tasks\":["@
        + ser_tasks(f.tasks) + seq![']'] + ser_geom(f)
}

/// The comma-separated continuation of the folder list.
pub open spec fn ser_folders_tail(d: Seq<FolderView>) -> Seq<char>
    decreases d.len(),
{
    if d.len() == 0 {
        Seq::empty()
    } else {
        seq![','] + ser_folder(d[0]) + ser_folders_tail(d.skip(1))
    }
}

/// The folder list's items, comma-separated, without the surrounding brackets.
pub open spec fn ser_folders(d: Seq<FolderView>) -> Seq<char> {
    if d.len() == 0 {
        Seq::empty()
    } else {
        ser_folder(d[0]) + ser_folders_tail(d.skip(1))
    }
}

/// A whole document: the JSON array of its folders.
pub open spec fn ser_doc(d: Seq<FolderView>) -> Seq<char> {
    seq!['['] + ser_folders(d) + seq![']']
}

/// Whether a folder's geometry fits the stored integer width. Every view of
/// an executable folder satisfies this.
pub open spec fn folder_ints_in_range(f: FolderView) -> bool {
    &&& i32::MIN <= f.width <= i32::MAX
    &&& i32::MIN <= f.height <= i32::MAX
    &&& i32::MIN <= f.x <= i32::MAX
    &&& i32::MIN <= f.y <= i32::MAX
    &&& i32::MIN <= f.zindex <= i32::MAX
}

/// Whether every folder of a document model fits the stored integer width.
pub open spec fn doc_wf(d: Seq<FolderView>) -> bool {
    forall|i: int| 0 <= i < d.len() ==> folder_ints_in_range(#[trigger] d[i])
}

// ---------------------------------------------------------------------
// The accepted form, as spec functions: each parser returns the parsed
// value and the unconsumed remainder, or `None` when the input does not
// start with the expected shape.
// ---------------------------------------------------------------------

/// Consumes an exact literal.
#[verifier::opaque]
pub open spec fn parse_lit(s: Seq<char>, lit: Seq<char>) -> Option<Seq<char>> {
    if lit.len() <= s.len() && s.take(lit.len() as int) == lit {
        Some(s.skip(lit.len() as int))
    } else {
        None
    }
}

/// Consumes a string's characters up to and including the closing quote;
/// a backslash takes the following character literally.
pub open spec fn parse_str_body(s: Seq<char>) -> Option<(Seq<char>, Seq<char>)>
    decreases s.len(),
{
    if s.len() == 0 {
        None
    } else if s[0] == '"' {
        Some((Seq::empty(), s.skip(1)))
    } else if s[0] == '\\' {
        if s.len() >= 2 {
            match parse_str_body(s.skip(2)) {
                Some((t, r)) => Some((seq![s[1]] + t, r)),
                None => None,
            }
        } else {
            None
        }
    } else {
        match parse_str_body(s.skip(1)) {
            Some((t, r)) => Some((seq![s[0]] + t, r)),
            None => None,
        }
    }
}

/// Consumes a quoted string.
pub open spec fn parse_string(s: Seq<char>) -> Option<(Seq<char>, Seq<char>)> {
    if s.len() > 0 && s[0] == '"' {
        parse_str_body(s.skip(1))
    } else {
        None
    }
}

/// The count of leading decimal digits.
pub open spec fn digits_len(s: Seq<char>) -> int
    decreases s.len(),
{
    if s.len() > 0 && is_digit(s[0]) {
        1 + digits_len(s.skip(1))
    } else {
        0
    }
}

/// The value of a sequence of decimal digits, most significant first.
pub open spec fn digits_val(s: Seq<char>) -> int
    decreases s.len(),
{
    if s.len() == 0 {
        0
    } else {
        digits_val(s.drop_last()) * 10 + digit_val(s.last())
    }
}

/// Consumes one to ten decimal digits.
#[verifier::opaque]
pub open spec fn parse_uint(s: Seq<char>) -> Option<(int, Seq<char>)> {
    let k = digits_len(s);
    if 1 <= k <= 10 {
        Some((digits_val(s.take(k)), s.skip(k)))
    } else {
        None
    }
}

/// Consumes a decimal integer with an optional leading minus, rejecting
/// values outside the stored integer width.
#[verifier::opaque]
pub open spec fn parse_int(s: Seq<char>) -> Option<(int, Seq<char>)> {
    if s.len() > 0 && s[0] == '-' {
        match parse_uint(s.skip(1)) {
            Some((n, r)) => if -n >= i32::MIN {
                Some((-n, r))
            } else {
                None
            },
            None => None,
        }
    } else {
        match parse_uint(s) {
            Some((n, r)) => if n <= i32::MAX {
                Some((n, r))
            } else {
                None
            },
            None => None,
        }
    }
}

/// Consumes `true` or `false`.
pub open spec fn parse_bool(s: Seq<char>) -> Option<(bool, Seq<char>)> {
    match parse_lit(s, "true"@) {
        Some(r) => Some((true, r)),
        None => match parse_lit(s, "false"@) {
            Some(r) => Some((false, r)),
            None => None,
        },
    }
}

/// Consumes one task object.
pub open spec fn parse_task(s: Seq<char>) -> Option<(TaskView, Seq<char>)> {
    match parse_lit(s, "{\"text\":"@) {
        None => None,
        Some(s1) => match parse_string(s1) {
            None => None,
            Some((text, s2)) => match parse_lit(s2, ",\"colour\":"@) {
                None => None,
                Some(s3) => match parse_string(s3) {
                    None => None,
                    Some((colour, s4)) => match parse_lit(s4, ",\"completed\":"@) {
                        None => None,
                        Some(s5) => match parse_bool(s5) {
                            None => None,
                            Some((completed, s6)) => match parse_lit(s6, ",\"id\":"@) {
                                None => None,
                                Some(s7) => match parse_string(s7) {
                                    None => None,
                                    Some((id, s8)) => match parse_lit(s8, seq!['}']) {
                                        None => None,
                                        Some(s9) => Some(
                                            (TaskView { text, colour, completed, id }, s9),
                                        ),
                                    },
                                },
                            },
                        },
                    },
                },
            },
        },
    }
}

/// Consumes `,task` items until the closing bracket, which it consumes.
pub open spec fn parse_tasks_rest(s: Seq<char>, acc: Seq<TaskView>) -> Option<
    (Seq<TaskView>, Seq<char>),
>
    decreases s.len(),
{
    if s.len() == 0 {
        None
    } else if s[0] == ']' {
        Some((acc, s.skip(1)))
    } else if s[0] == ',' {
        match parse_task(s.skip(1)) {
            None => None,
            Some((t, r)) => if r.len() < s.len() {
                parse_tasks_rest(r, acc.push(t))
            } else {
                None
            },
        }
    } else {
        None
    }
}

/// Consumes a task list after its opening bracket, up to and including the
/// closing bracket.
pub open spec fn parse_tasks(s: Seq<char>) -> Option<(Seq<TaskView>, Seq<char>)> {
    if s.len() == 0 {
        None
    } else if s[0] == ']' {
        Some((Seq::empty(), s.skip(1)))
    } else {
        match parse_task(s) {
            None => None,
            Some((t, r)) => if r.len() < s.len() {
                parse_tasks_rest(r, seq![t])
            } else {
                None
            },
        }
    }
}

/// Consumes a field label literal and its integer value.
pub open spec fn parse_field_int(s: Seq<char>, lit: Seq<char>) -> Option<(int, Seq<char>)> {
    match parse_lit(s, lit) {
        None => None,
        Some(s2) => parse_int(s2),
    }
}

/// Consumes a folder's five geometry fields and the closing brace.
pub open spec fn parse_geom(s: Seq<char>) -> Option<((int, int, int, int, int), Seq<char>)> {
    match parse_field_int(s, ",\"width\":"@) {
        None => None,
        Some((width, s12)) => match parse_field_int(s12, ",\"height\":"@) {
            None => None,
            Some((height, s14)) => match parse_field_int(s14, ",\"x\":"@) {
                None => None,
                Some((x, s16)) => match parse_field_int(s16, ",\"y\":"@) {
                    None => None,
                    Some((y, s18)) => match parse_field_int(s18, ",\"zindex\":"@) {
                        None => None,
                        Some((zindex, s20)) => match parse_lit(s20, seq!['}']) {
                            None => None,
                            Some(s21) => Some(((width, height, x, y, zindex), s21)),
                        },
                    },
                },
            },
        },
    }
}

/// Consumes one folder object.
pub open spec fn parse_folder(s: Seq<char>) -> Option<(FolderView, Seq<char>)> {
    match parse_lit(s, "{\"id\":"@) {
        None => None,
        Some(s1) => match parse_string(s1) {
            None => None,
            Some((id, s2)) => match parse_lit(s2, ",\"name\":"@) {
                None => None,
                Some(s3) => match parse_string(s3) {
                    None => None,
                    Some((name, s4)) => match parse_lit(s4, ",\"colour\":"@) {
                        None => None,
                        Some(s5) => match parse_string(s5) {
                            None => None,
                            Some((colour, s6)) => match parse_lit(s6, ",\"visible\":"@) {
                                None => None,
                                Some(s7) => match parse_bool(s7) {
                                    None => None,
                                    Some((visible, s8)) => match parse_lit(s8, ",\"tasks\":["@) {
                                        None => None,
                                        Some(s9) => match parse_tasks(s9) {
                                            None => None,
                                            Some((tasks, s10)) => match parse_geom(s10) {
                                                None => None,
                                                Some(((width, height, x, y, zindex), s21)) => Some(
                                                    (
                                                        FolderView {
                                                            id,
                                                            name,
                                                            colour,
                                                            visible,
                                                            tasks,
                                                            width,
                                                            height,
                                                            x,
                                                            y,
                                                            zindex,
                                                        },
                                                        s21,
                                                    ),
                                                ),
                                            },
                                        },
                                    },
                                },
                            },
                        },
                    },
                },
            },
        },
    }
}

/// Consumes `,folder` items until the closing bracket, which it consumes.
pub open spec fn parse_folders_rest(s: Seq<char>, acc: Seq<FolderView>) -> Option<
    (Seq<FolderView>, Seq<char>),
>
    decreases s.len(),
{
    if s.len() == 0 {
        None
    } else if s[0] == ']' {
        Some((acc, s.skip(1)))
    } else if s[0] == ',' {
        match parse_folder(s.skip(1)) {
            None => None,
            Some((f, r)) => if r.len() < s.len() {
                parse_folders_rest(r, acc.push(f))
            } else {
                None
            },
        }
    } else {
        None
    }
}

/// Consumes the folder list after its opening bracket, up to and including
/// the closing bracket.
pub open spec fn parse_folders(s: Seq<char>) -> Option<(Seq<FolderView>, Seq<char>)> {
    if s.len() == 0 {
        None
    } else if s[0] == ']' {
        Some((Seq::empty(), s.skip(1)))
    } else {
        match parse_folder(s) {
            None => None,
            Some((f, r)) => if r.len() < s.len() {
                parse_folders_rest(r, seq![f])
            } else {
                None
            },
        }
    }
}

/// Ten to the given power.
pub open spec fn pow10(k: nat) -> int
    decreases k,
{
    if k == 0 {
        1
    } else {
        10 * pow10((k - 1) as nat)
    }
}

/// Ten to any power is positive.
pub proof fn lemma_pow10_pos(k: nat)
    ensures
        pow10(k) >= 1,
    decreases k,
{
    if k > 0 {
        lemma_pow10_pos((k - 1) as nat);
    }
}

/// Ten to a power grows with the power.
pub proof fn lemma_pow10_le(a: nat, b: nat)
    requires
        a <= b,
    ensures
        pow10(a) <= pow10(b),
    decreases b,
{
    if a < b {
        lemma_pow10_le(a, (b - 1) as nat);
        lemma_pow10_pos((b - 1) as nat);
    }
}

/// A digit prefix of length `k` (with the input ending or a non-digit at
/// `k`) is exactly what `digits_len` counts.
pub proof fn lemma_digits_len_split(s: Seq<char>, k: int)
    requires
        0 <= k <= s.len(),
        forall|j: int| 0 <= j < k ==> is_digit(#[trigger] s[j]),
        k == s.len() || !is_digit(s[k]),
    ensures
        digits_len(s) == k,
    decreases k,
{
    if k > 0 {
        assert(is_digit(s[0]));
        assert forall|j: int| 0 <= j < k - 1 implies is_digit(#[trigger] s.skip(1)[j]) by {
            assert(s.skip(1)[j] == s[j + 1]);
        }
        if k - 1 < s.skip(1).len() {
            assert(s.skip(1)[k - 1] == s[k]);
        }
        lemma_digits_len_split(s.skip(1), k - 1);
    }
}

/// Concatenation reassociates.
pub proof fn lemma_assoc(a: Seq<char>, b: Seq<char>, c: Seq<char>)
    ensures
        (a + b) + c == a + (b + c),
{
    assert((a + b) + c =~= a + (b + c));
}

/// Appending a character extends the escaped body by its escaped form.
proof fn lemma_ser_str_body_push(x: Seq<char>, c: char)
    ensures
        ser_str_body(x.push(c)) == ser_str_body(x) + esc_char(c),
    decreases x.len(),
{
    if x.len() == 0 {
        assert(x.push(c)[0] == c);
        assert(x.push(c).skip(1) =~= Seq::<char>::empty());
        assert(ser_str_body(Seq::<char>::empty()) == Seq::<char>::empty());
        assert(ser_str_body(x.push(c)) == esc_char(c) + Seq::<char>::empty());
        assert(esc_char(c) + Seq::<char>::empty() =~= ser_str_body(x) + esc_char(c));
    } else {
        assert(x.push(c)[0] == x[0]);
        assert(x.push(c).skip(1) =~= x.skip(1).push(c));
        lemma_ser_str_body_push(x.skip(1), c);
        assert(ser_str_body(x.push(c)) == esc_char(x[0]) + (ser_str_body(x.skip(1)) + esc_char(
            c,
        )));
        lemma_assoc(esc_char(x[0]), ser_str_body(x.skip(1)), esc_char(c));
    }
}

/// Appending a task extends the serialized continuation by `,task`.
proof fn lemma_ser_tasks_tail_push(ts: Seq<TaskView>, t: TaskView)
    ensures
        ser_tasks_tail(ts.push(t)) == ser_tasks_tail(ts) + (seq![','] + ser_task(t)),
    decreases ts.len(),
{
    if ts.len() == 0 {
        assert(ts.push(t)[0] == t);
        assert(ts.push(t).skip(1) =~= Seq::<TaskView>::empty());
        assert(ser_tasks_tail(Seq::<TaskView>::empty()) == Seq::<char>::empty());
        assert(ser_tasks_tail(ts.push(t)) == seq![','] + ser_task(t) + Seq::<char>::empty());
        assert(seq![','] + ser_task(t) + Seq::<char>::empty() =~= Seq::<char>::empty() + (
        seq![','] + ser_task(t)));
    } else {
        assert(ts.push(t)[0] == ts[0]);
        assert(ts.push(t).skip(1) =~= ts.skip(1).push(t));
        lemma_ser_tasks_tail_push(ts.skip(1), t);
        assert(ser_tasks_tail(ts.push(t)) == (seq![','] + ser_task(ts[0])) + (ser_tasks_tail(
            ts.skip(1),
        ) + (seq![','] + ser_task(t))));
        lemma_assoc(seq![','] + ser_task(ts[0]), ser_tasks_tail(ts.skip(1)), seq![','] + ser_task(
            t,
        ));
    }
}

/// Appending a task extends the serialized list by `,task` (or starts it).
proof fn lemma_ser_tasks_push(ts: Seq<TaskView>, t: TaskView)
    ensures
        ser_tasks(ts.push(t)) == if ts.len() == 0 {
            ser_task(t)
        } else {
            ser_tasks(ts) + (seq![','] + ser_task(t))
        },
{
    if ts.len() == 0 {
        assert(ts.push(t)[0] == t);
        assert(ts.push(t).skip(1) =~= Seq::<TaskView>::empty());
        assert(ser_tasks_tail(Seq::<TaskView>::empty()) == Seq::<char>::empty());
        assert(ser_tasks(ts.push(t)) == ser_task(t) + Seq::<char>::empty());
        assert(ser_task(t) + Seq::<char>::empty() =~= ser_task(t));
    } else {
        assert(ts.push(t)[0] == ts[0]);
        assert(ts.push(t).skip(1) =~= ts.skip(1).push(t));
        lemma_ser_tasks_tail_push(ts.skip(1), t);
        assert(ser_tasks(ts.push(t)) == ser_task(ts[0]) + (ser_tasks_tail(ts.skip(1)) + (seq![',']
            + ser_task(t))));
        lemma_assoc(ser_task(ts[0]), ser_tasks_tail(ts.skip(1)), seq![','] + ser_task(t));
    }
}

/// Appending a folder extends the serialized continuation by `,folder`.
proof fn lemma_ser_folders_tail_push(d: Seq<FolderView>, f: FolderView)
    ensures
        ser_folders_tail(d.push(f)) == ser_folders_tail(d) + (seq![','] + ser_folder(f)),
    decreases d.len(),
{
    if d.len() == 0 {
        assert(d.push(f)[0] == f);
        assert(d.push(f).skip(1) =~= Seq::<FolderView>::empty());
        assert(ser_folders_tail(Seq::<FolderView>::empty()) == Seq::<char>::empty());
        assert(ser_folders_tail(d.push(f)) == seq![','] + ser_folder(f) + Seq::<char>::empty());
        assert(seq![','] + ser_folder(f) + Seq::<char>::empty() =~= Seq::<char>::empty() + (
        seq![','] + ser_folder(f)));
    } else {
        assert(d.push(f)[0] == d[0]);
        assert(d.push(f).skip(1) =~= d.skip(1).push(f));
        lemma_ser_folders_tail_push(d.skip(1), f);
        assert(ser_folders_tail(d.push(f)) == (seq![','] + ser_folder(d[0])) + (ser_folders_tail(
            d.skip(1),
        ) + (seq![','] + ser_folder(f))));
        lemma_assoc(seq![','] + ser_folder(d[0]), ser_folders_tail(d.skip(1)), seq![',']
            + ser_folder(f));
    }
}

/// Appending a folder extends the serialized list by `,folder` (or starts it).
proof fn lemma_ser_folders_push(d: Seq<FolderView>, f: FolderView)
    ensures
        ser_folders(d.push(f)) == if d.len() == 0 {
            ser_folder(f)
        } else {
            ser_folders(d) + (seq![','] + ser_folder(f))
        },
{
    if d.len() == 0 {
        assert(d.push(f)[0] == f);
        assert(d.push(f).skip(1) =~= Seq::<FolderView>::empty());
        assert(ser_folders_tail(Seq::<FolderView>::empty()) == Seq::<char>::empty());
        assert(ser_folders(d.push(f)) == ser_folder(f) + Seq::<char>::empty());
        assert(ser_folder(f) + Seq::<char>::empty() =~= ser_folder(f));
    } else {
        assert(d.push(f)[0] == d[0]);
        assert(d.push(f).skip(1) =~= d.skip(1).push(f));
        lemma_ser_folders_tail_push(d.skip(1), f);
        assert(ser_folders(d.push(f)) == ser_folder(d[0]) + (ser_folders_tail(d.skip(1)) + (
        seq![','] + ser_folder(f))));
        lemma_assoc(ser_folder(d[0]), ser_folders_tail(d.skip(1)), seq![','] + ser_folder(f));
    }
}

/// Appends a literal's characters.
fn emit_lit(out: &mut Vec<char>, lit: &str)
    ensures
        final(out)@ == old(out)@ + lit@,
{
    let n = lit.unicode_len();
    let mut j: usize = 0;
    while j < n
        invariant
            j <= n,
            n == lit@.len(),
            out@ == old(out)@ + lit@.take(j as int),
        decreases n - j,
    {
        out.push(lit.get_char(j));
        proof {
            assert(out@ =~= old(out)@ + lit@.take(j + 1));
        }
        j += 1;
    }
    proof {
        assert(lit@.take(n as int) =~= lit@);
    }
}

/// Appends a quoted, escaped string.
fn emit_string(out: &mut Vec<char>, s: &String)
    ensures
        final(out)@ == old(out)@ + ser_string(s@),
{
    out.push('"');
    let n = s.as_str().unicode_len();
    let mut j: usize = 0;
    while j < n
        invariant
            j <= n,
            n == s@.len(),
            out@ == old(out)@ + seq!['"'] + ser_str_body(s@.take(j as int)),
        decreases n - j,
    {
        let c = s.as_str().get_char(j);
        if c == '"' || c == '\\' {
            out.push('\\');
            out.push(c);
        } else {
            out.push(c);
        }
        proof {
            lemma_ser_str_body_push(s@.take(j as int), c);
            assert(s@.take(j + 1) =~= s@.take(j as int).push(c));
            assert(out@ =~= old(out)@ + seq!['"'] + ser_str_body(s@.take(j + 1)));
        }
        j += 1;
    }
    out.push('"');
    proof {
        assert(s@.take(n as int) =~= s@);
        assert(out@ =~= old(out)@ + ser_string(s@));
    }
}

/// The decimal digit character for a value below ten.
fn digit_to_char(d: u32) -> (c: char)
    requires
        d < 10,
    ensures
        c == digit_char(d as int),
{
    if d == 0 {
        '0'
    } else if d == 1 {
        '1'
    } else if d == 2 {
        '2'
    } else if d == 3 {
        '3'
    } else if d == 4 {
        '4'
    } else if d == 5 {
        '5'
    } else if d == 6 {
        '6'
    } else if d == 7 {
        '7'
    } else if d == 8 {
        '8'
    } else {
        '9'
    }
}

/// Appends a non-negative integer in decimal.
fn emit_nat(out: &mut Vec<char>, n: u32)
    ensures
        final(out)@ == old(out)@ + ser_nat(n as int),
    decreases n,
{
    if n < 10 {
        out.push(digit_to_char(n));
        proof {
            assert(out@ =~= old(out)@ + ser_nat(n as int));
        }
    } else {
        emit_nat(out, n / 10);
        out.push(digit_to_char(n % 10));
        proof {
            assert(out@ =~= old(out)@ + ser_nat(n as int));
        }
    }
}

/// Appends an integer in decimal, with a leading minus when negative.
fn emit_int(out: &mut Vec<char>, v: i32)
    ensures
        final(out)@ == old(out)@ + ser_int(v as int),
{
    if v < 0 {
        out.push('-');
        let m: i64 = -(v as i64);
        emit_nat(out, m as u32);
        proof {
            assert(out@ =~= old(out)@ + ser_int(v as int));
        }
    } else {
        emit_nat(out, v as u32);
    }
}

/// Appends `true` or `false`.
fn emit_bool(out: &mut Vec<char>, b: bool)
    ensures
        final(out)@ == old(out)@ + ser_bool(b),
{
    if b {
        emit_lit(out, "true");
    } else {
        emit_lit(out, "false");
    }
}

/// Appends one task object.
fn emit_task(out: &mut Vec<char>, t: &Task)
    ensures
        final(out)@ == old(out)@ + ser_task(t@),
{
    emit_lit(out, "{\"text\":");
    proof {
        assert(out@ == old(out)@ + "{\"text\":"@);
    }
    emit_string(out, &t.text);
    proof {
        lemma_assoc(old(out)@, "{\"text\":"@, ser_string(t.text@));
        assert(out@ == old(out)@ + ("{\"text\":"@ + ser_string(t.text@)));
    }
    emit_lit(out, ",\"colour\":");
    proof {
        lemma_assoc(old(out)@, "{\"text\":"@ + ser_string(t.text@), ",\"colour\":"@);
        assert(out@ == old(out)@ + ("{\"text\":"@ + ser_string(t.text@) + ",\"colour\":"@));
    }
    emit_string(out, &t.colour);
    proof {
        lemma_assoc(old(out)@, "{\"text\":"@ + ser_string(t.text@) + ",\"colour\":"@, ser_string(t.colour@));
        assert(out@ == old(out)@ + ("{\"text\":"@ + ser_string(t.text@) + ",\"colour\":"@ + ser_string(t.colour@)));
    }
    emit_lit(out, ",\"completed\":");
    proof {
        lemma_assoc(old(out)@, "{\"text\":"@ + ser_string(t.text@) + ",\"colour\":"@ + ser_string(t.colour@), ",\"completed\":"@);
        assert(out@ == old(out)@ + ("{\"text\":"@ + ser_string(t.text@) + ",\"colour\":"@ + ser_string(t.colour@) + ",\"completed\":"@));
    }
    emit_bool(out, t.completed);
    proof {
        lemma_assoc(old(out)@, "{\"text\":"@ + ser_string(t.text@) + ",\"colour\":"@ + ser_string(t.colour@) + ",\"completed\":"@, ser_bool(t.completed));
        assert(out@ == old(out)@ + ("{\"text\":"@ + ser_string(t.text@) + ",\"colour\":"@ + ser_string(t.colour@) + ",\"completed\":"@ + ser_bool(t.completed)));
    }
    emit_lit(out, ",\"id\":");
    proof {
        lemma_assoc(old(out)@, "{\"text\":"@ + ser_string(t.text@) + ",\"colour\":"@ + ser_string(t.colour@) + ",\"completed\":"@ + ser_bool(t.completed), ",\"id\":"@);
        assert(out@ == old(out)@ + ("{\"text\":"@ + ser_string(t.text@) + ",\"colour\":"@ + ser_string(t.colour@) + ",\"completed\":"@ + ser_bool(t.completed) + ",\"id\":"@));
    }
    emit_string(out, &t.id);
    proof {
        lemma_assoc(old(out)@, "{\"text\":"@ + ser_string(t.text@) + ",\"colour\":"@ + ser_string(t.colour@) + ",\"completed\":"@ + ser_bool(t.completed) + ",\"id\":"@, ser_string(t.id@));
        assert(out@ == old(out)@ + ("{\"text\":"@ + ser_string(t.text@) + ",\"colour\":"@ + ser_string(t.colour@) + ",\"completed\":"@ + ser_bool(t.completed) + ",\"id\":"@ + ser_string(t.id@)));
    }
    out.push('}');
    proof {
        lemma_assoc(old(out)@, "{\"text\":"@ + ser_string(t.text@) + ",\"colour\":"@ + ser_string(t.colour@) + ",\"completed\":"@ + ser_bool(t.completed) + ",\"id\":"@ + ser_string(t.id@), seq!['}']);
        assert(out@ == old(out)@ + ("{\"text\":"@ + ser_string(t.text@) + ",\"colour\":"@ + ser_string(t.colour@) + ",\"completed\":"@ + ser_bool(t.completed) + ",\"id\":"@ + ser_string(t.id@) + seq!['}']));
    }
}

/// Appends the task list's items, comma-separated.
fn emit_tasks(out: &mut Vec<char>, ts: &Vec<Task>)
    ensures
        final(out)@ == old(out)@ + ser_tasks(tasks_view(ts@)),
{
    let mut i: usize = 0;
    while i < ts.len()
        invariant
            i <= ts.len(),
            out@ == old(out)@ + ser_tasks(tasks_view(ts@.take(i as int))),
        decreases ts.len() - i,
    {
        let ghost pre = tasks_view(ts@.take(i as int));
        if i > 0 {
            out.push(',');
        }
        emit_task(out, &ts[i]);
        proof {
            assert(tasks_view(ts@.take(i + 1)) =~= pre.push(ts@[i as int]@));
            lemma_ser_tasks_push(pre, ts@[i as int]@);
            assert(pre.len() == i);
            assert(out@ =~= old(out)@ + ser_tasks(tasks_view(ts@.take(i + 1))));
        }
        i += 1;
    }
    proof {
        assert(ts@.take(ts@.len() as int) =~= ts@);
    }
}

/// Appends a folder's geometry fields and the closing brace.
fn emit_geom(out: &mut Vec<char>, f: &TaskFolder)
    ensures
        final(out)@ == old(out)@ + ser_geom(f@),
{
    emit_lit(out, ",\"width\":");
    proof {
        assert(out@ == old(out)@ + ",\"width\":"@);
    }
    emit_int(out, f.width);
    proof {
        lemma_assoc(old(out)@, ",\"width\":"@, ser_int(f.width as int));
        assert(out@ == old(out)@ + (",\"width\":"@ + ser_int(f.width as int)));
    }
    emit_lit(out, ",\"height\":");
    proof {
        lemma_assoc(old(out)@, ",\"width\":"@ + ser_int(f.width as int), ",\"height\":"@);
        assert(out@ == old(out)@ + (",\"width\":"@ + ser_int(f.width as int) + ",\"height\":"@));
    }
    emit_int(out, f.height);
    proof {
        lemma_assoc(old(out)@, ",\"width\":"@ + ser_int(f.width as int) + ",\"height\":"@, ser_int(f.height as int));
        assert(out@ == old(out)@ + (",\"width\":"@ + ser_int(f.width as int) + ",\"height\":"@ + ser_int(f.height as int)));
    }
    emit_lit(out, ",\"x\":");
    proof {
        lemma_assoc(old(out)@, ",\"width\":"@ + ser_int(f.width as int) + ",\"height\":"@ + ser_int(f.height as int), ",\"x\":"@);
        assert(out@ == old(out)@ + (",\"width\":"@ + ser_int(f.width as int) + ",\"height\":"@ + ser_int(f.height as int) + ",\"x\":"@));
    }
    emit_int(out, f.x);
    proof {
        lemma_assoc(old(out)@, ",\"width\":"@ + ser_int(f.width as int) + ",\"height\":"@ + ser_int(f.height as int) + ",\"x\":"@, ser_int(f.x as int));
        assert(out@ == old(out)@ + (",\"width\":"@ + ser_int(f.width as int) + ",\"height\":"@ + ser_int(f.height as int) + ",\"x\":"@ + ser_int(f.x as int)));
    }
    emit_lit(out, ",\"y\":");
    proof {
        lemma_assoc(old(out)@, ",\"width\":"@ + ser_int(f.width as int) + ",\"height\":"@ + ser_int(f.height as int) + ",\"x\":"@ + ser_int(f.x as int), ",\"y\":"@);
        assert(out@ == old(out)@ + (",\"width\":"@ + ser_int(f.width as int) + ",\"height\":"@ + ser_int(f.height as int) + ",\"x\":"@ + ser_int(f.x as int) + ",\"y\":"@));
    }
    emit_int(out, f.y);
    proof {
        lemma_assoc(old(out)@, ",\"width\":"@ + ser_int(f.width as int) + ",\"height\":"@ + ser_int(f.height as int) + ",\"x\":"@ + ser_int(f.x as int) + ",\"y\":"@, ser_int(f.y as int));
        assert(out@ == old(out)@ + (",\"width\":"@ + ser_int(f.width as int) + ",\"height\":"@ + ser_int(f.height as int) + ",\"x\":"@ + ser_int(f.x as int) + ",\"y\":"@ + ser_int(f.y as int)));
    }
    emit_lit(out, ",\"zindex\":");
    proof {
        lemma_assoc(old(out)@, ",\"width\":"@ + ser_int(f.width as int) + ",\"height\":"@ + ser_int(f.height as int) + ",\"x\":"@ + ser_int(f.x as int) + ",\"y\":"@ + ser_int(f.y as int), ",\"zindex\":"@);
        assert(out@ == old(out)@ + (",\"width\":"@ + ser_int(f.width as int) + ",\"height\":"@ + ser_int(f.height as int) + ",\"x\":"@ + ser_int(f.x as int) + ",\"y\":"@ + ser_int(f.y as int) + ",\"zindex\":"@));
    }
    emit_int(out, f.zindex);
    proof {
        lemma_assoc(old(out)@, ",\"width\":"@ + ser_int(f.width as int) + ",\"height\":"@ + ser_int(f.height as int) + ",\"x\":"@ + ser_int(f.x as int) + ",\"y\":"@ + ser_int(f.y as int) + ",\"zindex\":"@, ser_int(f.zindex as int));
        assert(out@ == old(out)@ + (",\"width\":"@ + ser_int(f.width as int) + ",\"height\":"@ + ser_int(f.height as int) + ",\"x\":"@ + ser_int(f.x as int) + ",\"y\":"@ + ser_int(f.y as int) + ",\"zindex\":"@ + ser_int(f.zindex as int)));
    }
    out.push('}');
    proof {
        lemma_assoc(old(out)@, ",\"width\":"@ + ser_int(f.width as int) + ",\"height\":"@ + ser_int(f.height as int) + ",\"x\":"@ + ser_int(f.x as int) + ",\"y\":"@ + ser_int(f.y as int) + ",\"zindex\":"@ + ser_int(f.zindex as int), seq!['}']);
        assert(out@ == old(out)@ + (",\"width\":"@ + ser_int(f.width as int) + ",\"height\":"@ + ser_int(f.height as int) + ",\"x\":"@ + ser_int(f.x as int) + ",\"y\":"@ + ser_int(f.y as int) + ",\"zindex\":"@ + ser_int(f.zindex as int) + seq!['}']));
    }
}

/// Appends one folder object.
fn emit_folder(out: &mut Vec<char>, f: &TaskFolder)
    ensures
        final(out)@ == old(out)@ + ser_folder(f@),
{
    emit_lit(out, "{\"id\":");
    proof {
        assert(out@ == old(out)@ + "{\"id\":"@);
    }
    emit_string(out, &f.id);
    proof {
        lemma_assoc(old(out)@, "{\"id\":"@, ser_string(f.id@));
        assert(out@ == old(out)@ + ("{\"id\":"@ + ser_string(f.id@)));
    }
    emit_lit(out, ",\"name\":");
    proof {
        lemma_assoc(old(out)@, "{\"id\":"@ + ser_string(f.id@), ",\"name\":"@);
        assert(out@ == old(out)@ + ("{\"id\":"@ + ser_string(f.id@) + ",\"name\":"@));
    }
    emit_string(out, &f.name);
    proof {
        lemma_assoc(old(out)@, "{\"id\":"@ + ser_string(f.id@) + ",\"name\":"@, ser_string(f.name@));
        assert(out@ == old(out)@ + ("{\"id\":"@ + ser_string(f.id@) + ",\"name\":"@ + ser_string(f.name@)));
    }
    emit_lit(out, ",\"colour\":");
    proof {
        lemma_assoc(old(out)@, "{\"id\":"@ + ser_string(f.id@) + ",\"name\":"@ + ser_string(f.name@), ",\"colour\":"@);
        assert(out@ == old(out)@ + ("{\"id\":"@ + ser_string(f.id@) + ",\"name\":"@ + ser_string(f.name@) + ",\"colour\":"@));
    }
    emit_string(out, &f.colour);
    proof {
        lemma_assoc(old(out)@, "{\"id\":"@ + ser_string(f.id@) + ",\"name\":"@ + ser_string(f.name@) + ",\"colour\":"@, ser_string(f.colour@));
        assert(out@ == old(out)@ + ("{\"id\":"@ + ser_string(f.id@) + ",\"name\":"@ + ser_string(f.name@) + ",\"colour\":"@ + ser_string(f.colour@)));
    }
    emit_lit(out, ",\"visible\":");
    proof {
        lemma_assoc(old(out)@, "{\"id\":"@ + ser_string(f.id@) + ",\"name\":"@ + ser_string(f.name@) + ",\"colour\":"@ + ser_string(f.colour@), ",\"visible\":"@);
        assert(out@ == old(out)@ + ("{\"id\":"@ + ser_string(f.id@) + ",\"name\":"@ + ser_string(f.name@) + ",\"colour\":"@ + ser_string(f.colour@) + ",\"visible\":"@));
    }
    emit_bool(out, f.visible);
    proof {
        lemma_assoc(old(out)@, "{\"id\":"@ + ser_string(f.id@) + ",\"name\":"@ + ser_string(f.name@) + ",\"colour\":"@ + ser_string(f.colour@) + ",\"visible\":"@, ser_bool(f.visible));
        assert(out@ == old(out)@ + ("{\"id\":"@ + ser_string(f.id@) + ",\"name\":"@ + ser_string(f.name@) + ",\"colour\":"@ + ser_string(f.colour@) + ",\"visible\":"@ + ser_bool(f.visible)));
    }
    emit_lit(out, ",\"tasks\":[");
    proof {
        lemma_assoc(old(out)@, "{\"id\":"@ + ser_string(f.id@) + ",\"name\":"@ + ser_string(f.name@) + ",\"colour\":"@ + ser_string(f.colour@) + ",\"visible\":"@ + ser_bool(f.visible), ",\"tasks\":["@);
        assert(out@ == old(out)@ + ("{\"id\":"@ + ser_string(f.id@) + ",\"name\":"@ + ser_string(f.name@) + ",\"colour\":"@ + ser_string(f.colour@) + ",\"visible\":"@ + ser_bool(f.visible) + ",\"tasks\":["@));
    }
    emit_tasks(out, &f.tasks);
    proof {
        lemma_assoc(old(out)@, "{\"id\":"@ + ser_string(f.id@) + ",\"name\":"@ + ser_string(f.name@) + ",\"colour\":"@ + ser_string(f.colour@) + ",\"visible\":"@ + ser_bool(f.visible) + ",\"tasks\":["@, ser_tasks(tasks_view(f.tasks@)));
        assert(out@ == old(out)@ + ("{\"id\":"@ + ser_string(f.id@) + ",\"name\":"@ + ser_string(f.name@) + ",\"colour\":"@ + ser_string(f.colour@) + ",\"visible\":"@ + ser_bool(f.visible) + ",\"tasks\":["@ + ser_tasks(tasks_view(f.tasks@))));
    }
    out.push(']');
    proof {
        lemma_assoc(old(out)@, "{\"id\":"@ + ser_string(f.id@) + ",\"name\":"@ + ser_string(f.name@) + ",\"colour\":"@ + ser_string(f.colour@) + ",\"visible\":"@ + ser_bool(f.visible) + ",\"tasks\":["@ + ser_tasks(tasks_view(f.tasks@)), seq![']']);
        assert(out@ == old(out)@ + ("{\"id\":"@ + ser_string(f.id@) + ",\"name\":"@ + ser_string(f.name@) + ",\"colour\":"@ + ser_string(f.colour@) + ",\"visible\":"@ + ser_bool(f.visible) + ",\"tasks\":["@ + ser_tasks(tasks_view(f.tasks@)) + seq![']']));
    }
    emit_geom(out, f);
    proof {
        lemma_assoc(old(out)@, "{\"id\":"@ + ser_string(f.id@) + ",\"name\":"@ + ser_string(f.name@) + ",\"colour\":"@ + ser_string(f.colour@) + ",\"visible\":"@ + ser_bool(f.visible) + ",\"tasks\":["@ + ser_tasks(tasks_view(f.tasks@)) + seq![']'], ser_geom(f@));
        assert(out@ == old(out)@ + ("{\"id\":"@ + ser_string(f.id@) + ",\"name\":"@ + ser_string(f.name@) + ",\"colour\":"@ + ser_string(f.colour@) + ",\"visible\":"@ + ser_bool(f.visible) + ",\"tasks\":["@ + ser_tasks(tasks_view(f.tasks@)) + seq![']'] + ser_geom(f@)));
    }
}

/// The canonical serialized text of a document, as characters.
#[verifier::rlimit(100)]
pub fn serialize_document(doc: &Vec<TaskFolder>) -> (r: Vec<char>)
    ensures
        r@ == ser_doc(doc_view(doc@)),
{
    let mut out: Vec<char> = Vec::new();
    out.push('[');
    let mut i: usize = 0;
    while i < doc.len()
        invariant
            i <= doc.len(),
            out@ == seq!['['] + ser_folders(doc_view(doc@.take(i as int))),
        decreases doc.len() - i,
    {
        let ghost pre = doc_view(doc@.take(i as int));
        if i > 0 {
            out.push(',');
        }
        emit_folder(&mut out, &doc[i]);
        proof {
            assert(doc_view(doc@.take(i + 1)) =~= pre.push(doc@[i as int]@));
            lemma_ser_folders_push(pre, doc@[i as int]@);
            assert(pre.len() == i);
            assert(out@ =~= seq!['['] + ser_folders(doc_view(doc@.take(i + 1))));
        }
        i += 1;
    }
    out.push(']');
    proof {
        assert(doc@.take(doc@.len() as int) =~= doc@);
        assert(out@ =~= ser_doc(doc_view(doc@)));
    }
    out
}

/// A whole document: the folder array with nothing after it.
pub open spec fn parse_doc(s: Seq<char>) -> Option<Seq<FolderView>> {
    if s.len() > 0 && s[0] == '[' {
        match parse_folders(s.skip(1)) {
            None => None,
            Some((d, r)) => if r.len() == 0 {
                Some(d)
            } else {
                None
            },
        }
    } else {
        None
    }
}


// ---------------------------------------------------------------------
// The executable parser: each function consumes from position `i` of the
// character buffer and returns the parsed value with the next position,
// exactly as the spec parser on the remaining input says.
// ---------------------------------------------------------------------

/// Relies on String's FromIterator over characters: collecting a character
/// buffer yields the string of exactly those characters.
#[verifier::external_body]
fn chars_to_string(v: &Vec<char>) -> (r: String)
    ensures
        r@ == v@,
{
    v.iter().collect()
}

/// Whether a character is a decimal digit.
fn is_digit_exec(c: char) -> (b: bool)
    ensures
        b == is_digit(c),
{
    c == '0' || c == '1' || c == '2' || c == '3' || c == '4' || c == '5' || c == '6' || c == '7'
        || c == '8' || c == '9'
}

/// The value of a decimal digit character.
fn char_digit(c: char) -> (d: u32)
    requires
        is_digit(c),
    ensures
        d as int == digit_val(c),
{
    if c == '0' {
        0
    } else if c == '1' {
        1
    } else if c == '2' {
        2
    } else if c == '3' {
        3
    } else if c == '4' {
        4
    } else if c == '5' {
        5
    } else if c == '6' {
        6
    } else if c == '7' {
        7
    } else if c == '8' {
        8
    } else {
        9
    }
}

/// Consumes an exact literal at position `i`.
fn p_lit(v: &Vec<char>, i: usize, lit: &str) -> (r: Result<usize, DocError>)
    requires
        i <= v.len(),
    ensures
        (match r {
            Ok(j) => i <= j <= v.len() && j - i == lit@.len() && parse_lit(
                v@.skip(i as int),
                lit@,
            ) == Some(v@.skip(j as int)),
            Err(e) => e == DocError::ParseError && parse_lit(v@.skip(i as int), lit@) is None,
        }),
{
    let ghost s = v@.skip(i as int);
    let n = lit.unicode_len();
    if v.len() - i < n {
        proof {
            reveal(parse_lit);
        }
        return Err(DocError::ParseError);
    }
    let mut j: usize = 0;
    while j < n
        invariant
            j <= n,
            i + n <= v.len(),
            n == lit@.len(),
            s == v@.skip(i as int),
            forall|k: int| 0 <= k < j ==> s[k] == lit@[k],
        decreases n - j,
    {
        if v[i + j] != lit.get_char(j) {
            proof {
                reveal(parse_lit);
                assert(s[j as int] == v@[i + j]);
                if parse_lit(s, lit@) is Some {
                    assert(s.take(n as int)[j as int] == lit@[j as int]);
                    assert(false);
                }
            }
            return Err(DocError::ParseError);
        }
        proof {
            assert(s[j as int] == v@[i + j]);
        }
        j += 1;
    }
    proof {
        reveal(parse_lit);
        assert(s.take(n as int) =~= lit@);
        assert(s.skip(n as int) =~= v@.skip(i + n));
    }
    Ok(i + n)
}

/// Consumes a string's characters after the opening quote, up to and
/// including the closing quote.
fn p_str_body(v: &Vec<char>, i: usize) -> (r: Result<(Vec<char>, usize), DocError>)
    requires
        i <= v.len(),
    ensures
        (match r {
            Ok((t, j)) => i < j <= v.len() && parse_str_body(v@.skip(i as int)) == Some(
                (t@, v@.skip(j as int)),
            ),
            Err(e) => e == DocError::ParseError && parse_str_body(v@.skip(i as int)) is None,
        }),
    decreases v.len() - i,
{
    let ghost s = v@.skip(i as int);
    if i == v.len() {
        return Err(DocError::ParseError);
    }
    let c = v[i];
    proof {
        assert(s[0] == c);
    }
    if c == '"' {
        let t: Vec<char> = Vec::new();
        proof {
            assert(s.skip(1) =~= v@.skip(i + 1));
            assert(t@ =~= Seq::<char>::empty());
        }
        Ok((t, i + 1))
    } else if c == '\\' {
        if v.len() - i >= 2 {
            proof {
                assert(s.skip(2) =~= v@.skip(i + 2));
                assert(s[1] == v@[i + 1]);
            }
            match p_str_body(v, i + 2) {
                Ok((mut t, j)) => {
                    let ghost t0 = t@;
                    t.insert(0, v[i + 1]);
                    proof {
                        assert(t@ =~= seq![s[1]] + t0);
                    }
                    Ok((t, j))
                },
                Err(e) => Err(e),
            }
        } else {
            Err(DocError::ParseError)
        }
    } else {
        proof {
            assert(s.skip(1) =~= v@.skip(i + 1));
        }
        match p_str_body(v, i + 1) {
            Ok((mut t, j)) => {
                let ghost t0 = t@;
                t.insert(0, c);
                proof {
                    assert(t@ =~= seq![s[0]] + t0);
                }
                Ok((t, j))
            },
            Err(e) => Err(e),
        }
    }
}

/// Consumes a quoted string at position `i`.
fn p_string(v: &Vec<char>, i: usize) -> (r: Result<(String, usize), DocError>)
    requires
        i <= v.len(),
    ensures
        (match r {
            Ok((t, j)) => i < j <= v.len() && parse_string(v@.skip(i as int)) == Some(
                (t@, v@.skip(j as int)),
            ),
            Err(e) => e == DocError::ParseError && parse_string(v@.skip(i as int)) is None,
        }),
{
    let ghost s = v@.skip(i as int);
    if i == v.len() {
        return Err(DocError::ParseError);
    }
    if v[i] != '"' {
        proof {
            assert(s[0] == v@[i as int]);
        }
        return Err(DocError::ParseError);
    }
    proof {
        assert(s[0] == '"');
        assert(s.skip(1) =~= v@.skip(i + 1));
    }
    match p_str_body(v, i + 1) {
        Ok((t, j)) => Ok((chars_to_string(&t), j)),
        Err(e) => Err(e),
    }
}

/// Consumes `true` or `false` at position `i`.
fn p_bool(v: &Vec<char>, i: usize) -> (r: Result<(bool, usize), DocError>)
    requires
        i <= v.len(),
    ensures
        (match r {
            Ok((b, j)) => i <= j <= v.len() && parse_bool(v@.skip(i as int)) == Some(
                (b, v@.skip(j as int)),
            ),
            Err(e) => e == DocError::ParseError && parse_bool(v@.skip(i as int)) is None,
        }),
{
    match p_lit(v, i, "true") {
        Ok(j) => Ok((true, j)),
        Err(_) => match p_lit(v, i, "false") {
            Ok(j) => Ok((false, j)),
            Err(e) => Err(e),
        },
    }
}

/// Consumes one to ten decimal digits at position `i`.
fn p_uint(v: &Vec<char>, i: usize) -> (r: Result<(u64, usize), DocError>)
    requires
        i <= v.len(),
    ensures
        (match r {
            Ok((n, j)) => i < j <= v.len() && parse_uint(v@.skip(i as int)) == Some(
                (n as int, v@.skip(j as int)),
            ),
            Err(e) => e == DocError::ParseError && parse_uint(v@.skip(i as int)) is None,
        }),
{
    let ghost s = v@.skip(i as int);
    let mut k: usize = 0;
    while i + k < v.len() && is_digit_exec(v[i + k])
        invariant
            i + k <= v.len(),
            s == v@.skip(i as int),
            forall|m: int| 0 <= m < k ==> is_digit(#[trigger] s[m]),
        decreases v.len() - i - k,
    {
        proof {
            assert(s[k as int] == v@[i + k]);
        }
        k += 1;
    }
    proof {
        if i + k < v.len() {
            assert(s[k as int] == v@[i + k]);
        }
        lemma_digits_len_split(s, k as int);
    }
    if k == 0 || k > 10 {
        proof {
            reveal(parse_uint);
        }
        return Err(DocError::ParseError);
    }
    let mut acc: u64 = 0;
    let mut j: usize = 0;
    while j < k
        invariant
            j <= k <= 10,
            i + k <= v.len(),
            s == v@.skip(i as int),
            forall|m: int| 0 <= m < k ==> is_digit(#[trigger] s[m]),
            acc as int == digits_val(s.take(j as int)),
            acc < pow10(j as nat),
        decreases k - j,
    {
        proof {
            assert(s[j as int] == v@[i + j]);
            assert(pow10(0) == 1);
            assert(pow10(1) == 10);
            assert(pow10(2) == 100);
            assert(pow10(3) == 1000);
            assert(pow10(4) == 10000);
            assert(pow10(5) == 100000);
            assert(pow10(6) == 1000000);
            assert(pow10(7) == 10000000);
            assert(pow10(8) == 100000000);
            assert(pow10(9) == 1000000000);
            assert(pow10(10) == 10000000000);
            lemma_pow10_le(j as nat, 9);
            assert(s.take(j + 1).drop_last() =~= s.take(j as int));
            assert(s.take(j + 1).last() == s[j as int]);
        }
        let d = char_digit(v[i + j]);
        acc = acc * 10 + (d as u64);
        j += 1;
    }
    proof {
        reveal(parse_uint);
        assert(s.skip(k as int) =~= v@.skip(i + k));
    }
    Ok((acc, i + k))
}

/// Consumes a decimal integer with an optional leading minus at position
/// `i`, rejecting values outside the stored integer width.
fn p_int(v: &Vec<char>, i: usize) -> (r: Result<(i32, usize), DocError>)
    requires
        i <= v.len(),
    ensures
        (match r {
            Ok((x, j)) => i < j <= v.len() && parse_int(v@.skip(i as int)) == Some(
                (x as int, v@.skip(j as int)),
            ),
            Err(e) => e == DocError::ParseError && parse_int(v@.skip(i as int)) is None,
        }),
{
    let ghost s = v@.skip(i as int);
    if i < v.len() && v[i] == '-' {
        proof {
            reveal(parse_int);
            assert(s[0] == '-');
            assert(s.skip(1) =~= v@.skip(i + 1));
        }
        match p_uint(v, i + 1) {
            Ok((n, j)) => {
                if n > 2147483648u64 {
                    Err(DocError::ParseError)
                } else {
                    let x = (-(n as i64)) as i32;
                    proof {
                        assert(x as int == -(n as int));
                    }
                    Ok((x, j))
                }
            },
            Err(e) => Err(e),
        }
    } else {
        proof {
            reveal(parse_int);
            if i < v.len() {
                assert(s[0] == v@[i as int]);
            }
        }
        match p_uint(v, i) {
            Ok((n, j)) => {
                if n > 2147483647u64 {
                    Err(DocError::ParseError)
                } else {
                    Ok((n as i32, j))
                }
            },
            Err(e) => Err(e),
        }
    }
}

/// Consumes one task object at position `i`.
#[verifier::rlimit(100)]
fn p_task(v: &Vec<char>, i: usize) -> (r: Result<(Task, usize), DocError>)
    requires
        i <= v.len(),
    ensures
        (match r {
            Ok((t, j)) => i < j <= v.len() && parse_task(v@.skip(i as int)) == Some(
                (t@, v@.skip(j as int)),
            ),
            Err(e) => e == DocError::ParseError && parse_task(v@.skip(i as int)) is None,
        }),
{
    proof {
        reveal_strlit("{\"text\":");
        reveal_strlit("}");
        assert("}"@ =~= seq!['}']);
    }
    let i1 = match p_lit(v, i, "{\"text\":") {
        Ok(j) => j,
        Err(e) => {
            return Err(e);
        },
    };
    let (text, i2) = match p_string(v, i1) {
        Ok(x) => x,
        Err(e) => {
            return Err(e);
        },
    };
    let i3 = match p_lit(v, i2, ",\"colour\":") {
        Ok(j) => j,
        Err(e) => {
            return Err(e);
        },
    };
    let (colour, i4) = match p_string(v, i3) {
        Ok(x) => x,
        Err(e) => {
            return Err(e);
        },
    };
    let i5 = match p_lit(v, i4, ",\"completed\":") {
        Ok(j) => j,
        Err(e) => {
            return Err(e);
        },
    };
    let (completed, i6) = match p_bool(v, i5) {
        Ok(x) => x,
        Err(e) => {
            return Err(e);
        },
    };
    let i7 = match p_lit(v, i6, ",\"id\":") {
        Ok(j) => j,
        Err(e) => {
            return Err(e);
        },
    };
    let (id, i8) = match p_string(v, i7) {
        Ok(x) => x,
        Err(e) => {
            return Err(e);
        },
    };
    let i9 = match p_lit(v, i8, "}") {
        Ok(j) => j,
        Err(e) => {
            return Err(e);
        },
    };
    let t = Task { text, colour, completed, id };
    proof {
        assert(t@ =~= (TaskView { text: t.text@, colour: t.colour@, completed, id: t.id@ }));
    }
    Ok((t, i9))
}

/// Consumes a task list after its opening bracket at position `i`, up to
/// and including the closing bracket.
fn p_tasks(v: &Vec<char>, i: usize) -> (r: Result<(Vec<Task>, usize), DocError>)
    requires
        i <= v.len(),
    ensures
        (match r {
            Ok((ts, j)) => i < j <= v.len() && parse_tasks(v@.skip(i as int)) == Some(
                (tasks_view(ts@), v@.skip(j as int)),
            ),
            Err(e) => e == DocError::ParseError && parse_tasks(v@.skip(i as int)) is None,
        }),
{
    let ghost s0 = v@.skip(i as int);
    if i == v.len() {
        return Err(DocError::ParseError);
    }
    if v[i] == ']' {
        let ts: Vec<Task> = Vec::new();
        proof {
            assert(s0[0] == ']');
            assert(s0.skip(1) =~= v@.skip(i + 1));
            assert(tasks_view(ts@) =~= Seq::<TaskView>::empty());
        }
        return Ok((ts, i + 1));
    }
    proof {
        assert(s0[0] == v@[i as int]);
    }
    let (t0, first_j) = match p_task(v, i) {
        Ok(x) => x,
        Err(e) => {
            return Err(e);
        },
    };
    let mut out: Vec<Task> = Vec::new();
    out.push(t0);
    let mut cur: usize = first_j;
    proof {
        assert(tasks_view(out@) =~= seq![t0@]);
    }
    loop
        invariant
            i < cur <= v.len(),
            s0 == v@.skip(i as int),
            parse_tasks(s0) == parse_tasks_rest(v@.skip(cur as int), tasks_view(out@)),
        decreases v.len() - cur,
    {
        let ghost rest = v@.skip(cur as int);
        if cur == v.len() {
            return Err(DocError::ParseError);
        }
        let c = v[cur];
        proof {
            assert(rest[0] == c);
        }
        if c == ']' {
            proof {
                assert(rest.skip(1) =~= v@.skip(cur + 1));
            }
            return Ok((out, cur + 1));
        }
        if c != ',' {
            return Err(DocError::ParseError);
        }
        proof {
            assert(rest.skip(1) =~= v@.skip(cur + 1));
        }
        match p_task(v, cur + 1) {
            Ok((t, nj)) => {
                let ghost pre = tasks_view(out@);
                out.push(t);
                proof {
                    assert(tasks_view(out@) =~= pre.push(t@));
                }
                cur = nj;
            },
            Err(e) => {
                return Err(e);
            },
        }
    }
}

/// Consumes a folder's five geometry fields and the closing brace at
/// position `i`.
#[verifier::rlimit(100)]
fn p_geom(v: &Vec<char>, i: usize) -> (r: Result<((i32, i32, i32, i32, i32), usize), DocError>)
    requires
        i <= v.len(),
    ensures
        (match r {
            Ok(((w, h, x, y, z), j)) => i <= j <= v.len() && parse_geom(v@.skip(i as int)) == Some(
                ((w as int, h as int, x as int, y as int, z as int), v@.skip(j as int)),
            ),
            Err(e) => e == DocError::ParseError && parse_geom(v@.skip(i as int)) is None,
        }),
{
    proof {
        reveal_strlit("}");
        assert("}"@ =~= seq!['}']);
    }
    let i11 = match p_lit(v, i, ",\"width\":") {
        Ok(j) => j,
        Err(e) => {
            return Err(e);
        },
    };
    let (w, i12) = match p_int(v, i11) {
        Ok(x) => x,
        Err(e) => {
            return Err(e);
        },
    };
    let i13 = match p_lit(v, i12, ",\"height\":") {
        Ok(j) => j,
        Err(e) => {
            return Err(e);
        },
    };
    let (h, i14) = match p_int(v, i13) {
        Ok(x) => x,
        Err(e) => {
            return Err(e);
        },
    };
    let i15 = match p_lit(v, i14, ",\"x\":") {
        Ok(j) => j,
        Err(e) => {
            return Err(e);
        },
    };
    let (x, i16) = match p_int(v, i15) {
        Ok(x) => x,
        Err(e) => {
            return Err(e);
        },
    };
    let i17 = match p_lit(v, i16, ",\"y\":") {
        Ok(j) => j,
        Err(e) => {
            return Err(e);
        },
    };
    let (y, i18) = match p_int(v, i17) {
        Ok(x) => x,
        Err(e) => {
            return Err(e);
        },
    };
    let i19 = match p_lit(v, i18, ",\"zindex\":") {
        Ok(j) => j,
        Err(e) => {
            return Err(e);
        },
    };
    let (z, i20) = match p_int(v, i19) {
        Ok(x) => x,
        Err(e) => {
            return Err(e);
        },
    };
    let i21 = match p_lit(v, i20, "}") {
        Ok(j) => j,
        Err(e) => {
            return Err(e);
        },
    };
    Ok(((w, h, x, y, z), i21))
}

/// Consumes one folder object at position `i`.
#[verifier::rlimit(100)]
fn p_folder(v: &Vec<char>, i: usize) -> (r: Result<(TaskFolder, usize), DocError>)
    requires
        i <= v.len(),
    ensures
        (match r {
            Ok((f, j)) => i < j <= v.len() && parse_folder(v@.skip(i as int)) == Some(
                (f@, v@.skip(j as int)),
            ),
            Err(e) => e == DocError::ParseError && parse_folder(v@.skip(i as int)) is None,
        }),
{
    proof {
        reveal_strlit("{\"id\":");
    }
    let i1 = match p_lit(v, i, "{\"id\":") {
        Ok(j) => j,
        Err(e) => {
            return Err(e);
        },
    };
    let (id, i2) = match p_string(v, i1) {
        Ok(x) => x,
        Err(e) => {
            return Err(e);
        },
    };
    let i3 = match p_lit(v, i2, ",\"name\":") {
        Ok(j) => j,
        Err(e) => {
            return Err(e);
        },
    };
    let (name, i4) = match p_string(v, i3) {
        Ok(x) => x,
        Err(e) => {
            return Err(e);
        },
    };
    let i5 = match p_lit(v, i4, ",\"colour\":") {
        Ok(j) => j,
        Err(e) => {
            return Err(e);
        },
    };
    let (colour, i6) = match p_string(v, i5) {
        Ok(x) => x,
        Err(e) => {
            return Err(e);
        },
    };
    let i7 = match p_lit(v, i6, ",\"visible\":") {
        Ok(j) => j,
        Err(e) => {
            return Err(e);
        },
    };
    let (visible, i8) = match p_bool(v, i7) {
        Ok(x) => x,
        Err(e) => {
            return Err(e);
        },
    };
    let i9 = match p_lit(v, i8, ",\"tasks\":[") {
        Ok(j) => j,
        Err(e) => {
            return Err(e);
        },
    };
    let (tasks, i10) = match p_tasks(v, i9) {
        Ok(x) => x,
        Err(e) => {
            return Err(e);
        },
    };
    let (geom, i21) = match p_geom(v, i10) {
        Ok(x) => x,
        Err(e) => {
            return Err(e);
        },
    };
    let (w, h, x, y, z) = geom;
    let f = TaskFolder {
        id,
        name,
        colour,
        visible,
        tasks,
        width: w,
        height: h,
        x,
        y,
        zindex: z,
    };
    proof {
        assert(f@ =~= (FolderView {
            id: f.id@,
            name: f.name@,
            colour: f.colour@,
            visible,
            tasks: tasks_view(f.tasks@),
            width: w as int,
            height: h as int,
            x: x as int,
            y: y as int,
            zindex: z as int,
        }));
    }
    Ok((f, i21))
}

/// Consumes the folder list after its opening bracket at position `i`, up
/// to and including the closing bracket.
fn p_folders(v: &Vec<char>, i: usize) -> (r: Result<(Vec<TaskFolder>, usize), DocError>)
    requires
        i <= v.len(),
    ensures
        (match r {
            Ok((d, j)) => i < j <= v.len() && parse_folders(v@.skip(i as int)) == Some(
                (doc_view(d@), v@.skip(j as int)),
            ),
            Err(e) => e == DocError::ParseError && parse_folders(v@.skip(i as int)) is None,
        }),
{
    let ghost s0 = v@.skip(i as int);
    if i == v.len() {
        return Err(DocError::ParseError);
    }
    if v[i] == ']' {
        let d: Vec<TaskFolder> = Vec::new();
        proof {
            assert(s0[0] == ']');
            assert(s0.skip(1) =~= v@.skip(i + 1));
            assert(doc_view(d@) =~= Seq::<FolderView>::empty());
        }
        return Ok((d, i + 1));
    }
    proof {
        assert(s0[0] == v@[i as int]);
    }
    let (f0, first_j) = match p_folder(v, i) {
        Ok(x) => x,
        Err(e) => {
            return Err(e);
        },
    };
    let mut out: Vec<TaskFolder> = Vec::new();
    out.push(f0);
    let mut cur: usize = first_j;
    proof {
        assert(doc_view(out@) =~= seq![f0@]);
    }
    loop
        invariant
            i < cur <= v.len(),
            s0 == v@.skip(i as int),
            parse_folders(s0) == parse_folders_rest(v@.skip(cur as int), doc_view(out@)),
        decreases v.len() - cur,
    {
        let ghost rest = v@.skip(cur as int);
        if cur == v.len() {
            return Err(DocError::ParseError);
        }
        let c = v[cur];
        proof {
            assert(rest[0] == c);
        }
        if c == ']' {
            proof {
                assert(rest.skip(1) =~= v@.skip(cur + 1));
            }
            return Ok((out, cur + 1));
        }
        if c != ',' {
            return Err(DocError::ParseError);
        }
        proof {
            assert(rest.skip(1) =~= v@.skip(cur + 1));
        }
        match p_folder(v, cur + 1) {
            Ok((f, nj)) => {
                let ghost pre = doc_view(out@);
                out.push(f);
                proof {
                    assert(doc_view(out@) =~= pre.push(f@));
                }
                cur = nj;
            },
            Err(e) => {
                return Err(e);
            },
        }
    }
}

/// Parses a whole document from its serialized characters, failing closed
/// with `ParseError` on any input the canonical form does not produce.
pub fn parse_document(text: &Vec<char>) -> (r: Result<Vec<TaskFolder>, DocError>)
    ensures
        (match r {
            Ok(doc) => parse_doc(text@) == Some(doc_view(doc@)),
            Err(e) => e == DocError::ParseError && parse_doc(text@) is None,
        }),
{
    if text.len() == 0 {
        return Err(DocError::ParseError);
    }
    if text[0] != '[' {
        return Err(DocError::ParseError);
    }
    match p_folders(text, 1) {
        Ok((doc, j)) => {
            if j != text.len() {
                proof {
                    assert(text@.skip(j as int).len() == text@.len() - j);
                }
                return Err(DocError::ParseError);
            }
            proof {
                assert(text@.skip(j as int).len() == 0);
            }
            Ok(doc)
        },
        Err(e) => Err(e),
    }
}


/// Every executable document's model fits the stored integer width.
pub proof fn lemma_doc_view_wf(d: Seq<TaskFolder>)
    ensures
        doc_wf(doc_view(d)),
{
    assert forall|i: int| 0 <= i < doc_view(d).len() implies folder_ints_in_range(
        #[trigger] doc_view(d)[i],
    ) by {
        assert(doc_view(d)[i] == d[i]@);
    }
}

/// The canonical serialized text of a document, as one string.
pub fn save_document(doc: &Vec<TaskFolder>) -> (r: String)
    ensures
        r@ == ser_doc(doc_view(doc@)),
{
    let chars = serialize_document(doc);
    chars_to_string(&chars)
}

/// Parses a whole document from its serialized text, failing closed with
/// `ParseError` on any input the canonical form does not produce.
pub fn load_document(text: &str) -> (r: Result<Vec<TaskFolder>, DocError>)
    ensures
        (match r {
            Ok(doc) => parse_doc(text@) == Some(doc_view(doc@)),
            Err(e) => e == DocError::ParseError && parse_doc(text@) is None,
        }),
{
    let n = text.unicode_len();
    let mut v: Vec<char> = Vec::new();
    let mut i: usize = 0;
    while i < n
        invariant
            i <= n,
            n == text@.len(),
            v@ == text@.take(i as int),
        decreases n - i,
    {
        v.push(text.get_char(i));
        proof {
            assert(v@ =~= text@.take(i + 1));
        }
        i += 1;
    }
    proof {
        assert(text@.take(n as int) =~= text@);
    }
    parse_document(&v)
}

} // verus!
