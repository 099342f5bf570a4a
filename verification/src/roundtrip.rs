//! The parser accepts exactly what the serializer writes: parsing a
//! serialized document returns that document. The lemmas walk the grammar
//! bottom-up; [`theorem_parse_serialize_round_trip`] states the law.

use vstd::prelude::*;

use crate::codec::digit_char;
use crate::codec::digit_val;
use crate::codec::digits_len;
use crate::codec::digits_val;
use crate::codec::doc_wf;
use crate::codec::folder_ints_in_range;
use crate::codec::is_digit;
use crate::codec::lemma_assoc;
use crate::codec::lemma_doc_view_wf;
use crate::codec::lemma_pow10_pos;
use crate::codec::parse_bool;
use crate::codec::parse_doc;
use crate::codec::parse_folder;
use crate::codec::parse_folders;
use crate::codec::parse_folders_rest;
use crate::codec::parse_field_int;
use crate::codec::parse_geom;
use crate::codec::parse_int;
use crate::codec::parse_lit;
use crate::codec::parse_str_body;
use crate::codec::parse_string;
use crate::codec::parse_task;
use crate::codec::parse_tasks;
use crate::codec::parse_tasks_rest;
use crate::codec::parse_uint;
use crate::codec::pow10;
use crate::codec::ser_bool;
use crate::codec::ser_doc;
use crate::codec::ser_folder;
use crate::codec::ser_folders;
use crate::codec::ser_folders_tail;
use crate::codec::ser_geom;
use crate::codec::ser_int;
use crate::codec::ser_nat;
use crate::codec::ser_str_body;
use crate::codec::ser_string;
use crate::codec::ser_task;
use crate::codec::ser_tasks;
use crate::codec::ser_tasks_tail;
use crate::model::doc_view;
use crate::types::FolderView;
use crate::types::TaskFolder;
use crate::types::TaskView;

verus! {

/// A literal at the front of the input is consumed exactly.
pub proof fn lemma_parse_lit_exact(lit: Seq<char>, rest: Seq<char>)
    ensures
        parse_lit(lit + rest, lit) == Some(rest),
{
    reveal(parse_lit);
    let s = lit + rest;
    assert(s.take(lit.len() as int) =~= lit);
    assert(s.skip(lit.len() as int) =~= rest);
}

/// A serialized non-negative integer consists of digits.
pub proof fn lemma_ser_nat_digits(n: int)
    requires
        n >= 0,
    ensures
        ser_nat(n).len() >= 1,
        forall|j: int| 0 <= j < ser_nat(n).len() ==> is_digit(#[trigger] ser_nat(n)[j]),
    decreases n,
{
    if n < 10 {
        assert(is_digit(digit_char(n)));
    } else {
        lemma_ser_nat_digits(n / 10);
        let a = ser_nat(n / 10);
        assert forall|j: int| 0 <= j < ser_nat(n).len() implies is_digit(
            #[trigger] ser_nat(n)[j],
        ) by {
            if j < a.len() {
                assert(ser_nat(n)[j] == a[j]);
            } else {
                assert(ser_nat(n)[j] == digit_char(n % 10));
                assert(is_digit(digit_char(n % 10)));
            }
        }
    }
}

/// A value below ten to the `k` serializes to at most `k` digits.
pub proof fn lemma_ser_nat_len(n: int, k: nat)
    requires
        k >= 1,
        0 <= n < pow10(k),
    ensures
        ser_nat(n).len() <= k,
    decreases k,
{
    if n >= 10 {
        lemma_pow10_pos((k - 1) as nat);
        assert(n / 10 < pow10((k - 1) as nat)) by {
            if n / 10 >= pow10((k - 1) as nat) {
                assert(n >= 10 * pow10((k - 1) as nat)) by (nonlinear_arith)
                    requires
                        n / 10 >= pow10((k - 1) as nat),
                        n >= 0,
                ;
            }
        }
        lemma_ser_nat_len(n / 10, (k - 1) as nat);
    }
}

/// Digits followed by a non-digit (or the end) count as the digit prefix.
pub proof fn lemma_digits_len_prefix(a: Seq<char>, rest: Seq<char>)
    requires
        forall|j: int| 0 <= j < a.len() ==> is_digit(#[trigger] a[j]),
        rest.len() == 0 || !is_digit(rest[0]),
    ensures
        digits_len(a + rest) == a.len(),
    decreases a.len(),
{
    let s = a + rest;
    if a.len() == 0 {
        assert(s =~= rest);
    } else {
        assert(s[0] == a[0]);
        assert(s.skip(1) =~= a.skip(1) + rest);
        assert forall|j: int| 0 <= j < a.skip(1).len() implies is_digit(
            #[trigger] a.skip(1)[j],
        ) by {
            assert(a.skip(1)[j] == a[j + 1]);
        }
        lemma_digits_len_prefix(a.skip(1), rest);
    }
}

/// The value of a serialized non-negative integer is that integer.
pub proof fn lemma_digits_val_ser(n: int)
    requires
        n >= 0,
    ensures
        digits_val(ser_nat(n)) == n,
    decreases n,
{
    if n < 10 {
        let s = ser_nat(n);
        assert(s.len() == 1);
        assert(s.drop_last() =~= Seq::<char>::empty());
        assert(digits_val(Seq::<char>::empty()) == 0);
        assert(s.last() == digit_char(n));
        assert(digit_val(digit_char(n)) == n);
        assert(digits_val(s) == digits_val(s.drop_last()) * 10 + digit_val(s.last()));
    } else {
        lemma_digits_val_ser(n / 10);
        let a = ser_nat(n / 10);
        let s = ser_nat(n);
        assert(s.len() == a.len() + 1);
        assert(s.drop_last() =~= a);
        assert(s.last() == digit_char(n % 10));
        assert(digit_val(digit_char(n % 10)) == n % 10);
        assert(digits_val(s) == digits_val(s.drop_last()) * 10 + digit_val(s.last()));
        assert(n / 10 * 10 + n % 10 == n);
    }
}

/// Parsing a serialized non-negative integer (followed by a non-digit)
/// returns that integer.
pub proof fn lemma_parse_uint_ser(n: int, rest: Seq<char>)
    requires
        0 <= n <= 0x8000_0000,
        rest.len() == 0 || !is_digit(rest[0]),
    ensures
        parse_uint(ser_nat(n) + rest) == Some((n, rest)),
{
    reveal(parse_uint);
    lemma_ser_nat_digits(n);
    assert(pow10(0) == 1);
    assert(pow10(1) == 10);
    assert(pow10(2) == 100);
    assert(pow10(3) == 1000);
    assert(pow10(4) == 10000);
    assert(pow10(5) == 100000);
    assert(pow10(6) == 1000000);
    assert(pow10(7) == 10000000);
    assert(pow10(8) == 100000000);
    assert(pow10(9) == 1000000000);
    assert(pow10(10) == 10000000000);
    lemma_ser_nat_len(n, 10);
    lemma_digits_len_prefix(ser_nat(n), rest);
    let s = ser_nat(n) + rest;
    let k = digits_len(s);
    assert(1 <= k <= 10);
    assert(s.take(k) =~= ser_nat(n));
    assert(s.skip(k) =~= rest);
    lemma_digits_val_ser(n);
}

/// Parsing a serialized integer (followed by a non-digit) returns it.
pub proof fn lemma_parse_int_ser(i: int, rest: Seq<char>)
    requires
        i32::MIN <= i <= i32::MAX,
        rest.len() == 0 || !is_digit(rest[0]),
    ensures
        parse_int(ser_int(i) + rest) == Some((i, rest)),
{
    reveal(parse_int);
    if i < 0 {
        let s = ser_int(i) + rest;
        assert(s[0] == '-');
        assert(s.skip(1) =~= ser_nat(-i) + rest);
        lemma_parse_uint_ser(-i, rest);
    } else {
        lemma_ser_nat_digits(i);
        let s = ser_int(i) + rest;
        assert(s[0] == ser_nat(i)[0]);
        assert(is_digit(s[0]));
        lemma_parse_uint_ser(i, rest);
    }
}

/// Parsing a serialized string body (the closing quote follows) returns
/// the original characters.
pub proof fn lemma_parse_str_body_ser(x: Seq<char>, rest: Seq<char>)
    ensures
        parse_str_body(ser_str_body(x) + seq!['"'] + rest) == Some((x, rest)),
    decreases x.len(),
{
    let s = ser_str_body(x) + seq!['"'] + rest;
    if x.len() == 0 {
        assert(s =~= seq!['"'] + rest);
        assert(s[0] == '"');
        assert(s.skip(1) =~= rest);
        assert(x =~= Seq::<char>::empty());
    } else {
        let c = x[0];
        lemma_parse_str_body_ser(x.skip(1), rest);
        let tail = ser_str_body(x.skip(1)) + seq!['"'] + rest;
        if c == '"' || c == '\\' {
            assert(s =~= seq!['\\', c] + tail);
            assert(s[0] == '\\');
            assert(s[1] == c);
            assert(s.len() >= 2);
            assert(s.skip(2) =~= tail);
            assert(seq![s[1]] + x.skip(1) =~= x);
        } else {
            assert(s =~= seq![c] + tail);
            assert(s[0] == c);
            assert(s.skip(1) =~= tail);
            assert(seq![s[0]] + x.skip(1) =~= x);
        }
    }
}

/// Parsing a serialized string returns the original characters.
pub proof fn lemma_parse_string_ser(x: Seq<char>, rest: Seq<char>)
    ensures
        parse_string(ser_string(x) + rest) == Some((x, rest)),
{
    let s = ser_string(x) + rest;
    assert(s[0] == '"');
    assert(s.skip(1) =~= ser_str_body(x) + seq!['"'] + rest);
    lemma_parse_str_body_ser(x, rest);
}

/// Parsing a serialized boolean returns it.
pub proof fn lemma_parse_bool_ser(b: bool, rest: Seq<char>)
    ensures
        parse_bool(ser_bool(b) + rest) == Some((b, rest)),
{
    reveal(parse_lit);
    reveal_strlit("true");
    reveal_strlit("false");
    if b {
        lemma_parse_lit_exact("true"@, rest);
    } else {
        let s = "false"@ + rest;
        assert(s[0] == 'f');
        if parse_lit(s, "true"@) is Some {
            assert(s.take(4)[0] == "true"@[0]);
            assert(false);
        }
        lemma_parse_lit_exact("false"@, rest);
    }
}

/// Parsing a serialized task returns it.
pub proof fn lemma_parse_task_ser(t: TaskView, rest: Seq<char>)
    ensures
        parse_task(ser_task(t) + rest) == Some((t, rest)),
{
    let l1 = "{\"text\":"@;
    let l2 = ",\"colour\":"@;
    let l3 = ",\"completed\":"@;
    let l4 = ",\"id\":"@;
    let t5 = seq!['}'] + rest;
    let t4 = ser_string(t.id) + t5;
    let t3p = l4 + t4;
    let t3 = ser_bool(t.completed) + t3p;
    let t2p = l3 + t3;
    let t2 = ser_string(t.colour) + t2p;
    let t1p = l2 + t2;
    let t1 = ser_string(t.text) + t1p;
    let s = ser_task(t) + rest;
    assert(s == l1 + t1) by {
        let a2 = ser_string(t.text);
        let a4 = ser_string(t.colour);
        let a6 = ser_bool(t.completed);
        let a8 = ser_string(t.id);
        lemma_assoc(l1 + a2 + l2 + a4 + l3 + a6 + l4 + a8, seq!['}'], rest);
        lemma_assoc(l1 + a2 + l2 + a4 + l3 + a6 + l4, a8, t5);
        lemma_assoc(l1 + a2 + l2 + a4 + l3 + a6, l4, t4);
        lemma_assoc(l1 + a2 + l2 + a4 + l3, a6, t3p);
        lemma_assoc(l1 + a2 + l2 + a4, l3, t3);
        lemma_assoc(l1 + a2 + l2, a4, t2p);
        lemma_assoc(l1 + a2, l2, t2);
        lemma_assoc(l1, a2, t1p);
    }
    lemma_parse_lit_exact(l1, t1);
    lemma_parse_string_ser(t.text, t1p);
    lemma_parse_lit_exact(l2, t2);
    lemma_parse_string_ser(t.colour, t2p);
    lemma_parse_lit_exact(l3, t3);
    lemma_parse_bool_ser(t.completed, t3p);
    lemma_parse_lit_exact(l4, t4);
    lemma_parse_string_ser(t.id, t5);
    lemma_parse_lit_exact(seq!['}'], rest);
    assert((TaskView { text: t.text, colour: t.colour, completed: t.completed, id: t.id }) =~= t);
}

/// Parsing the serialized continuation of a task list extends the
/// accumulator with the original tasks.
#[verifier::rlimit(100)]
pub proof fn lemma_parse_tasks_rest_ser(ts: Seq<TaskView>, acc: Seq<TaskView>, rest: Seq<char>)
    ensures
        parse_tasks_rest(ser_tasks_tail(ts) + seq![']'] + rest, acc) == Some((acc + ts, rest)),
    decreases ts.len(),
{
    let s = ser_tasks_tail(ts) + seq![']'] + rest;
    if ts.len() == 0 {
        assert(s =~= seq![']'] + rest);
        assert(s[0] == ']');
        assert(s.skip(1) =~= rest);
        assert(acc + ts =~= acc);
    } else {
        let w = ser_task(ts[0]);
        let x = ser_tasks_tail(ts.skip(1));
        let tl = (x + seq![']']) + rest;
        lemma_list_rest_shape(w, x, rest);
        assert(ser_tasks_tail(ts) == seq![','] + w + x);
        assert(s == seq![','] + (w + tl));
        assert(s[0] == ',');
        assert(s.skip(1) == w + tl);
        lemma_parse_task_ser(ts[0], tl);
        lemma_parse_tasks_rest_ser(ts.skip(1), acc.push(ts[0]), rest);
        assert(acc.push(ts[0]) + ts.skip(1) =~= acc + ts);
    }
}

/// Parsing a serialized task list (after its opening bracket) returns the
/// original tasks.
pub proof fn lemma_parse_tasks_ser(ts: Seq<TaskView>, rest: Seq<char>)
    ensures
        parse_tasks(ser_tasks(ts) + seq![']'] + rest) == Some((ts, rest)),
{
    let s = ser_tasks(ts) + seq![']'] + rest;
    if ts.len() == 0 {
        assert(s =~= seq![']'] + rest);
        assert(s[0] == ']');
        assert(s.skip(1) =~= rest);
        assert(ts =~= Seq::<TaskView>::empty());
    } else {
        reveal_strlit("{\"text\":");
        let l1 = "{\"text\":"@;
        let w = ser_task(ts[0]);
        let x = ser_tasks_tail(ts.skip(1));
        let tl = (x + seq![']']) + rest;
        lemma_list_shape(w, x, rest);
        assert(s == w + tl);
        assert(w[0] == l1[0]);
        assert(s[0] == '{');
        lemma_parse_task_ser(ts[0], tl);
        lemma_parse_tasks_rest_ser(ts.skip(1), seq![ts[0]], rest);
        assert(seq![ts[0]] + ts.skip(1) =~= ts);
    }
}

/// Reassociating the serialized geometry fields for parsing.
#[verifier::rlimit(100)]
#[verifier::spinoff_prover]
proof fn lemma_geom_shape(
    i1: Seq<char>,
    i2: Seq<char>,
    i3: Seq<char>,
    i4: Seq<char>,
    i5: Seq<char>,
    rest: Seq<char>,
    u5: Seq<char>,
    s5: Seq<char>,
    s4: Seq<char>,
    s3: Seq<char>,
    s2: Seq<char>,
    s1: Seq<char>,
)
    requires
        u5 == seq!['}'] + rest,
        s5 == (",\"zindex\":"@ + i5) + u5,
        s4 == (",\"y\":"@ + i4) + s5,
        s3 == (",\"x\":"@ + i3) + s4,
        s2 == (",\"height\":"@ + i2) + s3,
        s1 == (",\"width\":"@ + i1) + s2,
    ensures
        (",\"width\":"@ + i1 + ",\"height\":"@ + i2 + ",\"x\":"@ + i3 + ",\"y\":"@ + i4
            + ",\"zindex\":"@ + i5 + seq!['}']) + rest == s1,
{
    assert((",\"width\":"@ + i1 + ",\"height\":"@ + i2 + ",\"x\":"@ + i3 + ",\"y\":"@ + i4
        + ",\"zindex\":"@ + i5 + seq!['}']) + rest =~= s1);
}

/// One geometry field: its label literal and its integer are consumed.
proof fn lemma_parse_field_int(lit: Seq<char>, v: int, tail: Seq<char>, s: Seq<char>)
    requires
        s == (lit + ser_int(v)) + tail,
        i32::MIN <= v <= i32::MAX,
        tail.len() == 0 || !is_digit(tail[0]),
    ensures
        parse_field_int(s, lit) == Some((v, tail)),
{
    lemma_assoc(lit, ser_int(v), tail);
    lemma_parse_lit_exact(lit, ser_int(v) + tail);
    lemma_parse_int_ser(v, tail);
}

/// Parsing a folder's serialized geometry fields returns them.
#[verifier::rlimit(100)]
#[verifier::spinoff_prover]
pub proof fn lemma_parse_geom_ser(f: FolderView, rest: Seq<char>)
    requires
        folder_ints_in_range(f),
    ensures
        parse_geom(ser_geom(f) + rest) == Some(((f.width, f.height, f.x, f.y, f.zindex), rest)),
{
    let l6 = ",\"width\":"@;
    let l7 = ",\"height\":"@;
    let l8 = ",\"x\":"@;
    let l9 = ",\"y\":"@;
    let l10 = ",\"zindex\":"@;
    let i1 = ser_int(f.width);
    let i2 = ser_int(f.height);
    let i3 = ser_int(f.x);
    let i4 = ser_int(f.y);
    let i5 = ser_int(f.zindex);
    let u5 = seq!['}'] + rest;
    let s5 = (l10 + i5) + u5;
    let s4 = (l9 + i4) + s5;
    let s3 = (l8 + i3) + s4;
    let s2 = (l7 + i2) + s3;
    let s1 = (l6 + i1) + s2;
    let s = ser_geom(f) + rest;
    lemma_geom_shape(i1, i2, i3, i4, i5, rest, u5, s5, s4, s3, s2, s1);
    assert(s == s1);
    assert(s2[0] == ',') by {
        reveal_strlit(",\"height\":");
    }
    assert(s3[0] == ',') by {
        reveal_strlit(",\"x\":");
    }
    assert(s4[0] == ',') by {
        reveal_strlit(",\"y\":");
    }
    assert(s5[0] == ',') by {
        reveal_strlit(",\"zindex\":");
    }
    assert(u5[0] == '}');
    lemma_parse_field_int(l6, f.width, s2, s1);
    lemma_parse_field_int(l7, f.height, s3, s2);
    lemma_parse_field_int(l8, f.x, s4, s3);
    lemma_parse_field_int(l9, f.y, s5, s4);
    lemma_parse_field_int(l10, f.zindex, u5, s5);
    lemma_parse_lit_exact(seq!['}'], rest);
}

/// Parsing a serialized folder returns it.
#[verifier::rlimit(100)]
#[verifier::spinoff_prover]
pub proof fn lemma_parse_folder_ser(f: FolderView, rest: Seq<char>)
    requires
        folder_ints_in_range(f),
    ensures
        parse_folder(ser_folder(f) + rest) == Some((f, rest)),
{
    let l1 = "{\"id\":"@;
    let l2 = ",\"name\":"@;
    let l3 = ",\"colour\":"@;
    let l4 = ",\"visible\":"@;
    let l5 = ",\"tasks\":["@;
    let t10 = ser_geom(f) + rest;
    let t9p = l5 + (ser_tasks(f.tasks) + seq![']'] + t10);
    let t9 = ser_bool(f.visible) + t9p;
    let t8p = l4 + t9;
    let t8 = ser_string(f.colour) + t8p;
    let t7p = l3 + t8;
    let t7 = ser_string(f.name) + t7p;
    let t6p = l2 + t7;
    let t6 = ser_string(f.id) + t6p;
    let s = ser_folder(f) + rest;
    assert(s == l1 + t6) by {
        let a2 = ser_string(f.id);
        let a4 = ser_string(f.name);
        let a6 = ser_string(f.colour);
        let a8 = ser_bool(f.visible);
        let a10 = ser_tasks(f.tasks);
        lemma_assoc(l1 + a2 + l2 + a4 + l3 + a6 + l4 + a8 + l5 + a10 + seq![']'], ser_geom(f), rest);
        lemma_assoc(l1 + a2 + l2 + a4 + l3 + a6 + l4 + a8 + l5 + a10, seq![']'], t10);
        lemma_assoc(l1 + a2 + l2 + a4 + l3 + a6 + l4 + a8 + l5, a10, seq![']'] + t10);
        lemma_assoc(l1 + a2 + l2 + a4 + l3 + a6 + l4 + a8, l5, a10 + (seq![']'] + t10));
        lemma_assoc(l1 + a2 + l2 + a4 + l3 + a6 + l4, a8, t9p);
        lemma_assoc(l1 + a2 + l2 + a4 + l3 + a6, l4, t9);
        lemma_assoc(l1 + a2 + l2 + a4 + l3, a6, t8p);
        lemma_assoc(l1 + a2 + l2 + a4, l3, t8);
        lemma_assoc(l1 + a2 + l2, a4, t7p);
        lemma_assoc(l1 + a2, l2, t7);
        lemma_assoc(l1, a2, t6p);
    }
    lemma_parse_lit_exact(l1, t6);
    lemma_parse_string_ser(f.id, t6p);
    lemma_parse_lit_exact(l2, t7);
    lemma_parse_string_ser(f.name, t7p);
    lemma_parse_lit_exact(l3, t8);
    lemma_parse_string_ser(f.colour, t8p);
    lemma_parse_lit_exact(l4, t9);
    lemma_parse_bool_ser(f.visible, t9p);
    lemma_parse_lit_exact(l5, ser_tasks(f.tasks) + seq![']'] + t10);
    lemma_parse_tasks_ser(f.tasks, t10);
    lemma_parse_geom_ser(f, rest);
    assert((FolderView {
        id: f.id,
        name: f.name,
        colour: f.colour,
        visible: f.visible,
        tasks: f.tasks,
        width: f.width,
        height: f.height,
        x: f.x,
        y: f.y,
        zindex: f.zindex,
    }) =~= f);
}

/// Reassociating one comma-separated list item to the front.
proof fn lemma_list_rest_shape(w: Seq<char>, x: Seq<char>, rest: Seq<char>)
    ensures
        ((seq![','] + w + x) + seq![']']) + rest == seq![','] + (w + ((x + seq![']']) + rest)),
        (((seq![','] + w + x) + seq![']']) + rest)[0] == ',',
        (((seq![','] + w + x) + seq![']']) + rest).skip(1) == w + ((x + seq![']']) + rest),
{
    let s = ((seq![','] + w + x) + seq![']']) + rest;
    assert(s =~= seq![','] + (w + ((x + seq![']']) + rest)));
    assert(s.skip(1) =~= w + ((x + seq![']']) + rest));
}

/// Reassociating the first list item to the front.
proof fn lemma_list_shape(w: Seq<char>, x: Seq<char>, rest: Seq<char>)
    ensures
        ((w + x) + seq![']']) + rest == w + ((x + seq![']']) + rest),
{
    assert(((w + x) + seq![']']) + rest =~= w + ((x + seq![']']) + rest));
}

/// Parsing the serialized continuation of the folder list extends the
/// accumulator with the original folders.
#[verifier::rlimit(100)]
#[verifier::spinoff_prover]
pub proof fn lemma_parse_folders_rest_ser(d: Seq<FolderView>, acc: Seq<FolderView>, rest: Seq<
    char,
>)
    requires
        forall|i: int| 0 <= i < d.len() ==> folder_ints_in_range(#[trigger] d[i]),
    ensures
        parse_folders_rest(ser_folders_tail(d) + seq![']'] + rest, acc) == Some((acc + d, rest)),
    decreases d.len(),
{
    let s = ser_folders_tail(d) + seq![']'] + rest;
    if d.len() == 0 {
        assert(s =~= seq![']'] + rest);
        assert(s[0] == ']');
        assert(s.skip(1) =~= rest);
        assert(acc + d =~= acc);
    } else {
        let w = ser_folder(d[0]);
        let x = ser_folders_tail(d.skip(1));
        let tl = (x + seq![']']) + rest;
        lemma_list_rest_shape(w, x, rest);
        assert(ser_folders_tail(d) == seq![','] + w + x);
        assert(s == seq![','] + (w + tl));
        assert(s[0] == ',');
        assert(s.skip(1) == w + tl);
        lemma_parse_folder_ser(d[0], tl);
        assert forall|i: int| 0 <= i < d.skip(1).len() implies folder_ints_in_range(
            #[trigger] d.skip(1)[i],
        ) by {
            assert(d.skip(1)[i] == d[i + 1]);
        }
        lemma_parse_folders_rest_ser(d.skip(1), acc.push(d[0]), rest);
        assert(acc.push(d[0]) + d.skip(1) =~= acc + d);
    }
}

/// Parsing the serialized folder list (after its opening bracket) returns
/// the original folders.
#[verifier::rlimit(100)]
#[verifier::spinoff_prover]
pub proof fn lemma_parse_folders_ser(d: Seq<FolderView>, rest: Seq<char>)
    requires
        doc_wf(d),
    ensures
        parse_folders(ser_folders(d) + seq![']'] + rest) == Some((d, rest)),
{
    let s = ser_folders(d) + seq![']'] + rest;
    if d.len() == 0 {
        assert(s =~= seq![']'] + rest);
        assert(s[0] == ']');
        assert(s.skip(1) =~= rest);
        assert(d =~= Seq::<FolderView>::empty());
    } else {
        reveal_strlit("{\"id\":");
        let l1 = "{\"id\":"@;
        let w = ser_folder(d[0]);
        let x = ser_folders_tail(d.skip(1));
        let tl = (x + seq![']']) + rest;
        lemma_list_shape(w, x, rest);
        assert(s == w + tl);
        assert(w[0] == l1[0]);
        assert(s[0] == '{');
        lemma_parse_folder_ser(d[0], tl);
        assert forall|i: int| 0 <= i < d.skip(1).len() implies folder_ints_in_range(
            #[trigger] d.skip(1)[i],
        ) by {
            assert(d.skip(1)[i] == d[i + 1]);
        }
        lemma_parse_folders_rest_ser(d.skip(1), seq![d[0]], rest);
        assert(seq![d[0]] + d.skip(1) =~= d);
    }
}

/// The round trip: parsing a serialized document returns that document.
/// Loading what was saved, then saving again, rewrites the same text.
pub proof fn theorem_parse_serialize_round_trip(d: Seq<FolderView>)
    requires
        doc_wf(d),
    ensures
        parse_doc(ser_doc(d)) == Some(d),
{
    let s = ser_doc(d);
    assert(s[0] == '[');
    assert(s.skip(1) =~= ser_folders(d) + seq![']'] + Seq::<char>::empty());
    lemma_parse_folders_ser(d, Seq::empty());
}

/// The round trip for every executable document: saving a document and
/// loading the result restores its model, whatever it holds.
pub proof fn lemma_save_load_round_trip(doc: Seq<TaskFolder>)
    ensures
        parse_doc(ser_doc(doc_view(doc))) == Some(doc_view(doc)),
{
    lemma_doc_view_wf(doc);
    theorem_parse_serialize_round_trip(doc_view(doc));
}

} // verus!
