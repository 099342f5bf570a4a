//! The startup seeding decision of the document store: what to write when
//! the backing file is missing or empty. The file work itself stays with
//! the caller, which hands in the stored length and writes back the seed.

use vstd::prelude::*;

use crate::codec::save_document;
use crate::codec::ser_doc;
use crate::model::doc_view;
use crate::types::FolderView;
use crate::types::TaskFolder;

verus! {

/// Decides the startup seeding: given the length of the stored document
/// file (zero when the file is absent or empty), returns the serialized
/// empty document to seed it with, or nothing when the store already holds
/// content. Idempotent: a seeded store has non-zero length, so a second
/// call returns nothing.
pub fn setup(stored_len: u64) -> (r: Option<String>)
    ensures
        (r is Some) == (stored_len == 0),
        (match r {
            Some(seed) => seed@ == ser_doc(Seq::<FolderView>::empty()) && seed@.len() > 0,
            None => true,
        }),
{
    if stored_len == 0 {
        let empty: Vec<TaskFolder> = Vec::new();
        let seed = save_document(&empty);
        proof {
            assert(doc_view(empty@) =~= Seq::<FolderView>::empty());
            assert(seed@.len() >= 1);
        }
        Some(seed)
    } else {
        None
    }
}

} // verus!
