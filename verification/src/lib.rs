//! A small note-keeping core: an in-memory note store with an edit session,
//! and a JSON codec for the persisted document.

use vstd::prelude::*;

pub mod app;
pub mod buttons;
pub mod clock;
pub mod common;
pub mod codec;
pub mod icons;
pub mod ident;
pub mod models;
pub mod storage;
pub mod styles;

verus! {

/// Fixed relative path of the persisted document.
pub fn get_storage_file() -> (r: String)
    ensures
        r@ == "../../notes_data.json"@,
{
    let r = String::from_str("../../notes_data.json");
    r
}

} // verus!
