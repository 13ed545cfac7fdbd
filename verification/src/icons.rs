//! The icon glyphs the interface uses, named, with their font codepoints.

use vstd::prelude::*;

verus! {

/// The icons of the interface's buttons.
pub enum Icons {
    DarkMode,
    LightMode,
    DeleteForever,
    PostAdd,
}

/// The icon font codepoint of each icon.
pub fn get_codepoint(icon: &Icons) -> (r: char)
    ensures
        r == (match icon {
            Icons::DarkMode => '\u{e51c}',
            Icons::LightMode => '\u{e518}',
            Icons::DeleteForever => '\u{e92b}',
            Icons::PostAdd => '\u{ea20}',
        }),
{
    match icon {
        Icons::DarkMode => '\u{e51c}',
        Icons::LightMode => '\u{e518}',
        Icons::DeleteForever => '\u{e92b}',
        Icons::PostAdd => '\u{ea20}',
    }
}

} // verus!
