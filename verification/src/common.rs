//! Small shared helpers around note display.

use vstd::prelude::*;
use crate::codec::digits;
use crate::codec::emit_dec;
use crate::codec::chars_to_string;
use crate::models::Post;
use crate::models::Timestamp;

verus! {

/// A creation time in its display shape: `HH:MM DD.MM.YYYY`.
pub open spec fn display_date(t: Timestamp) -> Seq<char> {
    digits(t.hour as int, 10, 2) + seq![':'] + digits(t.minute as int, 10, 2) + seq![' '] + digits(
        t.day as int,
        10,
        2,
    ) + seq!['.'] + digits(t.month as int, 10, 2) + seq!['.'] + digits(t.year as int, 10, 4)
}

/// The display text for a note's creation time.
pub fn post_date_created(post: &Post) -> (r: String)
    ensures
        r@ == display_date(post.created_at),
{
    let t = &post.created_at;
    let mut out: Vec<char> = Vec::new();
    emit_dec(&mut out, t.hour as u64, 2);
    out.push(':');
    emit_dec(&mut out, t.minute as u64, 2);
    out.push(' ');
    emit_dec(&mut out, t.day as u64, 2);
    out.push('.');
    emit_dec(&mut out, t.month as u64, 2);
    out.push('.');
    emit_dec(&mut out, t.year as u64, 4);
    proof {
        assert(out@ =~= display_date(post.created_at));
    }
    chars_to_string(&out)
}

} // verus!
