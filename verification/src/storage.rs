//! The persisted document form: one JSON text holding every category and
//! note, written and read by a verified codec. Parsing inverts emitting, and
//! a malformed text is refused rather than misread.
//!
//! The on-disk form is deliberately canonical: compact (no inter-token
//! whitespace), identifiers as 32 bare lower-case hexadecimal digits, and
//! timestamps as `YYYY-MM-DDTHH:MM:SSZ` at second precision. `from_json`
//! accepts exactly what `to_json` writes; any other rendering of a document
//! — pretty-printed, hyphenated identifiers, fractional seconds — is
//! treated as corrupt, which the caller soft-handles by starting empty.

use vstd::prelude::*;
use vstd::arithmetic::power::pow;
use crate::codec::digits;
use crate::codec::parse_digits;
use crate::codec::lemma_digits_len;
use crate::codec::lemma_digits_round_trip;
use crate::codec::starts_with_at;
use crate::codec::lemma_starts_with_concat;
use crate::codec::lemma_starts_with_index;
use crate::codec::parse_lit;
use crate::codec::emit_lit;
use crate::codec::expect_lit;
use crate::codec::emit_string;
use crate::codec::spec_parse_string;
use crate::codec::lemma_string_round_trip;
use crate::codec::emit_quoted;
use crate::codec::parse_quoted;
use crate::codec::emit_hex;
use crate::codec::parse_hex32;
use crate::codec::emit_dec;
use crate::codec::parse_dec;
use crate::codec::str_to_chars;
use crate::codec::chars_to_string;
use crate::models::Timestamp;
use crate::models::Post;
use crate::models::PostV;
use crate::models::Category;
use crate::models::CategoryV;
use crate::models::Data;
use crate::models::DataV;
use crate::models::posts_view;
use crate::models::categories_view;

verus! {

/// What can go wrong around loading and saving the document.
#[derive(Clone, Copy, PartialEq, Eq, Structural, Debug)]
pub enum StorageError {
    /// The file could not be created or its directory prepared.
    SaveFileError,
    /// The file could not be opened or read.
    LoadFileError,
    /// The document could not be rendered.
    SaveFileFormatError,
    /// The text on disk is not a well-formed document.
    LoadFileFormatError,
    /// The rendered document could not be written out.
    WriteError,
}

/// A timestamp in its persisted shape: `YYYY-MM-DDTHH:MM:SSZ`.
pub open spec fn emit_ts(t: Timestamp) -> Seq<char> {
    digits(t.year as int, 10, 4) + seq!['-'] + digits(t.month as int, 10, 2) + seq!['-'] + digits(
        t.day as int,
        10,
        2,
    ) + seq!['T'] + digits(t.hour as int, 10, 2) + seq![':'] + digits(t.minute as int, 10, 2)
        + seq![':'] + digits(t.second as int, 10, 2) + seq!['Z']
}

/// Reads a timestamp at `pos`, refusing out-of-range fields.
pub open spec fn parse_ts(s: Seq<char>, pos: int) -> Option<(Timestamp, int)> {
    match parse_digits(s, pos, 10, 4, 0) {
        Some((y, p1)) => if y <= 9999 && p1 < s.len() && s[p1] == '-' {
            match parse_digits(s, p1 + 1, 10, 2, 0) {
                Some((mo, p2)) => if 1 <= mo <= 12 && p2 < s.len() && s[p2] == '-' {
                    match parse_digits(s, p2 + 1, 10, 2, 0) {
                        Some((d, p3)) => if 1 <= d <= 31 && p3 < s.len() && s[p3] == 'T' {
                            match parse_digits(s, p3 + 1, 10, 2, 0) {
                                Some((h, p4)) => if h <= 23 && p4 < s.len() && s[p4] == ':' {
                                    match parse_digits(s, p4 + 1, 10, 2, 0) {
                                        Some((mi, p5)) => if mi <= 59 && p5 < s.len() && s[p5]
                                            == ':' {
                                            match parse_digits(s, p5 + 1, 10, 2, 0) {
                                                Some((sec, p6)) => if sec <= 59 && p6 < s.len()
                                                    && s[p6] == 'Z' {
                                                    Some(
                                                        (
                                                            Timestamp {
                                                                year: y as u16,
                                                                month: mo as u8,
                                                                day: d as u8,
                                                                hour: h as u8,
                                                                minute: mi as u8,
                                                                second: sec as u8,
                                                            },
                                                            p6 + 1,
                                                        ),
                                                    )
                                                } else {
                                                    None
                                                },
                                                None => None,
                                            }
                                        } else {
                                            None
                                        },
                                        None => None,
                                    }
                                } else {
                                    None
                                },
                                None => None,
                            }
                        } else {
                            None
                        },
                        None => None,
                    }
                } else {
                    None
                },
                None => None,
            }
        } else {
            None
        },
        None => None,
    }
}

/// The persisted timestamp shape is twenty characters long.
pub proof fn lemma_emit_ts_len(t: Timestamp)
    ensures
        emit_ts(t).len() == 20,
{
    lemma_digits_len(t.year as int, 10, 4);
    lemma_digits_len(t.month as int, 10, 2);
    lemma_digits_len(t.day as int, 10, 2);
    lemma_digits_len(t.hour as int, 10, 2);
    lemma_digits_len(t.minute as int, 10, 2);
    lemma_digits_len(t.second as int, 10, 2);
}

/// Parsing a timestamp inverts emitting it.
pub proof fn lemma_ts_round_trip(s: Seq<char>, pos: int, t: Timestamp)
    requires
        t.valid(),
        starts_with_at(s, pos, emit_ts(t)),
    ensures
        parse_ts(s, pos) == Some::<(Timestamp, int)>((t, pos + 20)),
{
    reveal(pow);
    assert(pow(10, 2) == 100) by {
        reveal_with_fuel(pow, 3);
    }
    assert(pow(10, 4) == 10000) by {
        reveal_with_fuel(pow, 5);
    }
    lemma_emit_ts_len(t);
    let dy = digits(t.year as int, 10, 4);
    let dmo = digits(t.month as int, 10, 2);
    let dd = digits(t.day as int, 10, 2);
    let dh = digits(t.hour as int, 10, 2);
    let dmi = digits(t.minute as int, 10, 2);
    let dsec = digits(t.second as int, 10, 2);
    lemma_digits_len(t.year as int, 10, 4);
    lemma_digits_len(t.month as int, 10, 2);
    lemma_digits_len(t.day as int, 10, 2);
    lemma_digits_len(t.hour as int, 10, 2);
    lemma_digits_len(t.minute as int, 10, 2);
    lemma_digits_len(t.second as int, 10, 2);
    assert(emit_ts(t) =~= dy + (seq!['-'] + (dmo + (seq!['-'] + (dd + (seq!['T'] + (dh + (seq![':']
        + (dmi + (seq![':'] + (dsec + seq!['Z'])))))))))));
    lemma_starts_with_concat(s, pos, dy, seq!['-'] + (dmo + (seq!['-'] + (dd + (seq!['T'] + (dh + (
    seq![':'] + (dmi + (seq![':'] + (dsec + seq!['Z']))))))))));
    lemma_digits_round_trip(s, pos, t.year as int, 10, 4, 0);
    let p1 = pos + 4;
    lemma_starts_with_concat(s, p1, seq!['-'], dmo + (seq!['-'] + (dd + (seq!['T'] + (dh + (
    seq![':'] + (dmi + (seq![':'] + (dsec + seq!['Z'])))))))));
    lemma_starts_with_index(s, p1, seq!['-'], 0);
    lemma_starts_with_concat(s, p1 + 1, dmo, seq!['-'] + (dd + (seq!['T'] + (dh + (seq![':'] + (dmi
        + (seq![':'] + (dsec + seq!['Z']))))))));
    lemma_digits_round_trip(s, p1 + 1, t.month as int, 10, 2, 0);
    let p2 = p1 + 1 + 2;
    lemma_starts_with_concat(s, p2, seq!['-'], dd + (seq!['T'] + (dh + (seq![':'] + (dmi + (
    seq![':'] + (dsec + seq!['Z'])))))));
    lemma_starts_with_index(s, p2, seq!['-'], 0);
    lemma_starts_with_concat(s, p2 + 1, dd, seq!['T'] + (dh + (seq![':'] + (dmi + (seq![':'] + (
    dsec + seq!['Z']))))));
    lemma_digits_round_trip(s, p2 + 1, t.day as int, 10, 2, 0);
    let p3 = p2 + 1 + 2;
    lemma_starts_with_concat(s, p3, seq!['T'], dh + (seq![':'] + (dmi + (seq![':'] + (dsec
        + seq!['Z'])))));
    lemma_starts_with_index(s, p3, seq!['T'], 0);
    lemma_starts_with_concat(s, p3 + 1, dh, seq![':'] + (dmi + (seq![':'] + (dsec + seq!['Z']))));
    lemma_digits_round_trip(s, p3 + 1, t.hour as int, 10, 2, 0);
    let p4 = p3 + 1 + 2;
    lemma_starts_with_concat(s, p4, seq![':'], dmi + (seq![':'] + (dsec + seq!['Z'])));
    lemma_starts_with_index(s, p4, seq![':'], 0);
    lemma_starts_with_concat(s, p4 + 1, dmi, seq![':'] + (dsec + seq!['Z']));
    lemma_digits_round_trip(s, p4 + 1, t.minute as int, 10, 2, 0);
    let p5 = p4 + 1 + 2;
    lemma_starts_with_concat(s, p5, seq![':'], dsec + seq!['Z']);
    lemma_starts_with_index(s, p5, seq![':'], 0);
    lemma_starts_with_concat(s, p5 + 1, dsec, seq!['Z']);
    lemma_digits_round_trip(s, p5 + 1, t.second as int, 10, 2, 0);
    let p6 = p5 + 1 + 2;
    lemma_starts_with_index(s, p6, seq!['Z'], 0);
}

/// The fragment `{"id":"`.
pub open spec fn lit_obj_open() -> Seq<char> {
    seq!['{', '"', 'i', 'd', '"', ':', '"']
}

/// The fragment `","title":`.
pub open spec fn lit_title() -> Seq<char> {
    seq!['"', ',', '"', 't', 'i', 't', 'l', 'e', '"', ':']
}

/// The fragment `,"content":`.
pub open spec fn lit_content() -> Seq<char> {
    seq![',', '"', 'c', 'o', 'n', 't', 'e', 'n', 't', '"', ':']
}

/// The fragment `,"created_at":"`.
pub open spec fn lit_created() -> Seq<char> {
    seq![',', '"', 'c', 'r', 'e', 'a', 't', 'e', 'd', '_', 'a', 't', '"', ':', '"']
}

/// The fragment `","updated_at":"`.
pub open spec fn lit_updated() -> Seq<char> {
    seq!['"', ',', '"', 'u', 'p', 'd', 'a', 't', 'e', 'd', '_', 'a', 't', '"', ':', '"']
}

/// The fragment `"}`.
pub open spec fn lit_obj_close() -> Seq<char> {
    seq!['"', '}']
}

/// The fragment `":` closing a map key.
pub open spec fn lit_entry_sep() -> Seq<char> {
    seq!['"', ':']
}

/// The fragment `{"categories":{`.
pub open spec fn lit_doc_open() -> Seq<char> {
    seq!['{', '"', 'c', 'a', 't', 'e', 'g', 'o', 'r', 'i', 'e', 's', '"', ':', '{']
}

/// The fragment `},"posts":{`.
pub open spec fn lit_doc_mid() -> Seq<char> {
    seq!['}', ',', '"', 'p', 'o', 's', 't', 's', '"', ':', '{']
}

/// The fragment `}}`.
pub open spec fn lit_doc_close() -> Seq<char> {
    seq!['}', '}']
}

/// A note record in its persisted shape.
pub open spec fn emit_post_obj(p: PostV) -> Seq<char> {
    lit_obj_open() + digits(p.id as int, 16, 32) + lit_title() + emit_string(p.title)
        + lit_content() + emit_string(p.content) + lit_created() + emit_ts(p.created_at)
        + lit_updated() + emit_ts(p.updated_at) + lit_obj_close()
}

/// Reads a note record at `pos`.
pub open spec fn parse_post_obj(s: Seq<char>, pos: int) -> Option<(PostV, int)> {
    match parse_lit(s, pos, lit_obj_open()) {
        Some(p1) => match parse_digits(s, p1, 16, 32, 0) {
            Some((id, p2)) => match parse_lit(s, p2, lit_title()) {
                Some(p3) => match spec_parse_string(s, p3) {
                    Some((ttl, p4)) => match parse_lit(s, p4, lit_content()) {
                        Some(p5) => match spec_parse_string(s, p5) {
                            Some((cnt, p6)) => match parse_lit(s, p6, lit_created()) {
                                Some(p7) => match parse_ts(s, p7) {
                                    Some((ca, p8)) => match parse_lit(s, p8, lit_updated()) {
                                        Some(p9) => match parse_ts(s, p9) {
                                            Some((ua, p10)) => match parse_lit(
                                                s,
                                                p10,
                                                lit_obj_close(),
                                            ) {
                                                Some(p11) => Some(
                                                    (
                                                        PostV {
                                                            id: id as u128,
                                                            title: ttl,
                                                            content: cnt,
                                                            created_at: ca,
                                                            updated_at: ua,
                                                        },
                                                        p11,
                                                    ),
                                                ),
                                                None => None,
                                            },
                                            None => None,
                                        },
                                        None => None,
                                    },
                                    None => None,
                                },
                                None => None,
                            },
                            None => None,
                        },
                        None => None,
                    },
                    None => None,
                },
                None => None,
            },
            None => None,
        },
        None => None,
    }
}

/// A category record in its persisted shape.
pub open spec fn emit_cat_obj(c: CategoryV) -> Seq<char> {
    lit_obj_open() + digits(c.id as int, 16, 32) + lit_title() + emit_string(c.title)
        + lit_created() + emit_ts(c.created_at) + lit_updated() + emit_ts(c.updated_at)
        + lit_obj_close()
}

/// Reads a category record at `pos`.
pub open spec fn parse_cat_obj(s: Seq<char>, pos: int) -> Option<(CategoryV, int)> {
    match parse_lit(s, pos, lit_obj_open()) {
        Some(p1) => match parse_digits(s, p1, 16, 32, 0) {
            Some((id, p2)) => match parse_lit(s, p2, lit_title()) {
                Some(p3) => match spec_parse_string(s, p3) {
                    Some((ttl, p4)) => match parse_lit(s, p4, lit_created()) {
                        Some(p5) => match parse_ts(s, p5) {
                            Some((ca, p6)) => match parse_lit(s, p6, lit_updated()) {
                                Some(p7) => match parse_ts(s, p7) {
                                    Some((ua, p8)) => match parse_lit(s, p8, lit_obj_close()) {
                                        Some(p9) => Some(
                                            (
                                                CategoryV {
                                                    id: id as u128,
                                                    title: ttl,
                                                    created_at: ca,
                                                    updated_at: ua,
                                                },
                                                p9,
                                            ),
                                        ),
                                        None => None,
                                    },
                                    None => None,
                                },
                                None => None,
                            },
                            None => None,
                        },
                        None => None,
                    },
                    None => None,
                },
                None => None,
            },
            None => None,
        },
        None => None,
    }
}

/// The identifier bound of 32 hexadecimal digits.
pub proof fn lemma_u128_fits(v: u128)
    ensures
        0 <= (v as int) && (v as int) < pow(16, 32),
{
    assert(pow(16, 32) == 0x100000000000000000000000000000000) by {
        reveal_with_fuel(pow, 34);
    }
}

/// Parsing a note record inverts emitting it.
pub proof fn lemma_post_obj_round_trip(s: Seq<char>, pos: int, p: PostV)
    requires
        p.created_at.valid(),
        p.updated_at.valid(),
        starts_with_at(s, pos, emit_post_obj(p)),
    ensures
        parse_post_obj(s, pos) == Some::<(PostV, int)>((p, pos + emit_post_obj(p).len())),
{
    lemma_u128_fits(p.id);
    let a2 = digits(p.id as int, 16, 32);
    let a4 = emit_string(p.title);
    let a6 = emit_string(p.content);
    let a8 = emit_ts(p.created_at);
    let a10 = emit_ts(p.updated_at);
    lemma_digits_len(p.id as int, 16, 32);
    lemma_emit_ts_len(p.created_at);
    lemma_emit_ts_len(p.updated_at);
    let r10 = a10 + lit_obj_close();
    let r9 = lit_updated() + r10;
    let r8 = a8 + r9;
    let r7 = lit_created() + r8;
    let r6 = a6 + r7;
    let r5 = lit_content() + r6;
    let r4 = a4 + r5;
    let r3 = lit_title() + r4;
    let r2 = a2 + r3;
    assert(emit_post_obj(p) =~= lit_obj_open() + r2);
    lemma_starts_with_concat(s, pos, lit_obj_open(), r2);
    let p1 = pos + lit_obj_open().len();
    assert(r2 =~= a2 + r3);
    lemma_starts_with_concat(s, p1, a2, r3);
    lemma_digits_round_trip(s, p1, p.id as int, 16, 32, 0);
    let p2 = p1 + 32;
    lemma_starts_with_concat(s, p2, lit_title(), r4);
    let p3 = p2 + lit_title().len();
    lemma_starts_with_concat(s, p3, a4, r5);
    lemma_string_round_trip(s, p3, p.title);
    let p4 = p3 + a4.len();
    lemma_starts_with_concat(s, p4, lit_content(), r6);
    let p5 = p4 + lit_content().len();
    lemma_starts_with_concat(s, p5, a6, r7);
    lemma_string_round_trip(s, p5, p.content);
    let p6 = p5 + a6.len();
    lemma_starts_with_concat(s, p6, lit_created(), r8);
    let p7 = p6 + lit_created().len();
    lemma_starts_with_concat(s, p7, a8, r9);
    lemma_ts_round_trip(s, p7, p.created_at);
    let p8 = p7 + 20;
    lemma_starts_with_concat(s, p8, lit_updated(), r10);
    let p9 = p8 + lit_updated().len();
    lemma_starts_with_concat(s, p9, a10, lit_obj_close());
    lemma_ts_round_trip(s, p9, p.updated_at);
    let p10 = p9 + 20;
    assert((p.id as int) as u128 == p.id);
}

/// Parsing a category record inverts emitting it.
pub proof fn lemma_cat_obj_round_trip(s: Seq<char>, pos: int, c: CategoryV)
    requires
        c.created_at.valid(),
        c.updated_at.valid(),
        starts_with_at(s, pos, emit_cat_obj(c)),
    ensures
        parse_cat_obj(s, pos) == Some::<(CategoryV, int)>((c, pos + emit_cat_obj(c).len())),
{
    lemma_u128_fits(c.id);
    let a2 = digits(c.id as int, 16, 32);
    let a4 = emit_string(c.title);
    let a6 = emit_ts(c.created_at);
    let a8 = emit_ts(c.updated_at);
    lemma_digits_len(c.id as int, 16, 32);
    lemma_emit_ts_len(c.created_at);
    lemma_emit_ts_len(c.updated_at);
    let r8 = a8 + lit_obj_close();
    let r7 = lit_updated() + r8;
    let r6 = a6 + r7;
    let r5 = lit_created() + r6;
    let r4 = a4 + r5;
    let r3 = lit_title() + r4;
    let r2 = a2 + r3;
    assert(emit_cat_obj(c) =~= lit_obj_open() + r2);
    lemma_starts_with_concat(s, pos, lit_obj_open(), r2);
    let p1 = pos + lit_obj_open().len();
    lemma_starts_with_concat(s, p1, a2, r3);
    lemma_digits_round_trip(s, p1, c.id as int, 16, 32, 0);
    let p2 = p1 + 32;
    lemma_starts_with_concat(s, p2, lit_title(), r4);
    let p3 = p2 + lit_title().len();
    lemma_starts_with_concat(s, p3, a4, r5);
    lemma_string_round_trip(s, p3, c.title);
    let p4 = p3 + a4.len();
    lemma_starts_with_concat(s, p4, lit_created(), r6);
    let p5 = p4 + lit_created().len();
    lemma_starts_with_concat(s, p5, a6, r7);
    lemma_ts_round_trip(s, p5, c.created_at);
    let p6 = p5 + 20;
    lemma_starts_with_concat(s, p6, lit_updated(), r8);
    let p7 = p6 + lit_updated().len();
    lemma_starts_with_concat(s, p7, a8, lit_obj_close());
    lemma_ts_round_trip(s, p7, c.updated_at);
    assert((c.id as int) as u128 == c.id);
}

/// Appends the persisted shape of a timestamp.
pub fn emit_ts_exec(out: &mut Vec<char>, t: &Timestamp)
    ensures
        final(out)@ == old(out)@ + emit_ts(*t),
{
    let ghost pre = out@;
    emit_dec(out, t.year as u64, 4);
    out.push('-');
    emit_dec(out, t.month as u64, 2);
    out.push('-');
    emit_dec(out, t.day as u64, 2);
    out.push('T');
    emit_dec(out, t.hour as u64, 2);
    out.push(':');
    emit_dec(out, t.minute as u64, 2);
    out.push(':');
    emit_dec(out, t.second as u64, 2);
    out.push('Z');
    proof {
        assert(out@ =~= pre + emit_ts(*t));
    }
}

/// Reads a timestamp at `pos`, executably.
pub fn parse_ts_exec(v: &Vec<char>, pos: usize) -> (r: Option<(Timestamp, usize)>)
    ensures
        match r {
            Some((t, q)) => parse_ts(v@, pos as int) == Some::<(Timestamp, int)>((t, q as int))
                && pos < q <= v@.len() && t.valid(),
            None => parse_ts(v@, pos as int) is None,
        },
{
    let (y, p1) = match parse_dec(v, pos, 4) {
        Some(x) => x,
        None => {
            return None;
        },
    };
    if !(y <= 9999 && p1 < v.len() && v[p1] == '-') {
        return None;
    }
    let (mo, p2) = match parse_dec(v, p1 + 1, 2) {
        Some(x) => x,
        None => {
            return None;
        },
    };
    if !(1 <= mo && mo <= 12 && p2 < v.len() && v[p2] == '-') {
        return None;
    }
    let (d, p3) = match parse_dec(v, p2 + 1, 2) {
        Some(x) => x,
        None => {
            return None;
        },
    };
    if !(1 <= d && d <= 31 && p3 < v.len() && v[p3] == 'T') {
        return None;
    }
    let (h, p4) = match parse_dec(v, p3 + 1, 2) {
        Some(x) => x,
        None => {
            return None;
        },
    };
    if !(h <= 23 && p4 < v.len() && v[p4] == ':') {
        return None;
    }
    let (mi, p5) = match parse_dec(v, p4 + 1, 2) {
        Some(x) => x,
        None => {
            return None;
        },
    };
    if !(mi <= 59 && p5 < v.len() && v[p5] == ':') {
        return None;
    }
    let (sec, p6) = match parse_dec(v, p5 + 1, 2) {
        Some(x) => x,
        None => {
            return None;
        },
    };
    if !(sec <= 59 && p6 < v.len() && v[p6] == 'Z') {
        return None;
    }
    let t = Timestamp {
        year: y as u16,
        month: mo as u8,
        day: d as u8,
        hour: h as u8,
        minute: mi as u8,
        second: sec as u8,
    };
    Some((t, p6 + 1))
}

/// One note map entry: the identifier as key, the record as value.
pub open spec fn emit_post_entry(p: PostV) -> Seq<char> {
    seq!['"'] + digits(p.id as int, 16, 32) + lit_entry_sep() + emit_post_obj(p)
}

/// One category map entry.
pub open spec fn emit_cat_entry(c: CategoryV) -> Seq<char> {
    seq!['"'] + digits(c.id as int, 16, 32) + lit_entry_sep() + emit_cat_obj(c)
}

/// All note entries, comma separated.
pub open spec fn emit_post_entries(ps: Seq<PostV>) -> Seq<char>
    decreases ps.len(),
{
    if ps.len() == 0 {
        Seq::empty()
    } else {
        emit_post_entry(ps[0]) + emit_post_entries_rest(ps.drop_first())
    }
}

/// The note entries after the first, each preceded by a comma.
pub open spec fn emit_post_entries_rest(ps: Seq<PostV>) -> Seq<char>
    decreases ps.len(),
{
    if ps.len() == 0 {
        Seq::empty()
    } else {
        seq![','] + emit_post_entry(ps[0]) + emit_post_entries_rest(ps.drop_first())
    }
}

/// All category entries, comma separated.
pub open spec fn emit_cat_entries(cs: Seq<CategoryV>) -> Seq<char>
    decreases cs.len(),
{
    if cs.len() == 0 {
        Seq::empty()
    } else {
        emit_cat_entry(cs[0]) + emit_cat_entries_rest(cs.drop_first())
    }
}

/// The category entries after the first, each preceded by a comma.
pub open spec fn emit_cat_entries_rest(cs: Seq<CategoryV>) -> Seq<char>
    decreases cs.len(),
{
    if cs.len() == 0 {
        Seq::empty()
    } else {
        seq![','] + emit_cat_entry(cs[0]) + emit_cat_entries_rest(cs.drop_first())
    }
}

/// Reads one note entry: key, separator, record, with the key checked
/// against the record's identifier.
pub open spec fn parse_post_entry(s: Seq<char>, pos: int) -> Option<(PostV, int)> {
    if 0 <= pos && pos < s.len() && s[pos] == '"' {
        match parse_digits(s, pos + 1, 16, 32, 0) {
            Some((k, p1)) => match parse_lit(s, p1, lit_entry_sep()) {
                Some(p2) => match parse_post_obj(s, p2) {
                    Some((p, q)) => if p.id as int == k && q <= s.len() {
                        Some((p, q))
                    } else {
                        None
                    },
                    None => None,
                },
                None => None,
            },
            None => None,
        }
    } else {
        None
    }
}

/// Reads one category entry.
pub open spec fn parse_cat_entry(s: Seq<char>, pos: int) -> Option<(CategoryV, int)> {
    if 0 <= pos && pos < s.len() && s[pos] == '"' {
        match parse_digits(s, pos + 1, 16, 32, 0) {
            Some((k, p1)) => match parse_lit(s, p1, lit_entry_sep()) {
                Some(p2) => match parse_cat_obj(s, p2) {
                    Some((c, q)) => if c.id as int == k && q <= s.len() {
                        Some((c, q))
                    } else {
                        None
                    },
                    None => None,
                },
                None => None,
            },
            None => None,
        }
    } else {
        None
    }
}

/// Reads the note entries after the first: as long as a comma stands at
/// `pos`, one more entry follows it.
pub open spec fn parse_post_entries_rest(s: Seq<char>, pos: int) -> Option<(Seq<PostV>, int)>
    decreases s.len() - pos,
{
    if 0 <= pos && pos < s.len() && s[pos] == ',' {
        match parse_post_entry(s, pos + 1) {
            Some((p, q)) => if pos + 1 < q && q <= s.len() {
                match parse_post_entries_rest(s, q) {
                    Some((rest, r)) => Some((seq![p] + rest, r)),
                    None => None,
                }
            } else {
                None
            },
            None => None,
        }
    } else {
        Some((Seq::empty(), pos))
    }
}

/// Reads the category entries after the first.
pub open spec fn parse_cat_entries_rest(s: Seq<char>, pos: int) -> Option<(Seq<CategoryV>, int)>
    decreases s.len() - pos,
{
    if 0 <= pos && pos < s.len() && s[pos] == ',' {
        match parse_cat_entry(s, pos + 1) {
            Some((c, q)) => if pos + 1 < q && q <= s.len() {
                match parse_cat_entries_rest(s, q) {
                    Some((rest, r)) => Some((seq![c] + rest, r)),
                    None => None,
                }
            } else {
                None
            },
            None => None,
        }
    } else {
        Some((Seq::empty(), pos))
    }
}

/// Reads a whole note map body, leaving the closing brace unconsumed.
pub open spec fn parse_post_map_body(s: Seq<char>, pos: int) -> Option<(Seq<PostV>, int)> {
    if 0 <= pos && pos < s.len() && s[pos] == '}' {
        Some((Seq::empty(), pos))
    } else {
        match parse_post_entry(s, pos) {
            Some((p, q)) => match parse_post_entries_rest(s, q) {
                Some((rest, r)) => Some((seq![p] + rest, r)),
                None => None,
            },
            None => None,
        }
    }
}

/// Reads a whole category map body, leaving the closing brace unconsumed.
pub open spec fn parse_cat_map_body(s: Seq<char>, pos: int) -> Option<(Seq<CategoryV>, int)> {
    if 0 <= pos && pos < s.len() && s[pos] == '}' {
        Some((Seq::empty(), pos))
    } else {
        match parse_cat_entry(s, pos) {
            Some((c, q)) => match parse_cat_entries_rest(s, q) {
                Some((rest, r)) => Some((seq![c] + rest, r)),
                None => None,
            },
            None => None,
        }
    }
}

/// All timestamps of the notes are in range.
pub open spec fn posts_ts_valid(ps: Seq<PostV>) -> bool {
    forall|i: int|
        0 <= i < ps.len() ==> (#[trigger] ps[i]).created_at.valid() && ps[i].updated_at.valid()
}

/// All timestamps of the categories are in range.
pub open spec fn cats_ts_valid(cs: Seq<CategoryV>) -> bool {
    forall|i: int|
        0 <= i < cs.len() ==> (#[trigger] cs[i]).created_at.valid() && cs[i].updated_at.valid()
}

/// Parsing one note entry inverts emitting it.
pub proof fn lemma_post_entry_round_trip(s: Seq<char>, pos: int, p: PostV)
    requires
        p.created_at.valid(),
        p.updated_at.valid(),
        starts_with_at(s, pos, emit_post_entry(p)),
    ensures
        parse_post_entry(s, pos) == Some::<(PostV, int)>((p, pos + emit_post_entry(p).len())),
        emit_post_entry(p).len() > 35,
{
    lemma_u128_fits(p.id);
    lemma_digits_len(p.id as int, 16, 32);
    let key = digits(p.id as int, 16, 32);
    let r2 = lit_entry_sep() + emit_post_obj(p);
    let r1 = key + r2;
    assert(emit_post_entry(p) =~= seq!['"'] + r1);
    lemma_starts_with_concat(s, pos, seq!['"'], r1);
    lemma_starts_with_index(s, pos, seq!['"'], 0);
    lemma_starts_with_concat(s, pos + 1, key, r2);
    lemma_digits_round_trip(s, pos + 1, p.id as int, 16, 32, 0);
    let p1 = pos + 1 + 32;
    lemma_starts_with_concat(s, p1, lit_entry_sep(), emit_post_obj(p));
    let p2 = p1 + 2;
    lemma_post_obj_round_trip(s, p2, p);
    assert((p.id as int) as u128 == p.id);
}

/// Parsing one category entry inverts emitting it.
pub proof fn lemma_cat_entry_round_trip(s: Seq<char>, pos: int, c: CategoryV)
    requires
        c.created_at.valid(),
        c.updated_at.valid(),
        starts_with_at(s, pos, emit_cat_entry(c)),
    ensures
        parse_cat_entry(s, pos) == Some::<(CategoryV, int)>((c, pos + emit_cat_entry(c).len())),
        emit_cat_entry(c).len() > 35,
{
    lemma_u128_fits(c.id);
    lemma_digits_len(c.id as int, 16, 32);
    let key = digits(c.id as int, 16, 32);
    let r2 = lit_entry_sep() + emit_cat_obj(c);
    let r1 = key + r2;
    assert(emit_cat_entry(c) =~= seq!['"'] + r1);
    lemma_starts_with_concat(s, pos, seq!['"'], r1);
    lemma_starts_with_index(s, pos, seq!['"'], 0);
    lemma_starts_with_concat(s, pos + 1, key, r2);
    lemma_digits_round_trip(s, pos + 1, c.id as int, 16, 32, 0);
    let p1 = pos + 1 + 32;
    lemma_starts_with_concat(s, p1, lit_entry_sep(), emit_cat_obj(c));
    let p2 = p1 + 2;
    lemma_cat_obj_round_trip(s, p2, c);
    assert((c.id as int) as u128 == c.id);
}

/// Parsing the remaining note entries inverts emitting them, with the
/// closing brace as sentinel.
pub proof fn lemma_post_entries_rest_round_trip(s: Seq<char>, pos: int, ps: Seq<PostV>)
    requires
        posts_ts_valid(ps),
        starts_with_at(s, pos, emit_post_entries_rest(ps) + seq!['}']),
    ensures
        parse_post_entries_rest(s, pos) == Some::<(Seq<PostV>, int)>(
            (ps, pos + emit_post_entries_rest(ps).len()),
        ),
    decreases ps.len(),
{
    if ps.len() == 0 {
        lemma_starts_with_index(s, pos, emit_post_entries_rest(ps) + seq!['}'], 0);
        assert(s[pos] == '}');
        let r = parse_post_entries_rest(s, pos);
        assert(r matches Some(x) && x.0 =~= ps && x.1 == pos);
    } else {
        let e = emit_post_entry(ps[0]);
        let rest = emit_post_entries_rest(ps.drop_first());
        assert(emit_post_entries_rest(ps) + seq!['}'] =~= seq![','] + (e + (rest + seq!['}'])));
        lemma_starts_with_concat(s, pos, seq![','], e + (rest + seq!['}']));
        lemma_starts_with_index(s, pos, seq![','], 0);
        lemma_starts_with_concat(s, pos + 1, e, rest + seq!['}']);
        assert(posts_ts_valid(ps.drop_first())) by {
            assert(forall|i: int|
                0 <= i < ps.drop_first().len() ==> ps.drop_first()[i] == ps[i + 1]);
        }
        lemma_post_entry_round_trip(s, pos + 1, ps[0]);
        let q = pos + 1 + e.len();
        lemma_post_entries_rest_round_trip(s, q, ps.drop_first());
        let r = parse_post_entries_rest(s, pos);
        assert(r matches Some(x) && x.0 =~= ps && x.1 == pos + emit_post_entries_rest(ps).len());
    }
}

/// Parsing the remaining category entries inverts emitting them.
pub proof fn lemma_cat_entries_rest_round_trip(s: Seq<char>, pos: int, cs: Seq<CategoryV>)
    requires
        cats_ts_valid(cs),
        starts_with_at(s, pos, emit_cat_entries_rest(cs) + seq!['}']),
    ensures
        parse_cat_entries_rest(s, pos) == Some::<(Seq<CategoryV>, int)>(
            (cs, pos + emit_cat_entries_rest(cs).len()),
        ),
    decreases cs.len(),
{
    if cs.len() == 0 {
        lemma_starts_with_index(s, pos, emit_cat_entries_rest(cs) + seq!['}'], 0);
        assert(s[pos] == '}');
        let r = parse_cat_entries_rest(s, pos);
        assert(r matches Some(x) && x.0 =~= cs && x.1 == pos);
    } else {
        let e = emit_cat_entry(cs[0]);
        let rest = emit_cat_entries_rest(cs.drop_first());
        assert(emit_cat_entries_rest(cs) + seq!['}'] =~= seq![','] + (e + (rest + seq!['}'])));
        lemma_starts_with_concat(s, pos, seq![','], e + (rest + seq!['}']));
        lemma_starts_with_index(s, pos, seq![','], 0);
        lemma_starts_with_concat(s, pos + 1, e, rest + seq!['}']);
        assert(cats_ts_valid(cs.drop_first())) by {
            assert(forall|i: int|
                0 <= i < cs.drop_first().len() ==> cs.drop_first()[i] == cs[i + 1]);
        }
        lemma_cat_entry_round_trip(s, pos + 1, cs[0]);
        let q = pos + 1 + e.len();
        lemma_cat_entries_rest_round_trip(s, q, cs.drop_first());
        let r = parse_cat_entries_rest(s, pos);
        assert(r matches Some(x) && x.0 =~= cs && x.1 == pos + emit_cat_entries_rest(cs).len());
    }
}

/// Parsing a whole note map body inverts emitting it.
#[verifier::rlimit(100)]
pub proof fn lemma_post_map_body_round_trip(s: Seq<char>, pos: int, ps: Seq<PostV>)
    requires
        posts_ts_valid(ps),
        starts_with_at(s, pos, emit_post_entries(ps) + seq!['}']),
    ensures
        parse_post_map_body(s, pos) == Some::<(Seq<PostV>, int)>(
            (ps, pos + emit_post_entries(ps).len()),
        ),
{
    if ps.len() == 0 {
        lemma_starts_with_index(s, pos, emit_post_entries(ps) + seq!['}'], 0);
        assert(s[pos] == '}');
        let r = parse_post_map_body(s, pos);
        assert(r matches Some(x) && x.0 =~= ps && x.1 == pos);
    } else {
        let e = emit_post_entry(ps[0]);
        let rest = emit_post_entries_rest(ps.drop_first());
        assert(emit_post_entries(ps) + seq!['}'] =~= e + (rest + seq!['}']));
        lemma_starts_with_concat(s, pos, e, rest + seq!['}']);
        assert(posts_ts_valid(ps.drop_first())) by {
            assert(forall|i: int|
                0 <= i < ps.drop_first().len() ==> ps.drop_first()[i] == ps[i + 1]);
        }
        lemma_post_entry_round_trip(s, pos, ps[0]);
        lemma_starts_with_index(s, pos, e, 0);
        assert(s[pos] == '"');
        let q = pos + e.len();
        lemma_post_entries_rest_round_trip(s, q, ps.drop_first());
        let r = parse_post_map_body(s, pos);
        assert(r matches Some(x) && x.0 =~= ps && x.1 == pos + emit_post_entries(ps).len());
    }
}

/// Parsing a whole category map body inverts emitting it.
#[verifier::rlimit(100)]
pub proof fn lemma_cat_map_body_round_trip(s: Seq<char>, pos: int, cs: Seq<CategoryV>)
    requires
        cats_ts_valid(cs),
        starts_with_at(s, pos, emit_cat_entries(cs) + seq!['}']),
    ensures
        parse_cat_map_body(s, pos) == Some::<(Seq<CategoryV>, int)>(
            (cs, pos + emit_cat_entries(cs).len()),
        ),
{
    if cs.len() == 0 {
        lemma_starts_with_index(s, pos, emit_cat_entries(cs) + seq!['}'], 0);
        assert(s[pos] == '}');
        let r = parse_cat_map_body(s, pos);
        assert(r matches Some(x) && x.0 =~= cs && x.1 == pos);
    } else {
        let e = emit_cat_entry(cs[0]);
        let rest = emit_cat_entries_rest(cs.drop_first());
        assert(emit_cat_entries(cs) + seq!['}'] =~= e + (rest + seq!['}']));
        lemma_starts_with_concat(s, pos, e, rest + seq!['}']);
        assert(cats_ts_valid(cs.drop_first())) by {
            assert(forall|i: int|
                0 <= i < cs.drop_first().len() ==> cs.drop_first()[i] == cs[i + 1]);
        }
        lemma_cat_entry_round_trip(s, pos, cs[0]);
        lemma_starts_with_index(s, pos, e, 0);
        assert(s[pos] == '"');
        let q = pos + e.len();
        lemma_cat_entries_rest_round_trip(s, q, cs.drop_first());
        let r = parse_cat_map_body(s, pos);
        assert(r matches Some(x) && x.0 =~= cs && x.1 == pos + emit_cat_entries(cs).len());
    }
}

/// The whole document in its persisted shape.
pub open spec fn emit_doc(d: DataV) -> Seq<char> {
    lit_doc_open() + emit_cat_entries(d.categories) + lit_doc_mid() + emit_post_entries(d.posts)
        + lit_doc_close()
}

/// Reads a whole document at `pos`; a document whose identifiers collide is
/// refused.
pub open spec fn parse_doc(s: Seq<char>, pos: int) -> Option<(DataV, int)> {
    match parse_lit(s, pos, lit_doc_open()) {
        Some(p1) => match parse_cat_map_body(s, p1) {
            Some((cats, p2)) => match parse_lit(s, p2, lit_doc_mid()) {
                Some(p3) => match parse_post_map_body(s, p3) {
                    Some((posts, p4)) => match parse_lit(s, p4, lit_doc_close()) {
                        Some(p5) => if (DataV { categories: cats, posts: posts }).wf() {
                            Some((DataV { categories: cats, posts: posts }, p5))
                        } else {
                            None
                        },
                        None => None,
                    },
                    None => None,
                },
                None => None,
            },
            None => None,
        },
        None => None,
    }
}

/// Reads a whole text as one document, demanding that nothing follow it.
pub open spec fn parse_document(s: Seq<char>) -> Option<DataV> {
    match parse_doc(s, 0) {
        Some((d, p)) => if p == s.len() {
            Some(d)
        } else {
            None
        },
        None => None,
    }
}

/// Concatenation of character sequences is associative.
pub proof fn lemma_seq_assoc(a: Seq<char>, b: Seq<char>, c: Seq<char>)
    ensures
        (a + b) + c == a + (b + c),
{
    assert((a + b) + c =~= a + (b + c));
}

/// Where each piece of an emitted document stands.
#[verifier::rlimit(100)]
#[verifier::spinoff_prover]
pub proof fn lemma_doc_layout(s: Seq<char>, pos: int, d: DataV)
    requires
        starts_with_at(s, pos, emit_doc(d)),
    ensures
        starts_with_at(s, pos, lit_doc_open()),
        starts_with_at(s, pos + 15, emit_cat_entries(d.categories) + seq!['}']),
        starts_with_at(s, pos + 15 + emit_cat_entries(d.categories).len(), lit_doc_mid()),
        starts_with_at(
            s,
            pos + 26 + emit_cat_entries(d.categories).len(),
            emit_post_entries(d.posts) + seq!['}'],
        ),
        starts_with_at(
            s,
            pos + 26 + emit_cat_entries(d.categories).len() + emit_post_entries(d.posts).len(),
            lit_doc_close(),
        ),
{
    let op = lit_doc_open();
    let ce = emit_cat_entries(d.categories);
    let mid = lit_doc_mid();
    let pe = emit_post_entries(d.posts);
    let cl = lit_doc_close();
    let mid_tail = seq![',', '"', 'p', 'o', 's', 't', 's', '"', ':', '{'];
    let brace = seq!['}'];
    assert(mid == brace + mid_tail) by {
        assert(mid =~= brace + mid_tail);
    }
    assert(cl == brace + brace) by {
        assert(cl =~= brace + brace);
    }
    // emit_doc(d) is (((op + ce) + mid) + pe) + cl; reassociate to the right.
    lemma_seq_assoc((op + ce) + mid, pe, cl);
    lemma_seq_assoc(op + ce, mid, pe + cl);
    lemma_seq_assoc(op, ce, mid + (pe + cl));
    assert(emit_doc(d) == op + (ce + (mid + (pe + cl))));
    lemma_starts_with_concat(s, pos, op, ce + (mid + (pe + cl)));
    let p1 = pos + 15;
    // The categories body together with its closing-brace sentinel.
    lemma_seq_assoc(brace, mid_tail, pe + cl);
    lemma_seq_assoc(ce, brace, mid_tail + (pe + cl));
    assert(ce + (mid + (pe + cl)) == (ce + brace) + (mid_tail + (pe + cl)));
    lemma_starts_with_concat(s, p1, ce + brace, mid_tail + (pe + cl));
    lemma_starts_with_concat(s, p1, ce, mid + (pe + cl));
    let p2 = p1 + ce.len();
    lemma_starts_with_concat(s, p2, mid, pe + cl);
    let p3 = p2 + 11;
    // The notes body together with its closing-brace sentinel.
    lemma_seq_assoc(pe, brace, brace);
    assert(pe + cl == (pe + brace) + brace);
    lemma_starts_with_concat(s, p3, pe + brace, brace);
    lemma_starts_with_concat(s, p3, pe, cl);
}

/// Parsing a document inverts emitting it.
#[verifier::rlimit(100)]
pub proof fn lemma_doc_round_trip(s: Seq<char>, pos: int, d: DataV)
    requires
        d.wf(),
        starts_with_at(s, pos, emit_doc(d)),
    ensures
        parse_doc(s, pos) == Some::<(DataV, int)>((d, pos + emit_doc(d).len())),
{
    let ce = emit_cat_entries(d.categories);
    let pe = emit_post_entries(d.posts);
    lemma_doc_layout(s, pos, d);
    let p1 = pos + 15;
    let p2 = p1 + ce.len();
    let p3 = p2 + 11;
    let p4 = p3 + pe.len();
    assert(parse_lit(s, pos, lit_doc_open()) == Some(p1));
    lemma_cat_map_body_round_trip(s, p1, d.categories);
    assert(parse_lit(s, p2, lit_doc_mid()) == Some(p3));
    lemma_post_map_body_round_trip(s, p3, d.posts);
    assert(parse_lit(s, p4, lit_doc_close()) == Some(p4 + 2));
    assert(DataV { categories: d.categories, posts: d.posts } == d);
    assert(pos + emit_doc(d).len() == p4 + 2);
}

/// Parsing inverts emitting for every well-formed document: the persisted
/// text reads back as exactly the document it was written from.
pub proof fn lemma_document_round_trip(d: DataV)
    requires
        d.wf(),
    ensures
        parse_document(emit_doc(d)) == Some(d),
{
    let s = emit_doc(d);
    assert(s.subrange(0, s.len() as int) =~= s);
    assert(starts_with_at(s, 0, emit_doc(d)));
    lemma_doc_round_trip(s, 0, d);
}

/// Appends one note record.
#[verifier::rlimit(100)]
fn emit_post_obj_exec(out: &mut Vec<char>, p: &Post)
    ensures
        final(out)@ == old(out)@ + emit_post_obj(p@),
{
    let ghost pre = out@;
    proof {
        reveal_strlit("{\"id\":\"");
        reveal_strlit("\",\"title\":");
        reveal_strlit(",\"content\":");
        reveal_strlit(",\"created_at\":\"");
        reveal_strlit("\",\"updated_at\":\"");
        reveal_strlit("\"}");
        assert("{\"id\":\""@ =~= lit_obj_open());
        assert("\",\"title\":"@ =~= lit_title());
        assert(",\"content\":"@ =~= lit_content());
        assert(",\"created_at\":\""@ =~= lit_created());
        assert("\",\"updated_at\":\""@ =~= lit_updated());
        assert("\"}"@ =~= lit_obj_close());
    }
    emit_lit(out, "{\"id\":\"");
    emit_hex(out, p.id, 32);
    emit_lit(out, "\",\"title\":");
    emit_quoted(out, p.title.as_str());
    emit_lit(out, ",\"content\":");
    emit_quoted(out, p.content.as_str());
    emit_lit(out, ",\"created_at\":\"");
    emit_ts_exec(out, &p.created_at);
    emit_lit(out, "\",\"updated_at\":\"");
    emit_ts_exec(out, &p.updated_at);
    emit_lit(out, "\"}");
    proof {
        assert(out@ =~= pre + emit_post_obj(p@));
    }
}

/// Appends one category record.
#[verifier::rlimit(100)]
fn emit_cat_obj_exec(out: &mut Vec<char>, c: &Category)
    ensures
        final(out)@ == old(out)@ + emit_cat_obj(c@),
{
    let ghost pre = out@;
    proof {
        reveal_strlit("{\"id\":\"");
        reveal_strlit("\",\"title\":");
        reveal_strlit(",\"created_at\":\"");
        reveal_strlit("\",\"updated_at\":\"");
        reveal_strlit("\"}");
        assert("{\"id\":\""@ =~= lit_obj_open());
        assert("\",\"title\":"@ =~= lit_title());
        assert(",\"created_at\":\""@ =~= lit_created());
        assert("\",\"updated_at\":\""@ =~= lit_updated());
        assert("\"}"@ =~= lit_obj_close());
    }
    emit_lit(out, "{\"id\":\"");
    emit_hex(out, c.id, 32);
    emit_lit(out, "\",\"title\":");
    emit_quoted(out, c.title.as_str());
    emit_lit(out, ",\"created_at\":\"");
    emit_ts_exec(out, &c.created_at);
    emit_lit(out, "\",\"updated_at\":\"");
    emit_ts_exec(out, &c.updated_at);
    emit_lit(out, "\"}");
    proof {
        assert(out@ =~= pre + emit_cat_obj(c@));
    }
}

/// Appends one note map entry.
fn emit_post_entry_exec(out: &mut Vec<char>, p: &Post)
    ensures
        final(out)@ == old(out)@ + emit_post_entry(p@),
{
    let ghost pre = out@;
    proof {
        reveal_strlit("\":");
        assert("\":"@ =~= lit_entry_sep());
    }
    out.push('"');
    emit_hex(out, p.id, 32);
    emit_lit(out, "\":");
    emit_post_obj_exec(out, p);
    proof {
        assert(out@ =~= pre + emit_post_entry(p@));
    }
}

/// Appends one category map entry.
fn emit_cat_entry_exec(out: &mut Vec<char>, c: &Category)
    ensures
        final(out)@ == old(out)@ + emit_cat_entry(c@),
{
    let ghost pre = out@;
    proof {
        reveal_strlit("\":");
        assert("\":"@ =~= lit_entry_sep());
    }
    out.push('"');
    emit_hex(out, c.id, 32);
    emit_lit(out, "\":");
    emit_cat_obj_exec(out, c);
    proof {
        assert(out@ =~= pre + emit_cat_entry(c@));
    }
}

/// Appends the note entries from index `i` on, each preceded by a comma.
#[verifier::rlimit(100)]
#[verifier::spinoff_prover]
fn emit_post_entries_rest_exec(out: &mut Vec<char>, posts: &Vec<Post>, i: usize)
    requires
        i <= posts@.len(),
    ensures
        final(out)@ == old(out)@ + emit_post_entries_rest(
            posts_view(posts@).subrange(i as int, posts@.len() as int),
        ),
    decreases posts@.len() - i,
{
    let ghost pre = out@;
    let ghost whole = posts_view(posts@);
    if i < posts.len() {
        out.push(',');
        emit_post_entry_exec(out, &posts[i]);
        emit_post_entries_rest_exec(out, posts, i + 1);
        proof {
            let sub = whole.subrange(i as int, posts@.len() as int);
            assert(sub[0] == posts@[i as int]@);
            assert(sub.drop_first() =~= whole.subrange(i as int + 1, posts@.len() as int));
            assert(out@ =~= pre + emit_post_entries_rest(sub));
        }
    } else {
        proof {
            assert(whole.subrange(i as int, posts@.len() as int) =~= Seq::<PostV>::empty());
            assert(out@ =~= pre + emit_post_entries_rest(
                whole.subrange(i as int, posts@.len() as int),
            ));
        }
    }
}

/// Appends all note entries.
#[verifier::rlimit(100)]
#[verifier::spinoff_prover]
fn emit_post_entries_exec(out: &mut Vec<char>, posts: &Vec<Post>)
    ensures
        final(out)@ == old(out)@ + emit_post_entries(posts_view(posts@)),
{
    let ghost pre = out@;
    let ghost whole = posts_view(posts@);
    if posts.len() > 0 {
        emit_post_entry_exec(out, &posts[0]);
        emit_post_entries_rest_exec(out, posts, 1);
        proof {
            assert(whole.drop_first() =~= whole.subrange(1, posts@.len() as int));
            assert(out@ =~= pre + emit_post_entries(whole));
        }
    } else {
        proof {
            assert(out@ =~= pre + emit_post_entries(whole));
        }
    }
}

/// Appends the category entries from index `i` on, each preceded by a comma.
#[verifier::rlimit(100)]
#[verifier::spinoff_prover]
fn emit_cat_entries_rest_exec(out: &mut Vec<char>, cats: &Vec<Category>, i: usize)
    requires
        i <= cats@.len(),
    ensures
        final(out)@ == old(out)@ + emit_cat_entries_rest(
            categories_view(cats@).subrange(i as int, cats@.len() as int),
        ),
    decreases cats@.len() - i,
{
    let ghost pre = out@;
    let ghost whole = categories_view(cats@);
    if i < cats.len() {
        out.push(',');
        emit_cat_entry_exec(out, &cats[i]);
        emit_cat_entries_rest_exec(out, cats, i + 1);
        proof {
            let sub = whole.subrange(i as int, cats@.len() as int);
            assert(sub[0] == cats@[i as int]@);
            assert(sub.drop_first() =~= whole.subrange(i as int + 1, cats@.len() as int));
            assert(out@ =~= pre + emit_cat_entries_rest(sub));
        }
    } else {
        proof {
            assert(whole.subrange(i as int, cats@.len() as int) =~= Seq::<CategoryV>::empty());
            assert(out@ =~= pre + emit_cat_entries_rest(
                whole.subrange(i as int, cats@.len() as int),
            ));
        }
    }
}

/// Appends all category entries.
#[verifier::rlimit(100)]
#[verifier::spinoff_prover]
fn emit_cat_entries_exec(out: &mut Vec<char>, cats: &Vec<Category>)
    ensures
        final(out)@ == old(out)@ + emit_cat_entries(categories_view(cats@)),
{
    let ghost pre = out@;
    let ghost whole = categories_view(cats@);
    if cats.len() > 0 {
        emit_cat_entry_exec(out, &cats[0]);
        emit_cat_entries_rest_exec(out, cats, 1);
        proof {
            assert(whole.drop_first() =~= whole.subrange(1, cats@.len() as int));
            assert(out@ =~= pre + emit_cat_entries(whole));
        }
    } else {
        proof {
            assert(out@ =~= pre + emit_cat_entries(whole));
        }
    }
}

/// Reads one note record, executably.
#[verifier::rlimit(100)]
fn parse_post_obj_exec(v: &Vec<char>, pos: usize) -> (r: Option<(Post, usize)>)
    ensures
        match r {
            Some((p, q)) => parse_post_obj(v@, pos as int) == Some::<(PostV, int)>((p@, q as int))
                && pos < q <= v@.len(),
            None => parse_post_obj(v@, pos as int) is None,
        },
{
    proof {
        reveal_strlit("{\"id\":\"");
        reveal_strlit("\",\"title\":");
        reveal_strlit(",\"content\":");
        reveal_strlit(",\"created_at\":\"");
        reveal_strlit("\",\"updated_at\":\"");
        reveal_strlit("\"}");
        assert("{\"id\":\""@ =~= lit_obj_open());
        assert("\",\"title\":"@ =~= lit_title());
        assert(",\"content\":"@ =~= lit_content());
        assert(",\"created_at\":\""@ =~= lit_created());
        assert("\",\"updated_at\":\""@ =~= lit_updated());
        assert("\"}"@ =~= lit_obj_close());
    }
    let p1 = match expect_lit(v, pos, "{\"id\":\"") {
        Some(x) => x,
        None => {
            return None;
        },
    };
    let (id, p2) = match parse_hex32(v, p1) {
        Some(x) => x,
        None => {
            return None;
        },
    };
    let p3 = match expect_lit(v, p2, "\",\"title\":") {
        Some(x) => x,
        None => {
            return None;
        },
    };
    let (ttl, p4) = match parse_quoted(v, p3) {
        Some(x) => x,
        None => {
            return None;
        },
    };
    let p5 = match expect_lit(v, p4, ",\"content\":") {
        Some(x) => x,
        None => {
            return None;
        },
    };
    let (cnt, p6) = match parse_quoted(v, p5) {
        Some(x) => x,
        None => {
            return None;
        },
    };
    let p7 = match expect_lit(v, p6, ",\"created_at\":\"") {
        Some(x) => x,
        None => {
            return None;
        },
    };
    let (ca, p8) = match parse_ts_exec(v, p7) {
        Some(x) => x,
        None => {
            return None;
        },
    };
    let p9 = match expect_lit(v, p8, "\",\"updated_at\":\"") {
        Some(x) => x,
        None => {
            return None;
        },
    };
    let (ua, p10) = match parse_ts_exec(v, p9) {
        Some(x) => x,
        None => {
            return None;
        },
    };
    let p11 = match expect_lit(v, p10, "\"}") {
        Some(x) => x,
        None => {
            return None;
        },
    };
    let p = Post { id, title: ttl, content: cnt, created_at: ca, updated_at: ua };
    Some((p, p11))
}

/// Reads one category record, executably.
#[verifier::rlimit(100)]
fn parse_cat_obj_exec(v: &Vec<char>, pos: usize) -> (r: Option<(Category, usize)>)
    ensures
        match r {
            Some((c, q)) => parse_cat_obj(v@, pos as int) == Some::<(CategoryV, int)>(
                (c@, q as int),
            ) && pos < q <= v@.len(),
            None => parse_cat_obj(v@, pos as int) is None,
        },
{
    proof {
        reveal_strlit("{\"id\":\"");
        reveal_strlit("\",\"title\":");
        reveal_strlit(",\"created_at\":\"");
        reveal_strlit("\",\"updated_at\":\"");
        reveal_strlit("\"}");
        assert("{\"id\":\""@ =~= lit_obj_open());
        assert("\",\"title\":"@ =~= lit_title());
        assert(",\"created_at\":\""@ =~= lit_created());
        assert("\",\"updated_at\":\""@ =~= lit_updated());
        assert("\"}"@ =~= lit_obj_close());
    }
    let p1 = match expect_lit(v, pos, "{\"id\":\"") {
        Some(x) => x,
        None => {
            return None;
        },
    };
    let (id, p2) = match parse_hex32(v, p1) {
        Some(x) => x,
        None => {
            return None;
        },
    };
    let p3 = match expect_lit(v, p2, "\",\"title\":") {
        Some(x) => x,
        None => {
            return None;
        },
    };
    let (ttl, p4) = match parse_quoted(v, p3) {
        Some(x) => x,
        None => {
            return None;
        },
    };
    let p5 = match expect_lit(v, p4, ",\"created_at\":\"") {
        Some(x) => x,
        None => {
            return None;
        },
    };
    let (ca, p6) = match parse_ts_exec(v, p5) {
        Some(x) => x,
        None => {
            return None;
        },
    };
    let p7 = match expect_lit(v, p6, "\",\"updated_at\":\"") {
        Some(x) => x,
        None => {
            return None;
        },
    };
    let (ua, p8) = match parse_ts_exec(v, p7) {
        Some(x) => x,
        None => {
            return None;
        },
    };
    let p9 = match expect_lit(v, p8, "\"}") {
        Some(x) => x,
        None => {
            return None;
        },
    };
    let c = Category { id, title: ttl, created_at: ca, updated_at: ua };
    Some((c, p9))
}

/// Reads one note entry, executably.
fn parse_post_entry_exec(v: &Vec<char>, pos: usize) -> (r: Option<(Post, usize)>)
    ensures
        match r {
            Some((p, q)) => parse_post_entry(v@, pos as int) == Some::<(PostV, int)>(
                (p@, q as int),
            ) && pos < q <= v@.len(),
            None => parse_post_entry(v@, pos as int) is None,
        },
{
    proof {
        reveal_strlit("\":");
        assert("\":"@ =~= lit_entry_sep());
    }
    if pos >= v.len() || v[pos] != '"' {
        return None;
    }
    let (k, p1) = match parse_hex32(v, pos + 1) {
        Some(x) => x,
        None => {
            return None;
        },
    };
    let p2 = match expect_lit(v, p1, "\":") {
        Some(x) => x,
        None => {
            return None;
        },
    };
    let (p, q) = match parse_post_obj_exec(v, p2) {
        Some(x) => x,
        None => {
            return None;
        },
    };
    if p.id != k {
        return None;
    }
    Some((p, q))
}

/// Reads one category entry, executably.
fn parse_cat_entry_exec(v: &Vec<char>, pos: usize) -> (r: Option<(Category, usize)>)
    ensures
        match r {
            Some((c, q)) => parse_cat_entry(v@, pos as int) == Some::<(CategoryV, int)>(
                (c@, q as int),
            ) && pos < q <= v@.len(),
            None => parse_cat_entry(v@, pos as int) is None,
        },
{
    proof {
        reveal_strlit("\":");
        assert("\":"@ =~= lit_entry_sep());
    }
    if pos >= v.len() || v[pos] != '"' {
        return None;
    }
    let (k, p1) = match parse_hex32(v, pos + 1) {
        Some(x) => x,
        None => {
            return None;
        },
    };
    let p2 = match expect_lit(v, p1, "\":") {
        Some(x) => x,
        None => {
            return None;
        },
    };
    let (c, q) = match parse_cat_obj_exec(v, p2) {
        Some(x) => x,
        None => {
            return None;
        },
    };
    if c.id != k {
        return None;
    }
    Some((c, q))
}

/// Reads the note entries after the first, executably.
fn parse_post_entries_rest_exec(v: &Vec<char>, pos: usize) -> (r: Option<(Vec<Post>, usize)>)
    requires
        pos <= v@.len(),
    ensures
        match r {
            Some((ps, q)) => parse_post_entries_rest(v@, pos as int) == Some::<(Seq<PostV>, int)>(
                (posts_view(ps@), q as int),
            ) && pos <= q <= v@.len(),
            None => parse_post_entries_rest(v@, pos as int) is None,
        },
    decreases v@.len() - pos,
{
    if pos < v.len() && v[pos] == ',' {
        let (p, q) = match parse_post_entry_exec(v, pos + 1) {
            Some(x) => x,
            None => {
                return None;
            },
        };
        let (rest, r2) = match parse_post_entries_rest_exec(v, q) {
            Some(x) => x,
            None => {
                return None;
            },
        };
        let mut ps = rest;
        ps.insert(0, p);
        proof {
            assert(posts_view(ps@) =~= seq![p@] + posts_view(ps@.drop_first()));
            assert(ps@.drop_first() =~= ps@.subrange(1, ps@.len() as int));
            assert(posts_view(ps@.drop_first()) =~= posts_view(ps@).drop_first());
        }
        Some((ps, r2))
    } else {
        proof {
            assert(posts_view(Seq::<Post>::empty()) =~= Seq::<PostV>::empty());
        }
        Some((Vec::new(), pos))
    }
}

/// Reads the category entries after the first, executably.
fn parse_cat_entries_rest_exec(v: &Vec<char>, pos: usize) -> (r: Option<(Vec<Category>, usize)>)
    requires
        pos <= v@.len(),
    ensures
        match r {
            Some((cs, q)) => parse_cat_entries_rest(v@, pos as int) == Some::<
                (Seq<CategoryV>, int),
            >((categories_view(cs@), q as int)) && pos <= q <= v@.len(),
            None => parse_cat_entries_rest(v@, pos as int) is None,
        },
    decreases v@.len() - pos,
{
    if pos < v.len() && v[pos] == ',' {
        let (c, q) = match parse_cat_entry_exec(v, pos + 1) {
            Some(x) => x,
            None => {
                return None;
            },
        };
        let (rest, r2) = match parse_cat_entries_rest_exec(v, q) {
            Some(x) => x,
            None => {
                return None;
            },
        };
        let mut cs = rest;
        cs.insert(0, c);
        proof {
            assert(categories_view(cs@) =~= seq![c@] + categories_view(cs@.drop_first()));
            assert(cs@.drop_first() =~= cs@.subrange(1, cs@.len() as int));
            assert(categories_view(cs@.drop_first()) =~= categories_view(cs@).drop_first());
        }
        Some((cs, r2))
    } else {
        proof {
            assert(categories_view(Seq::<Category>::empty()) =~= Seq::<CategoryV>::empty());
        }
        Some((Vec::new(), pos))
    }
}

/// Reads a whole note map body, executably.
fn parse_post_map_body_exec(v: &Vec<char>, pos: usize) -> (r: Option<(Vec<Post>, usize)>)
    requires
        pos <= v@.len(),
    ensures
        match r {
            Some((ps, q)) => parse_post_map_body(v@, pos as int) == Some::<(Seq<PostV>, int)>(
                (posts_view(ps@), q as int),
            ) && pos <= q <= v@.len(),
            None => parse_post_map_body(v@, pos as int) is None,
        },
{
    if pos < v.len() && v[pos] == '}' {
        proof {
            assert(posts_view(Seq::<Post>::empty()) =~= Seq::<PostV>::empty());
        }
        return Some((Vec::new(), pos));
    }
    let (p, q) = match parse_post_entry_exec(v, pos) {
        Some(x) => x,
        None => {
            return None;
        },
    };
    let (rest, r2) = match parse_post_entries_rest_exec(v, q) {
        Some(x) => x,
        None => {
            return None;
        },
    };
    let mut ps = rest;
    ps.insert(0, p);
    proof {
        assert(posts_view(ps@) =~= seq![p@] + posts_view(ps@.drop_first()));
        assert(ps@.drop_first() =~= ps@.subrange(1, ps@.len() as int));
        assert(posts_view(ps@.drop_first()) =~= posts_view(ps@).drop_first());
    }
    Some((ps, r2))
}

/// Reads a whole category map body, executably.
fn parse_cat_map_body_exec(v: &Vec<char>, pos: usize) -> (r: Option<(Vec<Category>, usize)>)
    requires
        pos <= v@.len(),
    ensures
        match r {
            Some((cs, q)) => parse_cat_map_body(v@, pos as int) == Some::<(Seq<CategoryV>, int)>(
                (categories_view(cs@), q as int),
            ) && pos <= q <= v@.len(),
            None => parse_cat_map_body(v@, pos as int) is None,
        },
{
    if pos < v.len() && v[pos] == '}' {
        proof {
            assert(categories_view(Seq::<Category>::empty()) =~= Seq::<CategoryV>::empty());
        }
        return Some((Vec::new(), pos));
    }
    let (c, q) = match parse_cat_entry_exec(v, pos) {
        Some(x) => x,
        None => {
            return None;
        },
    };
    let (rest, r2) = match parse_cat_entries_rest_exec(v, q) {
        Some(x) => x,
        None => {
            return None;
        },
    };
    let mut cs = rest;
    cs.insert(0, c);
    proof {
        assert(categories_view(cs@) =~= seq![c@] + categories_view(cs@.drop_first()));
        assert(cs@.drop_first() =~= cs@.subrange(1, cs@.len() as int));
        assert(categories_view(cs@.drop_first()) =~= categories_view(cs@).drop_first());
    }
    Some((cs, r2))
}

/// The persistence gateway: it renders the document to its JSON text and
/// reads it back; the file itself is read and written by the caller.
#[derive(Debug, PartialEq)]
pub struct JsonStorage {
    /// Where the document lives on disk.
    pub path: String,
}

impl JsonStorage {
    /// A gateway pointed at the fixed document path.
    pub fn new() -> (r: JsonStorage)
        ensures
            r.path@ == "../../notes_data.json"@,
    {
        JsonStorage { path: crate::get_storage_file() }
    }

    /// Renders the whole document as one JSON text.
    pub fn to_json(data: &Data) -> (r: String)
        ensures
            r@ == emit_doc(data@),
    {
        let mut out: Vec<char> = Vec::new();
        proof {
            reveal_strlit("{\"categories\":{");
            reveal_strlit("},\"posts\":{");
            reveal_strlit("}}");
            assert("{\"categories\":{"@ =~= lit_doc_open());
            assert("},\"posts\":{"@ =~= lit_doc_mid());
            assert("}}"@ =~= lit_doc_close());
        }
        emit_lit(&mut out, "{\"categories\":{");
        emit_cat_entries_exec(&mut out, &data.categories);
        emit_lit(&mut out, "},\"posts\":{");
        emit_post_entries_exec(&mut out, &data.posts);
        emit_lit(&mut out, "}}");
        proof {
            assert(out@ =~= emit_doc(data@));
        }
        chars_to_string(&out)
    }

    /// Reads one JSON text back as the document. Exactly the canonical form
    /// that `to_json` writes is accepted; any other text, and any document
    /// whose identifiers collide, is refused as a format error — never a
    /// crash.
    pub fn from_json(s: &str) -> (r: Result<Data, StorageError>)
        ensures
            match r {
                Ok(d) => parse_document(s@) == Some(d@) && d@.wf(),
                Err(e) => e == StorageError::LoadFileFormatError && parse_document(s@) is None,
            },
    {
        proof {
            reveal_strlit("{\"categories\":{");
            reveal_strlit("},\"posts\":{");
            reveal_strlit("}}");
            assert("{\"categories\":{"@ =~= lit_doc_open());
            assert("},\"posts\":{"@ =~= lit_doc_mid());
            assert("}}"@ =~= lit_doc_close());
        }
        let v = str_to_chars(s);
        let p1 = match expect_lit(&v, 0, "{\"categories\":{") {
            Some(x) => x,
            None => {
                return Err(StorageError::LoadFileFormatError);
            },
        };
        let (cats, p2) = match parse_cat_map_body_exec(&v, p1) {
            Some(x) => x,
            None => {
                return Err(StorageError::LoadFileFormatError);
            },
        };
        let p3 = match expect_lit(&v, p2, "},\"posts\":{") {
            Some(x) => x,
            None => {
                return Err(StorageError::LoadFileFormatError);
            },
        };
        let (posts, p4) = match parse_post_map_body_exec(&v, p3) {
            Some(x) => x,
            None => {
                return Err(StorageError::LoadFileFormatError);
            },
        };
        let p5 = match expect_lit(&v, p4, "}}") {
            Some(x) => x,
            None => {
                return Err(StorageError::LoadFileFormatError);
            },
        };
        let data = Data { categories: cats, posts };
        if !data.check_wf() {
            return Err(StorageError::LoadFileFormatError);
        }
        if p5 != v.len() {
            proof {
                assert(parse_doc(s@, 0) matches Some(x) && x.1 == p5 as int);
            }
            return Err(StorageError::LoadFileFormatError);
        }
        Ok(data)
    }
}

} // verus!
