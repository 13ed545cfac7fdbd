//! Character-level building blocks of the persisted text form: fixed-width
//! digit runs, string escaping, and literal fragments, each with an exact
//! parser and a proof that parsing inverts emitting.

use vstd::prelude::*;
use vstd::arithmetic::power::pow;
use vstd::arithmetic::power::lemma_pow_increases;
use vstd::arithmetic::power::lemma_pow_positive;
use vstd::arithmetic::div_mod::lemma_fundamental_div_mod;
use vstd::string::StrSliceExecFns;

verus! {

/// Relies on std's `String::push`: appends one character at the end.
pub assume_specification[ String::push ](s: &mut String, ch: char)
    ensures
        final(s)@ == old(s)@.push(ch),
;

/// The characters of `s` as a vector.
pub fn str_to_chars(s: &str) -> (r: Vec<char>)
    ensures
        r@ == s@,
{
    let n = s.unicode_len();
    let mut r: Vec<char> = Vec::new();
    let mut i: usize = 0;
    while i < n
        invariant
            n == s@.len(),
            i <= n,
            r@.len() == i as int,
            forall|k: int| 0 <= k < i as int ==> r@[k] == s@[k],
        decreases n - i,
    {
        r.push(s.get_char(i));
        i = i + 1;
    }
    proof {
        assert(r@ =~= s@);
    }
    r
}

/// The characters of `v` as a string.
pub fn chars_to_string(v: &Vec<char>) -> (r: String)
    ensures
        r@ == v@,
{
    let mut r = String::new();
    let mut i: usize = 0;
    while i < v.len()
        invariant
            i <= v@.len(),
            r@ == v@.subrange(0, i as int),
        decreases v@.len() - i,
    {
        r.push(v[i]);
        proof {
            assert(r@ =~= v@.subrange(0, i as int + 1));
        }
        i = i + 1;
    }
    proof {
        assert(r@ =~= v@);
    }
    r
}

/// The sequence `t` stands in `s` beginning at `pos`.
pub open spec fn starts_with_at(s: Seq<char>, pos: int, t: Seq<char>) -> bool {
    &&& 0 <= pos
    &&& pos + t.len() <= s.len()
    &&& s.subrange(pos, pos + t.len()) == t
}

/// Splitting a fragment splits the match.
pub proof fn lemma_starts_with_concat(s: Seq<char>, pos: int, a: Seq<char>, b: Seq<char>)
    requires
        starts_with_at(s, pos, a + b),
    ensures
        starts_with_at(s, pos, a),
        starts_with_at(s, pos + a.len(), b),
{
    assert(s.subrange(pos, pos + a.len()) =~= (a + b).subrange(0, a.len() as int));
    assert((a + b).subrange(0, a.len() as int) =~= a);
    assert(s.subrange(pos + a.len(), pos + a.len() + b.len()) =~= (a + b).subrange(
        a.len() as int,
        (a + b).len() as int,
    ));
    assert((a + b).subrange(a.len() as int, (a + b).len() as int) =~= b);
}

/// A matched fragment pins the characters under it.
pub proof fn lemma_starts_with_index(s: Seq<char>, pos: int, t: Seq<char>, k: int)
    requires
        starts_with_at(s, pos, t),
        0 <= k < t.len(),
    ensures
        s[pos + k] == t[k],
{
    assert(s.subrange(pos, pos + t.len())[k] == t[k]);
}

/// The character for the digit value `d`, lower case.
pub open spec fn digit_char(d: int) -> char {
    if d < 10 {
        (48 + d) as char
    } else {
        (87 + d) as char
    }
}

/// The digit value of `c`, or -1 where `c` is no digit.
pub open spec fn digit_val(c: char) -> int {
    if '0' <= c && c <= '9' {
        c as int - 48
    } else if 'a' <= c && c <= 'f' {
        c as int - 87
    } else {
        -1
    }
}

/// Digit characters read back as their values.
pub proof fn lemma_digit_round(d: int)
    requires
        0 <= d < 16,
    ensures
        digit_val(digit_char(d)) == d,
{
    if d < 10 {
        assert(((48 + d) as char) as int == 48 + d);
    } else {
        assert(((87 + d) as char) as int == 87 + d);
    }
}

/// `v` written as exactly `n` digits in the given base, most significant
/// first (the value is taken modulo `base^n`).
pub open spec fn digits(v: int, base: int, n: nat) -> Seq<char>
    decreases n,
{
    if n == 0 {
        Seq::empty()
    } else {
        seq![digit_char((v / pow(base, (n - 1) as nat)) % base)] + digits(
            v % pow(base, (n - 1) as nat),
            base,
            (n - 1) as nat,
        )
    }
}

/// Reads exactly `n` digits in the given base from `s` at `pos`, folding
/// them onto `acc`; the position after the run comes with the value.
pub open spec fn parse_digits(s: Seq<char>, pos: int, base: int, n: nat, acc: int) -> Option<
    (int, int),
>
    decreases n,
{
    if n == 0 {
        Some((acc, pos))
    } else if 0 <= pos < s.len() && 0 <= digit_val(s[pos]) < base {
        parse_digits(s, pos + 1, base, (n - 1) as nat, acc * base + digit_val(s[pos]))
    } else {
        None
    }
}

/// A digit run of length `n` has length `n`.
pub proof fn lemma_digits_len(v: int, base: int, n: nat)
    ensures
        digits(v, base, n).len() == n,
    decreases n,
{
    if n > 0 {
        lemma_digits_len(v % pow(base, (n - 1) as nat), base, (n - 1) as nat);
    }
}

/// Parsing a digit run inverts emitting it.
pub proof fn lemma_digits_round_trip(s: Seq<char>, pos: int, v: int, base: int, n: nat, acc: int)
    requires
        2 <= base <= 16,
        0 <= v < pow(base, n),
        0 <= acc,
        starts_with_at(s, pos, digits(v, base, n)),
    ensures
        parse_digits(s, pos, base, n, acc) == Some::<(int, int)>((acc * pow(base, n) + v, pos + n)),
    decreases n,
{
    reveal(pow);
    lemma_digits_len(v, base, n);
    if n == 0 {
        assert(pow(base, 0) == 1);
        assert(acc * 1 == acc);
    } else {
        let p = pow(base, (n - 1) as nat);
        lemma_pow_positive(base, (n - 1) as nat);
        assert(pow(base, n) == base * p);
        let msd = (v / p) % base;
        let rest = v % p;
        lemma_starts_with_index(s, pos, digits(v, base, n), 0);
        assert(digits(v, base, n)[0] == digit_char(msd));
        assert(s[pos] == digit_char(msd));
        assert(0 <= msd < base) by {
            assert(0 <= v / p) by (nonlinear_arith)
                requires 0 <= v, p > 0;
            assert(0 <= msd < base) by (nonlinear_arith)
                requires base > 0, 0 <= v / p, msd == (v / p) % base;
        }
        lemma_digit_round(msd);
        assert(digit_val(s[pos]) == msd);
        let acc2 = acc * base + msd;
        assert(0 <= acc2) by (nonlinear_arith)
            requires 0 <= acc, base >= 2, 0 <= msd, acc2 == acc * base + msd;
        assert(0 <= rest < p) by {
            lemma_fundamental_div_mod(v, p);
            assert(0 <= rest < p) by (nonlinear_arith)
                requires p > 0, rest == v % p, 0 <= v;
        }
        assert(starts_with_at(s, pos + 1, digits(rest, base, (n - 1) as nat))) by {
            let whole = digits(v, base, n);
            let tail = digits(rest, base, (n - 1) as nat);
            lemma_digits_len(rest, base, (n - 1) as nat);
            assert(whole =~= seq![digit_char(msd)] + tail);
            lemma_starts_with_concat(s, pos, seq![digit_char(msd)], tail);
        }
        lemma_digits_round_trip(s, pos + 1, rest, base, (n - 1) as nat, acc2);
        assert(parse_digits(s, pos, base, n, acc) == parse_digits(
            s,
            pos + 1,
            base,
            (n - 1) as nat,
            acc2,
        ));
        assert(acc2 * p + rest == acc * (base * p) + v) by {
            lemma_fundamental_div_mod(v, p);
            assert(v == p * (v / p) + rest);
            assert(v / p < base) by (nonlinear_arith)
                requires p > 0, v < base * p, 0 <= v;
            assert(msd == v / p) by (nonlinear_arith)
                requires msd == (v / p) % base, 0 <= v / p, v / p < base;
            assert((acc * base + msd) * p == acc * (base * p) + msd * p) by (nonlinear_arith);
            assert(msd * p == p * (v / p)) by (nonlinear_arith)
                requires msd == v / p;
        }
    }
}

/// Computes `16^e`.
pub fn pow16_exec(e: usize) -> (r: u128)
    requires
        e <= 31,
    ensures
        r as int == pow(16, e as nat),
    decreases e,
{
    if e == 0 {
        proof {
            reveal(pow);
        }
        1
    } else {
        let sub = pow16_exec(e - 1);
        proof {
            reveal(pow);
            lemma_pow_increases(16, e as nat, 31);
            assert(pow(16, 31) < 0x100000000000000000000000000000000) by {
                reveal_with_fuel(pow, 33);
            }
            assert(pow(16, e as nat) == 16 * pow(16, (e - 1) as nat));
        }
        16 * sub
    }
}

/// Computes `10^e`.
pub fn pow10_exec(e: usize) -> (r: u64)
    requires
        e <= 9,
    ensures
        r as int == pow(10, e as nat),
    decreases e,
{
    if e == 0 {
        proof {
            reveal(pow);
        }
        1
    } else {
        let sub = pow10_exec(e - 1);
        proof {
            reveal(pow);
            lemma_pow_increases(10, e as nat, 9);
            assert(pow(10, 9) < 0x10000000000000000) by {
                reveal_with_fuel(pow, 11);
            }
            assert(pow(10, e as nat) == 10 * pow(10, (e - 1) as nat));
        }
        10 * sub
    }
}

/// The character for the digit value `d`, executably.
pub fn digit_char_exec(d: u8) -> (c: char)
    requires
        d < 16,
    ensures
        c == digit_char(d as int),
{
    if d < 10 {
        (48 + d) as char
    } else {
        (87 + d) as char
    }
}

/// The digit value of `c`, executably; 255 stands for "no digit".
pub fn digit_val_exec(c: char) -> (r: u8)
    ensures
        digit_val(c) >= 0 ==> r as int == digit_val(c),
        digit_val(c) < 0 ==> r == 255,
{
    if c >= '0' && c <= '9' {
        (c as u32 as u8) - 48
    } else if c >= 'a' && c <= 'f' {
        (c as u32 as u8) - 87
    } else {
        255
    }
}

/// Appends `v` as `n` hexadecimal digits, most significant first.
pub fn emit_hex(out: &mut Vec<char>, v: u128, n: usize)
    requires
        n <= 32,
    ensures
        final(out)@ == old(out)@ + digits(v as int, 16, n as nat),
    decreases n,
{
    if n == 0 {
        proof {
            assert(out@ =~= old(out)@ + digits(v as int, 16, 0));
        }
    } else {
        let ghost pre = out@;
        let p = pow16_exec(n - 1);
        proof {
            lemma_pow_positive(16, (n - 1) as nat);
        }
        let d = ((v / p) % 16) as u8;
        out.push(digit_char_exec(d));
        emit_hex(out, v % p, n - 1);
        proof {
            assert(out@ =~= pre + digits(v as int, 16, n as nat));
        }
    }
}

/// Appends `v` as `n` decimal digits, most significant first.
pub fn emit_dec(out: &mut Vec<char>, v: u64, n: usize)
    requires
        n <= 9,
    ensures
        final(out)@ == old(out)@ + digits(v as int, 10, n as nat),
    decreases n,
{
    if n == 0 {
        proof {
            assert(out@ =~= old(out)@ + digits(v as int, 10, 0));
        }
    } else {
        let ghost pre = out@;
        let p = pow10_exec(n - 1);
        proof {
            lemma_pow_positive(10, (n - 1) as nat);
        }
        let d = ((v / p) % 10) as u8;
        out.push(digit_char_exec(d));
        emit_dec(out, v % p, n - 1);
        proof {
            assert(out@ =~= pre + digits(v as int, 10, n as nat));
        }
    }
}

/// Reads 32 hexadecimal digits at `pos` as a 128-bit value.
pub fn parse_hex32(v: &Vec<char>, pos: usize) -> (r: Option<(u128, usize)>)
    ensures
        match r {
            Some((x, q)) => parse_digits(v@, pos as int, 16, 32, 0) == Some::<(int, int)>(
                (x as int, q as int),
            ) && q == pos + 32,
            None => parse_digits(v@, pos as int, 16, 32, 0) is None,
        },
{
    let mut acc: u128 = 0;
    let mut i: usize = 0;
    proof {
        reveal(pow);
        assert(pow(16, 0) == 1);
    }
    while i < 32
        invariant
            i <= 32,
            pos + i <= usize::MAX,
            (acc as int) < pow(16, i as nat),
            parse_digits(v@, pos as int, 16, 32, 0) == parse_digits(
                v@,
                pos as int + i as int,
                16,
                (32 - i) as nat,
                acc as int,
            ),
        decreases 32 - i,
    {
        if pos + i >= v.len() {
            return None;
        }
        let c = v[pos + i];
        let d = digit_val_exec(c);
        if d >= 16 {
            return None;
        }
        proof {
            reveal(pow);
            assert(0 <= digit_val(v@[pos as int + i as int]) < 16);
            assert(pow(16, (i + 1) as nat) == 16 * pow(16, i as nat));
            assert((acc as int) * 16 + 15 < 16 * pow(16, i as nat)) by (nonlinear_arith)
                requires (acc as int) < pow(16, i as nat);
            lemma_pow_increases(16, (i + 1) as nat, 32);
            assert(pow(16, 32) == 0x100000000000000000000000000000000) by {
                reveal_with_fuel(pow, 34);
            }
        }
        acc = acc * 16 + (d as u128);
        i = i + 1;
    }
    proof {
        assert(parse_digits(v@, pos as int + 32, 16, 0, acc as int) == Some::<(int, int)>(
            (acc as int, pos as int + 32),
        ));
    }
    Some((acc, pos + 32))
}

/// Reads `n` decimal digits at `pos` as a value (`n` at most 9).
pub fn parse_dec(v: &Vec<char>, pos: usize, n: usize) -> (r: Option<(u64, usize)>)
    requires
        n <= 9,
    ensures
        match r {
            Some((x, q)) => parse_digits(v@, pos as int, 10, n as nat, 0) == Some::<(int, int)>(
                (x as int, q as int),
            ) && q == pos + n,
            None => parse_digits(v@, pos as int, 10, n as nat, 0) is None,
        },
{
    let mut acc: u64 = 0;
    let mut i: usize = 0;
    proof {
        reveal(pow);
        assert(pow(10, 0) == 1);
    }
    while i < n
        invariant
            n <= 9,
            i <= n,
            pos + i <= usize::MAX,
            (acc as int) < pow(10, i as nat),
            parse_digits(v@, pos as int, 10, n as nat, 0) == parse_digits(
                v@,
                pos as int + i as int,
                10,
                (n - i) as nat,
                acc as int,
            ),
        decreases n - i,
    {
        if pos + i >= v.len() {
            return None;
        }
        let c = v[pos + i];
        let d = digit_val_exec(c);
        if d >= 10 {
            return None;
        }
        proof {
            reveal(pow);
            assert(0 <= digit_val(v@[pos as int + i as int]) < 10);
            assert(pow(10, (i + 1) as nat) == 10 * pow(10, i as nat));
            assert((acc as int) * 10 + 9 < 10 * pow(10, i as nat)) by (nonlinear_arith)
                requires (acc as int) < pow(10, i as nat);
            lemma_pow_increases(10, (i + 1) as nat, 9);
            assert(pow(10, 9) < 0x10000000000000000) by {
                reveal_with_fuel(pow, 11);
            }
        }
        acc = acc * 10 + (d as u64);
        i = i + 1;
    }
    proof {
        assert(parse_digits(v@, pos as int + n as int, 10, 0, acc as int) == Some::<(int, int)>(
            (acc as int, pos as int + n as int),
        ));
    }
    Some((acc, pos + n))
}

/// Reads the exact fragment `l` at `pos`; `None` where it does not stand.
pub open spec fn parse_lit(s: Seq<char>, pos: int, l: Seq<char>) -> Option<int> {
    if starts_with_at(s, pos, l) {
        Some(pos + l.len())
    } else {
        None
    }
}

/// Appends the fragment `l`.
pub fn emit_lit(out: &mut Vec<char>, l: &str)
    ensures
        final(out)@ == old(out)@ + l@,
{
    let n = l.unicode_len();
    let mut i: usize = 0;
    while i < n
        invariant
            n == l@.len(),
            i <= n,
            out@ == old(out)@ + l@.subrange(0, i as int),
        decreases n - i,
    {
        out.push(l.get_char(i));
        proof {
            assert(old(out)@ + l@.subrange(0, i as int + 1) =~= (old(out)@ + l@.subrange(
                0,
                i as int,
            )).push(l@[i as int]));
        }
        i = i + 1;
    }
    proof {
        assert(l@.subrange(0, n as int) =~= l@);
    }
}

/// Decides whether the fragment `l` stands at `pos`, executably.
pub fn expect_lit(v: &Vec<char>, pos: usize, l: &str) -> (r: Option<usize>)
    ensures
        match r {
            Some(q) => parse_lit(v@, pos as int, l@) == Some(q as int) && q == pos + l@.len(),
            None => parse_lit(v@, pos as int, l@) is None,
        },
{
    let n = l.unicode_len();
    if pos > v.len() || n > v.len() - pos {
        proof {
            assert(!starts_with_at(v@, pos as int, l@));
        }
        return None;
    }
    let mut i: usize = 0;
    proof {
        assert(pos + n <= usize::MAX);
    }
    while i < n
        invariant
            n == l@.len(),
            pos + n <= usize::MAX,
            pos + n <= v@.len(),
            i <= n,
            forall|k: int| 0 <= k < i as int ==> v@[pos + k] == l@[k],
        decreases n - i,
    {
        if v[pos + i] != l.get_char(i) {
            proof {
                assert(v@.subrange(pos as int, pos as int + l@.len())[i as int] != l@[i as int]);
                assert(!starts_with_at(v@, pos as int, l@));
            }
            return None;
        }
        i = i + 1;
    }
    proof {
        assert(v@.subrange(pos as int, pos as int + l@.len()) =~= l@);
    }
    Some(pos + n)
}

/// The Unicode scalar value of a character.
pub open spec fn char_code(c: char) -> int {
    (c as u32) as int
}

/// The character with the Unicode scalar value `n` (meaningful for values a
/// `char` can carry).
pub open spec fn char_from_code(n: int) -> char {
    (n as u32) as char
}

/// The escaped form of one character inside a quoted string: quote and
/// backslash get a backslash escape, control characters a `\u00XX` escape,
/// and every other character stands as itself.
pub open spec fn esc_char(c: char) -> Seq<char> {
    if c == '"' {
        seq!['\\', '"']
    } else if c == '\\' {
        seq!['\\', '\\']
    } else if char_code(c) < 32 {
        seq!['\\', 'u', '0', '0', digit_char(char_code(c) / 16), digit_char(char_code(c) % 16)]
    } else {
        seq![c]
    }
}

/// The escaped form of a whole text.
pub open spec fn esc_string(t: Seq<char>) -> Seq<char>
    decreases t.len(),
{
    if t.len() == 0 {
        Seq::empty()
    } else {
        esc_char(t[0]) + esc_string(t.drop_first())
    }
}

/// Escaping distributes over appending one character.
pub proof fn lemma_esc_string_append(u: Seq<char>, c: char)
    ensures
        esc_string(u.push(c)) == esc_string(u) + esc_char(c),
    decreases u.len(),
{
    if u.len() == 0 {
        assert(u.push(c).drop_first() =~= Seq::<char>::empty());
        assert(u.push(c)[0] == c);
        assert(esc_string(u.push(c)) == esc_char(c) + esc_string(Seq::<char>::empty()));
        assert(esc_string(u.push(c)) =~= esc_string(u) + esc_char(c));
    } else {
        assert(u.push(c).drop_first() =~= u.drop_first().push(c));
        assert(u.push(c)[0] == u[0]);
        lemma_esc_string_append(u.drop_first(), c);
        assert(esc_string(u.push(c)) == esc_char(u[0]) + esc_string(u.drop_first().push(c)));
        assert(esc_string(u.push(c)) == esc_char(u[0]) + (esc_string(u.drop_first()) + esc_char(
            c,
        )));
        assert(esc_string(u) == esc_char(u[0]) + esc_string(u.drop_first()));
        assert(esc_string(u.push(c)) =~= esc_string(u) + esc_char(c));
    }
}

/// A quoted, escaped text.
pub open spec fn emit_string(t: Seq<char>) -> Seq<char> {
    seq!['"'] + esc_string(t) + seq!['"']
}

/// Reads an escaped text at `pos` up to and including its closing quote,
/// yielding the unescaped text and the position after the quote. Exactly the
/// canonical escapes are accepted; a bare control character is refused.
pub open spec fn parse_string_body(s: Seq<char>, pos: int) -> Option<(Seq<char>, int)>
    decreases s.len() - pos,
{
    if pos < 0 || pos >= s.len() {
        None
    } else if s[pos] == '"' {
        Some((Seq::empty(), pos + 1))
    } else if s[pos] == '\\' {
        if pos + 1 < s.len() {
            let e = s[pos + 1];
            if e == '"' || e == '\\' {
                match parse_string_body(s, pos + 2) {
                    Some((t, q)) => Some((seq![e] + t, q)),
                    None => None,
                }
            } else if e == 'u' {
                if pos + 5 < s.len() && s[pos + 2] == '0' && s[pos + 3] == '0' && 0 <= digit_val(
                    s[pos + 4],
                ) && 0 <= digit_val(s[pos + 5]) && digit_val(s[pos + 4]) * 16 + digit_val(
                    s[pos + 5],
                ) < 32 {
                    let code = digit_val(s[pos + 4]) * 16 + digit_val(s[pos + 5]);
                    match parse_string_body(s, pos + 6) {
                        Some((t, q)) => Some((seq![char_from_code(code)] + t, q)),
                        None => None,
                    }
                } else {
                    None
                }
            } else {
                None
            }
        } else {
            None
        }
    } else if char_code(s[pos]) < 32 {
        None
    } else {
        match parse_string_body(s, pos + 1) {
            Some((t, q)) => Some((seq![s[pos]] + t, q)),
            None => None,
        }
    }
}

/// Reads a quoted, escaped text standing at `pos`.
pub open spec fn spec_parse_string(s: Seq<char>, pos: int) -> Option<(Seq<char>, int)> {
    if 0 <= pos < s.len() && s[pos] == '"' {
        parse_string_body(s, pos + 1)
    } else {
        None
    }
}

/// Parsing an escaped text inverts escaping it, whatever follows.
pub proof fn lemma_string_body_round_trip(s: Seq<char>, pos: int, t: Seq<char>)
    requires
        starts_with_at(s, pos, esc_string(t) + seq!['"']),
    ensures
        parse_string_body(s, pos) == Some::<(Seq<char>, int)>(
            (t, pos + esc_string(t).len() + 1),
        ),
    decreases t.len(),
{
    if t.len() == 0 {
        lemma_starts_with_index(s, pos, esc_string(t) + seq!['"'], 0);
        assert(s[pos] == '"');
        let r = parse_string_body(s, pos);
        assert(r matches Some(p) && p.0 =~= t && p.1 == pos + esc_string(t).len() + 1);
    } else {
        let c = t[0];
        let rest = t.drop_first();
        assert(esc_string(t) == esc_char(c) + esc_string(rest));
        assert(esc_string(t) + seq!['"'] =~= esc_char(c) + (esc_string(rest) + seq!['"']));
        lemma_starts_with_concat(s, pos, esc_char(c), esc_string(rest) + seq!['"']);
        let e = esc_char(c);
        let posr = pos + e.len();
        lemma_string_body_round_trip(s, posr, rest);
        if c == '"' {
            lemma_starts_with_index(s, pos, e, 0);
            lemma_starts_with_index(s, pos, e, 1);
            assert(s[pos] == '\\' && s[pos + 1] == '"');
            let r = parse_string_body(s, pos);
            assert(r matches Some(p) && p.0 =~= t && p.1 == pos + esc_string(t).len() + 1);
        } else if c == '\\' {
            lemma_starts_with_index(s, pos, e, 0);
            lemma_starts_with_index(s, pos, e, 1);
            assert(s[pos] == '\\' && s[pos + 1] == '\\');
            let r = parse_string_body(s, pos);
            assert(r matches Some(p) && p.0 =~= t && p.1 == pos + esc_string(t).len() + 1);
        } else if char_code(c) < 32 {
            lemma_starts_with_index(s, pos, e, 0);
            lemma_starts_with_index(s, pos, e, 1);
            lemma_starts_with_index(s, pos, e, 2);
            lemma_starts_with_index(s, pos, e, 3);
            lemma_starts_with_index(s, pos, e, 4);
            lemma_starts_with_index(s, pos, e, 5);
            vstd::utf8::char_is_scalar(c);
            let code = char_code(c);
            assert(0 <= code < 32);
            let hi = code / 16;
            let lo = code % 16;
            assert(s[pos] == '\\' && s[pos + 1] == 'u' && s[pos + 2] == '0' && s[pos + 3] == '0'
                && s[pos + 4] == digit_char(hi) && s[pos + 5] == digit_char(lo));
            assert(0 <= hi < 16 && 0 <= lo < 16) by {
                lemma_fundamental_div_mod(code, 16);
            }
            lemma_digit_round(hi);
            lemma_digit_round(lo);
            assert(digit_val(s[pos + 4]) * 16 + digit_val(s[pos + 5]) == code) by {
                lemma_fundamental_div_mod(code, 16);
            }
            assert(char_from_code(code) == c) by {
                assert((code as u32) == c as u32);
                vstd::utf8::char_u32_cast(c, c as u32);
            }
            let r = parse_string_body(s, pos);
            assert(r matches Some(p) && p.0 =~= t && p.1 == pos + esc_string(t).len() + 1);
        } else {
            lemma_starts_with_index(s, pos, e, 0);
            assert(s[pos] == c);
            let r = parse_string_body(s, pos);
            assert(r matches Some(p) && p.0 =~= t && p.1 == pos + esc_string(t).len() + 1);
        }
    }
}

/// Parsing a quoted text inverts emitting it, whatever follows.
pub proof fn lemma_string_round_trip(s: Seq<char>, pos: int, t: Seq<char>)
    requires
        starts_with_at(s, pos, emit_string(t)),
    ensures
        spec_parse_string(s, pos) == Some::<(Seq<char>, int)>(
            (t, pos + emit_string(t).len()),
        ),
{
    assert(emit_string(t) =~= seq!['"'] + (esc_string(t) + seq!['"']));
    lemma_starts_with_concat(s, pos, seq!['"'], esc_string(t) + seq!['"']);
    lemma_starts_with_index(s, pos, seq!['"'], 0);
    lemma_string_body_round_trip(s, pos + 1, t);
}

/// Appends the quoted, escaped form of `t`.
pub fn emit_quoted(out: &mut Vec<char>, t: &str)
    ensures
        final(out)@ == old(out)@ + emit_string(t@),
{
    let chars = str_to_chars(t);
    out.push('"');
    let mut i: usize = 0;
    while i < chars.len()
        invariant
            chars@ == t@,
            i <= chars@.len(),
            out@ == old(out)@ + seq!['"'] + esc_string(t@.subrange(0, i as int)),
        decreases chars@.len() - i,
    {
        let ghost pre = t@.subrange(0, i as int);
        let c = chars[i];
        if c == '"' {
            out.push('\\');
            out.push('"');
            proof {
                assert(out@ =~= old(out)@ + seq!['"'] + esc_string(pre) + esc_char(c));
            }
        } else if c == '\\' {
            out.push('\\');
            out.push('\\');
            proof {
                assert(out@ =~= old(out)@ + seq!['"'] + esc_string(pre) + esc_char(c));
            }
        } else if (c as u32) < 32 {
            let code = c as u32;
            out.push('\\');
            out.push('u');
            out.push('0');
            out.push('0');
            out.push(digit_char_exec((code / 16) as u8));
            out.push(digit_char_exec((code % 16) as u8));
            proof {
                assert(char_code(c) == code as int);
                assert((code / 16) as u8 as int == char_code(c) / 16);
                assert((code % 16) as u8 as int == char_code(c) % 16);
                assert(out@ =~= old(out)@ + seq!['"'] + esc_string(pre) + esc_char(c));
            }
        } else {
            out.push(c);
            proof {
                assert(char_code(c) == c as u32 as int);
                assert(esc_char(c) =~= seq![c]);
                assert(out@ =~= old(out)@ + seq!['"'] + esc_string(pre) + esc_char(c));
            }
        }
        proof {
            lemma_esc_string_append(pre, t@[i as int]);
            assert(pre.push(t@[i as int]) =~= t@.subrange(0, i as int + 1));
            assert(out@ =~= old(out)@ + seq!['"'] + esc_string(t@.subrange(0, i as int + 1)));
        }
        i = i + 1;
    }
    out.push('"');
    proof {
        assert(t@.subrange(0, t@.len() as int) =~= t@);
        assert(out@ =~= old(out)@ + emit_string(t@));
    }
}

/// Reads a quoted, escaped text at `pos`, executably.
pub fn parse_quoted(v: &Vec<char>, pos: usize) -> (r: Option<(String, usize)>)
    ensures
        match r {
            Some(p) => spec_parse_string(v@, pos as int) == Some::<(Seq<char>, int)>(
                (p.0@, p.1 as int),
            ) && pos < p.1 <= v@.len(),
            None => spec_parse_string(v@, pos as int) is None,
        },
{
    if pos >= v.len() || v[pos] != '"' {
        return None;
    }
    let mut acc = String::new();
    let mut cur: usize = pos + 1;
    loop
        invariant
            pos < cur,
            cur <= v@.len(),
            (pos as int) < v@.len(),
            v@[pos as int] == '"',
            parse_string_body(v@, pos as int + 1) == (match parse_string_body(v@, cur as int) {
                Some((t, q)) => Some::<(Seq<char>, int)>((acc@ + t, q)),
                None => None,
            }),
        decreases v@.len() - cur,
    {
        if cur >= v.len() {
            return None;
        }
        let c = v[cur];
        if c == '"' {
            proof {
                assert(acc@ + Seq::<char>::empty() =~= acc@);
            }
            return Some((acc, cur + 1));
        }
        if c == '\\' {
            if v.len() - cur <= 1 {
                return None;
            }
            let e = v[cur + 1];
            if e == '"' || e == '\\' {
                let ghost pre = acc@;
                acc.push(e);
                proof {
                    assert forall|t: Seq<char>| true implies pre + (seq![e] + t) =~= acc@ + t by {}
                }
                cur = cur + 2;
            } else if e == 'u' {
                if v.len() - cur <= 5 {
                    return None;
                }
                if v[cur + 2] != '0' || v[cur + 3] != '0' {
                    return None;
                }
                let h = digit_val_exec(v[cur + 4]);
                let l = digit_val_exec(v[cur + 5]);
                if h == 255 || l == 255 {
                    return None;
                }
                let code = (h as u32) * 16 + (l as u32);
                if code >= 32 {
                    return None;
                }
                let ghost pre = acc@;
                let decoded = (code as u8) as char;
                acc.push(decoded);
                proof {
                    assert(code as int == digit_val(v@[cur as int + 4]) * 16 + digit_val(
                        v@[cur as int + 5],
                    ));
                    assert(decoded == char_from_code(code as int));
                    assert forall|t: Seq<char>| true implies pre + (seq![decoded] + t) =~= acc@
                        + t by {}
                }
                cur = cur + 6;
            } else {
                return None;
            }
        } else if (c as u32) < 32 {
            return None;
        } else {
            let ghost pre = acc@;
            acc.push(c);
            proof {
                assert forall|t: Seq<char>| true implies pre + (seq![c] + t) =~= acc@ + t by {}
            }
            cur = cur + 1;
        }
    }
}

} // verus!
