//! Numbers of TOML text: the scan of a number literal and the integer it
//! spells. A float literal is handed on as its text, with the separators
//! taken out, for the floating-point parse.

use vstd::prelude::*;
use crate::apexlang::error::ApexError;
use crate::text::push_char;

verus! {

/// A number literal of TOML text.
#[derive(Debug, Clone, PartialEq, Eq)]
pub enum TomlNumber {
    Int(i64),
    UInt(u64),
    Float(String),
}

/// A number literal by its values.
pub enum TomlNum {
    Int(int),
    UInt(int),
    Float(Seq<char>),
}

/// The values of a number literal.
pub open spec fn toml_v(n: TomlNumber) -> TomlNum {
    match n {
        TomlNumber::Int(i) => TomlNum::Int(i as int),
        TomlNumber::UInt(u) => TomlNum::UInt(u as int),
        TomlNumber::Float(t) => TomlNum::Float(t@),
    }
}

/// Whether a byte is a decimal digit.
pub open spec fn is_digit_byte(b: u8) -> bool {
    48 <= b <= 57
}

/// Where a run of digits with single '_' separators between digits ends,
/// from `i`, and whether it holds a digit (`seen` and `last_sep` tell what
/// came before).
pub open spec fn run_end(t: Seq<u8>, i: int, seen: bool, last_sep: bool) -> (int, bool)
    decreases t.len() - i,
{
    if 0 <= i < t.len() && is_digit_byte(t[i]) {
        run_end(t, i + 1, true, false)
    } else if 0 <= i < t.len() && t[i] == 95 && seen && !last_sep {
        run_end(t, i + 1, seen, true)
    } else {
        (i, seen)
    }
}

/// The position after a '+' or '-' at `i`, if there is one.
pub open spec fn sign_skip(t: Seq<u8>, i: int) -> int {
    if 0 <= i < t.len() && (t[i] == 43 || t[i] == 45) {
        i + 1
    } else {
        i
    }
}

/// The value of decimal digit bytes.
pub open spec fn digits_value(s: Seq<u8>) -> nat
    decreases s.len(),
{
    if s.len() == 0 {
        0
    } else {
        digits_value(s.drop_last()) * 10 + (s.last() - 48) as nat
    }
}

/// Whether a byte is kept when the separators are taken out.
pub open spec fn not_separator(b: u8) -> bool {
    b != 95
}

/// The bytes without the '_' separators.
pub open spec fn cleaned(s: Seq<u8>) -> Seq<u8> {
    s.filter(|b: u8| not_separator(b))
}

/// The integer a sign and digits spell.
pub open spec fn signed_value(c: Seq<u8>) -> int {
    if c.len() > 0 && c[0] == 45 {
        -digits_value(c.skip(1))
    } else if c.len() > 0 && c[0] == 43 {
        digits_value(c.skip(1)) as int
    } else {
        digits_value(c) as int
    }
}

/// ASCII bytes as characters.
pub open spec fn ascii_chars(s: Seq<u8>) -> Seq<char> {
    s.map_values(|b: u8| b as char)
}

/// The number that `t[pos..end]` spells: a float as its text without
/// separators, else an integer, in `i64` when it fits and else in `u64`.
pub open spec fn number_of(t: Seq<u8>, pos: int, end: int, is_float: bool) -> Result<(TomlNum, int), Seq<char>> {
    let c = cleaned(t.subrange(pos, end));
    if is_float {
        Ok((TomlNum::Float(ascii_chars(c)), end))
    } else {
        let v = signed_value(c);
        if i64::MIN <= v <= i64::MAX {
            Ok((TomlNum::Int(v), end))
        } else if 0 <= v <= u64::MAX {
            Ok((TomlNum::UInt(v), end))
        } else {
            Err("serde.from_toml integer literal is out of range"@)
        }
    }
}

/// The number literal that starts at `pos` and the position after it, or
/// the message of its error: an optional sign, digits with single '_'
/// separators, a fraction when a digit follows the '.', and an exponent
/// after 'e' or 'E' with an optional sign and at least one digit.
pub open spec fn toml_number_spec(t: Seq<u8>, pos: int) -> Result<(TomlNum, int), Seq<char>> {
    let p1 = sign_skip(t, pos);
    let (p2, seen) = run_end(t, p1, false, false);
    if !seen {
        Err("serde.from_toml number literal must contain digits"@)
    } else {
        let frac = 0 <= p2 && p2 + 1 < t.len() && t[p2] == 46 && is_digit_byte(t[p2 + 1]);
        let p3 = if frac {
            run_end(t, p2 + 1, false, false).0
        } else {
            p2
        };
        if 0 <= p3 < t.len() && (t[p3] == 101 || t[p3] == 69) {
            let (p4, seen_exp) = run_end(t, sign_skip(t, p3 + 1), false, false);
            if !seen_exp {
                Err("serde.from_toml exponent component requires digits"@)
            } else {
                number_of(t, pos, p4, true)
            }
        } else {
            number_of(t, pos, p3, frac)
        }
    }
}

proof fn lemma_run_end_bounds(t: Seq<u8>, i: int, seen: bool, last_sep: bool)
    requires
        0 <= i <= t.len(),
    ensures
        i <= run_end(t, i, seen, last_sep).0 <= t.len(),
        !seen && run_end(t, i, seen, last_sep).1 ==> i < t.len() && is_digit_byte(t[i]),
        run_end(t, i, seen, last_sep).1 ==> seen || run_end(t, i, seen, last_sep).0 > i,
    decreases t.len() - i,
{
    if 0 <= i < t.len() && is_digit_byte(t[i]) {
        lemma_run_end_bounds(t, i + 1, true, false);
    } else if 0 <= i < t.len() && t[i] == 95 && seen && !last_sep {
        lemma_run_end_bounds(t, i + 1, seen, true);
    }
}

/// Scans a run of digits with single separators from `i`.
fn scan_run(t: &[u8], i: usize) -> (r: (usize, bool))
    requires
        i <= t@.len(),
    ensures
        r.0 as int == run_end(t@, i as int, false, false).0,
        r.1 == run_end(t@, i as int, false, false).1,
{
    let mut p = i;
    let mut seen = false;
    let mut last = false;
    while p < t.len()
        invariant
            i <= p <= t@.len(),
            run_end(t@, i as int, false, false) == run_end(t@, p as int, seen, last),
        ensures
            run_end(t@, i as int, false, false) == (p as int, seen),
        decreases t@.len() - p,
    {
        let b = t[p];
        if 48 <= b && b <= 57 {
            p = p + 1;
            seen = true;
            last = false;
        } else if b == 95 && seen && !last {
            p = p + 1;
            last = true;
        } else {
            break;
        }
    }
    (p, seen)
}

fn skip_sign(t: &[u8], i: usize) -> (j: usize)
    requires
        i <= t@.len(),
    ensures
        j == sign_skip(t@, i as int),
        j <= t@.len(),
{
    if i < t.len() && (t[i] == 43 || t[i] == 45) {
        i + 1
    } else {
        i
    }
}

/// The bytes `t[from..to]` without the separators.
fn cleaned_bytes(t: &[u8], from: usize, to: usize) -> (c: Vec<u8>)
    requires
        from <= to <= t@.len(),
    ensures
        c@ == cleaned(t@.subrange(from as int, to as int)),
{
    let mut c: Vec<u8> = Vec::new();
    let mut j = from;
    while j < to
        invariant
            from <= j <= to <= t@.len(),
            c@ == cleaned(t@.subrange(from as int, j as int)),
        decreases to - j,
    {
        let ghost before = t@.subrange(from as int, j as int);
        proof {
            let after = t@.subrange(from as int, j + 1);
            assert(after.drop_last() =~= before);
            assert(after.last() == t@[j as int]);
            reveal(Seq::filter);
        }
        if t[j] != 95 {
            c.push(t[j]);
        }
        j = j + 1;
    }
    c
}

/// The digits `d[from..]` read as a number: the value, or `None` when it
/// is beyond `u64`.
fn digits_u64(d: &Vec<u8>, from: usize) -> (r: Option<u64>)
    requires
        from <= d@.len(),
        forall|k: int| from <= k < d@.len() ==> is_digit_byte(#[trigger] d@[k]),
    ensures
        match r {
            Some(v) => v == digits_value(d@.skip(from as int)),
            None => digits_value(d@.skip(from as int)) > u64::MAX,
        },
{
    let mut acc: u64 = 0;
    let mut j = from;
    while j < d.len()
        invariant
            from <= j <= d@.len(),
            forall|k: int| from <= k < d@.len() ==> is_digit_byte(#[trigger] d@[k]),
            acc == digits_value(d@.subrange(from as int, j as int)),
        decreases d@.len() - j,
    {
        let ghost prev = d@.subrange(from as int, j as int);
        let ghost next = d@.subrange(from as int, j + 1);
        assert(next.drop_last() =~= prev);
        assert(next.last() == d@[j as int]);
        let digit = (d[j] - 48) as u64;
        if acc > 1844674407370955161 || (acc == 1844674407370955161 && digit > 5) {
            proof {
                assert(digits_value(next) > u64::MAX);
                lemma_digits_value_grows(d@.skip(from as int), j - from + 1);
                assert(d@.skip(from as int).take(j - from + 1) =~= next);
            }
            return None;
        }
        acc = acc * 10 + digit;
        j = j + 1;
    }
    assert(d@.subrange(from as int, d@.len() as int) =~= d@.skip(from as int));
    Some(acc)
}

/// A number's digits are worth at least any of their leading digits.
proof fn lemma_digits_value_grows(s: Seq<u8>, k: int)
    requires
        0 <= k <= s.len(),
        forall|i: int| 0 <= i < s.len() ==> is_digit_byte(#[trigger] s[i]),
    ensures
        digits_value(s) >= digits_value(s.take(k)),
    decreases s.len(),
{
    if k < s.len() {
        assert(s.drop_last().take(k) =~= s.take(k));
        lemma_digits_value_grows(s.drop_last(), k);
    } else {
        assert(s.take(k) =~= s);
    }
}

/// The number `t[pos..end]` spells.
fn number_in(t: &[u8], pos: usize, end: usize, is_float: bool) -> (r: Result<(TomlNumber, usize), ApexError>)
    requires
        pos <= end <= t@.len(),
        is_float || forall|k: int|
            0 <= k < cleaned(t@.subrange(pos as int, end as int)).len() && !(k == 0 && (cleaned(
                t@.subrange(pos as int, end as int),
            )[0] == 43 || cleaned(t@.subrange(pos as int, end as int))[0] == 45)) ==> is_digit_byte(
                #[trigger] cleaned(t@.subrange(pos as int, end as int))[k],
            ),
    ensures
        match number_of(t@, pos as int, end as int, is_float) {
            Ok((n, e)) => r matches Ok((m, f)) && toml_v(m) == n && f == e,
            Err(msg) => r matches Err(x) && x@ == msg,
        },
{
    let c = cleaned_bytes(t, pos, end);
    if is_float {
        let mut s = String::new();
        let mut j: usize = 0;
        while j < c.len()
            invariant
                j <= c@.len(),
                s@ == ascii_chars(c@.take(j as int)),
            decreases c@.len() - j,
        {
            push_char(&mut s, c[j] as char);
            assert(ascii_chars(c@.take(j + 1)) =~= ascii_chars(c@.take(j as int)).push(c@[j as int] as char));
            j = j + 1;
        }
        assert(c@.take(c@.len() as int) =~= c@);
        return Ok((TomlNumber::Float(s), end));
    }
    let negative = c.len() > 0 && c[0] == 45;
    let from: usize = if c.len() > 0 && (c[0] == 45 || c[0] == 43) { 1 } else { 0 };
    assert(from == 0 ==> c@.skip(0) =~= c@);
    match digits_u64(&c, from) {
        Some(v) => {
            if negative {
                if v <= 9223372036854775808 {
                    let i: i64 = if v == 9223372036854775808 { i64::MIN } else { -(v as i64) };
                    Ok((TomlNumber::Int(i), end))
                } else {
                    Err(ApexError::new(String::from_str("serde.from_toml integer literal is out of range")))
                }
            } else if v <= 9223372036854775807 {
                Ok((TomlNumber::Int(v as i64), end))
            } else {
                Ok((TomlNumber::UInt(v), end))
            }
        },
        None => Err(ApexError::new(String::from_str("serde.from_toml integer literal is out of range"))),
    }
}

/// Scans the number literal at `pos`: the number and the position after
/// it, or the message of its error
pub fn parse_toml_number(text: &[u8], pos: usize) -> (r: Result<(TomlNumber, usize), ApexError>)
    ensures
        match toml_number_spec(text@, pos as int) {
            Ok((n, e)) => r matches Ok((m, f)) && toml_v(m) == n && f == e,
            Err(msg) => r matches Err(x) && x@ == msg,
        },
{
    if pos > text.len() {
        return Err(ApexError::new(String::from_str("serde.from_toml number literal must contain digits")));
    }
    let p1 = skip_sign(text, pos);
    proof {
        lemma_run_end_bounds(text@, p1 as int, false, false);
    }
    let (p2, seen) = scan_run(text, p1);
    if !seen {
        return Err(ApexError::new(String::from_str("serde.from_toml number literal must contain digits")));
    }
    let frac = p2 < text.len() && p2 + 1 < text.len() && text[p2] == 46 && 48 <= text[p2 + 1] && text[p2 + 1] <= 57;
    let p3 = if frac {
        proof {
            lemma_run_end_bounds(text@, p2 + 1, false, false);
        }
        scan_run(text, p2 + 1).0
    } else {
        p2
    };
    if p3 < text.len() && (text[p3] == 101 || text[p3] == 69) {
        let q = skip_sign(text, p3 + 1);
        proof {
            lemma_run_end_bounds(text@, q as int, false, false);
        }
        let (p4, seen_exp) = scan_run(text, q);
        if !seen_exp {
            return Err(ApexError::new(String::from_str("serde.from_toml exponent component requires digits")));
        }
        number_in(text, pos, p4, true)
    } else {
        proof {
            if !frac {
                lemma_integer_cleaned(text@, pos as int, p1 as int, p2 as int);
            }
        }
        number_in(text, pos, p3, frac)
    }
}

/// Without the separators, an integer literal is an optional sign and
/// then digits.
proof fn lemma_integer_cleaned(t: Seq<u8>, pos: int, p1: int, p2: int)
    requires
        0 <= pos <= t.len(),
        p1 == sign_skip(t, pos),
        p2 == run_end(t, p1, false, false).0,
    ensures
        forall|k: int|
            0 <= k < cleaned(t.subrange(pos, p2)).len() && !(k == 0 && (cleaned(t.subrange(pos, p2))[0]
                == 43 || cleaned(t.subrange(pos, p2))[0] == 45)) ==> is_digit_byte(
                #[trigger] cleaned(t.subrange(pos, p2))[k],
            ),
{
    lemma_run_end_bounds(t, p1, false, false);
    lemma_run_end_chars(t, p1, false, false);
    let d = t.subrange(p1, p2);
    assert forall|i: int| 0 <= i < d.len() implies is_digit_byte(#[trigger] d[i]) || d[i] == 95 by {
        assert(d[i] == t[p1 + i]);
    }
    lemma_cleaned_digits(d);
    if p1 == pos + 1 {
        let sign = t.subrange(pos, p1);
        assert(t.subrange(pos, p2) =~= sign + d);
        Seq::filter_distributes_over_add(sign, d, |b: u8| not_separator(b));
        assert(cleaned(sign) =~= sign) by {
            reveal(Seq::filter);
            assert(sign.drop_last() =~= Seq::<u8>::empty());
            assert(Seq::<u8>::empty().filter(|b: u8| not_separator(b)) =~= Seq::<u8>::empty());
        }
        let c = cleaned(t.subrange(pos, p2));
        assert(c =~= sign + cleaned(d));
        assert forall|k: int|
            0 <= k < c.len() && !(k == 0 && (c[0] == 43 || c[0] == 45)) implies is_digit_byte(#[trigger] c[k]) by {
            assert(k >= 1);
            assert(c[k] == cleaned(d)[k - 1]);
        }
    } else {
        assert(t.subrange(pos, p2) =~= d);
    }
}

/// The bytes a run of digits and separators covers are digits or '_'.
proof fn lemma_run_end_chars(t: Seq<u8>, i: int, seen: bool, last_sep: bool)
    requires
        0 <= i <= t.len(),
    ensures
        forall|j: int| i <= j < run_end(t, i, seen, last_sep).0 ==> is_digit_byte(#[trigger] t[j]) || t[j] == 95,
    decreases t.len() - i,
{
    if 0 <= i < t.len() && is_digit_byte(t[i]) {
        lemma_run_end_chars(t, i + 1, true, false);
    } else if 0 <= i < t.len() && t[i] == 95 && seen && !last_sep {
        lemma_run_end_chars(t, i + 1, seen, true);
    }
}

/// Digits and separators, once cleaned, are all digits.
proof fn lemma_cleaned_digits(s: Seq<u8>)
    requires
        forall|i: int| 0 <= i < s.len() ==> is_digit_byte(#[trigger] s[i]) || s[i] == 95,
    ensures
        forall|k: int| 0 <= k < cleaned(s).len() ==> is_digit_byte(#[trigger] cleaned(s)[k]),
    decreases s.len(),
{
    reveal(Seq::filter);
    if s.len() > 0 {
        let r = s.drop_last();
        assert forall|i: int| 0 <= i < r.len() implies is_digit_byte(#[trigger] r[i]) || r[i] == 95 by {
            assert(r[i] == s[i]);
        }
        lemma_cleaned_digits(r);
        let c = cleaned(s);
        let cr = cleaned(r);
        assert(c == if not_separator(s.last()) {
            cr.push(s.last())
        } else {
            cr
        });
        assert forall|k: int| 0 <= k < c.len() implies is_digit_byte(#[trigger] c[k]) by {
            if k < cr.len() {
                assert(c[k] == cr[k]);
            }
        }
    }
}

} // verus!
