//! IPv4 arithmetic behind ApexLang's `net` module: addresses in
//! dot-decimal notation, CIDR networks, subnet masks and their ranges.

use vstd::prelude::*;
use crate::apexlang::error::ApexError;
use crate::forge::math::{big_from_i64, big_shl, big_to_u32, big_to_u64, AFNSBigInt};
use crate::text::{append_decimal, chars_of, decimal, find_between, first_index_of, push_char, string_of};

verus! {

/// The mask of a prefix length: its `bits` highest bits set.
pub open spec fn mask_of(bits: u32) -> u32 {
    if bits == 0 {
        0
    } else {
        (0xffff_ffffu32 << ((32 - bits) as u32)) as u32
    }
}

/// The subnet mask of a prefix of `bits` bits (at most 32)
pub fn prefix_mask(bits: u32) -> (m: u32)
    requires
        bits <= 32,
    ensures
        m == mask_of(bits),
        forall|i: u32| #![trigger (m >> i)] i < 32 ==> ((m >> i) & 1 == 1 <==> i >= 32 - bits),
{
    let m = if bits == 0 { 0 } else { u32::MAX << (32 - bits) };
    proof {
        assert forall|i: u32| #![trigger (m >> i)] i < 32 implies ((m >> i) & 1 == 1 <==> i >= 32 - bits) by {
            if bits == 0 {
                assert(m == 0);
                assert((0u32 >> i) & 1 == 0) by (bit_vector);
            } else {
                let s = (32 - bits) as u32;
                assert(m == 0xffff_ffffu32 << s);
                assert(i < 32 && 1 <= bits <= 32 && s == 32 - bits ==> (((0xffff_ffffu32 << s) >> i) & 1 == 1 <==> i >= s)) by (bit_vector);
            }
        }
    }
    m
}

/// The dotted rendering of an address: its four bytes, most significant
/// first.
pub open spec fn ipv4_text(v: u32) -> Seq<char> {
    decimal((v / 16777216) as nat) + "."@ + decimal((v / 65536 % 256) as nat) + "."@ + decimal(
        (v / 256 % 256) as nat,
    ) + "."@ + decimal((v % 256) as nat)
}

/// The dotted rendering of an address
pub fn format_ipv4(value: u32) -> (s: String)
    ensures
        s@ == ipv4_text(value),
{
    let mut s = String::new();
    append_decimal(&mut s, (value >> 24u32) as u64);
    s.append(".");
    append_decimal(&mut s, ((value >> 16u32) & 0xff) as u64);
    s.append(".");
    append_decimal(&mut s, ((value >> 8u32) & 0xff) as u64);
    s.append(".");
    append_decimal(&mut s, (value & 0xff) as u64);
    proof {
        assert((value >> 24u32) == value / 16777216) by (bit_vector);
        assert((value >> 16u32) & 0xff == value / 65536 % 256) by (bit_vector);
        assert((value >> 8u32) & 0xff == value / 256 % 256) by (bit_vector);
        assert(value & 0xff == value % 256) by (bit_vector);
        assert(s@ =~= ipv4_text(value));
    }
    s
}


/// The value of decimal digits.
pub open spec fn decimal_value(s: Seq<char>) -> int
    decreases s.len(),
{
    if s.len() == 0 {
        0
    } else {
        decimal_value(s.drop_last()) * 10 + (s.last() as int - 48)
    }
}

/// One to three decimal digits, no leading zero before another digit.
pub open spec fn octet_text(s: Seq<char>) -> bool {
    &&& 1 <= s.len() <= 3
    &&& forall|i: int| 0 <= i < s.len() ==> '0' <= #[trigger] s[i] <= '9'
    &&& !(s.len() > 1 && s[0] == '0')
}

/// Whether text is an octet of at most 255.
pub open spec fn octet_ok(s: Seq<char>) -> bool {
    octet_text(s) && decimal_value(s) <= 255
}

/// The parts of a text between dots.
pub open spec fn dot_parts(s: Seq<char>) -> Seq<Seq<char>>
    decreases s.len(),
{
    let i = first_index_of(s, '.');
    if i < 0 || i >= s.len() {
        seq![s]
    } else {
        seq![s.subrange(0, i)] + dot_parts(s.subrange(i + 1, s.len() as int))
    }
}

/// The address a text spells in dot-decimal notation, as std's `Ipv4Addr`
/// reads it: four octets of one to three decimal digits, none above 255
/// and none with a leading zero, separated by dots; None for any other
/// text.
pub open spec fn ipv4_value(s: Seq<char>) -> Option<u32> {
    let p = dot_parts(s);
    if p.len() == 4 && octet_ok(p[0]) && octet_ok(p[1]) && octet_ok(p[2]) && octet_ok(p[3]) {
        Some(
            (decimal_value(p[0]) * 16777216 + decimal_value(p[1]) * 65536 + decimal_value(p[2]) * 256
                + decimal_value(p[3])) as u32,
        )
    } else {
        None
    }
}

/// The value of the octet in `c[from..to]`, if it is one
fn octet_at(c: &Vec<char>, from: usize, to: usize) -> (r: Option<u32>)
    requires
        from <= to <= c@.len(),
    ensures
        ({
            let t = c@.subrange(from as int, to as int);
            if octet_text(t) && decimal_value(t) <= 255 {
                r == Some(decimal_value(t) as u32)
            } else {
                r is None
            }
        }),
        r matches Some(v) ==> v <= 255 && decimal_value(c@.subrange(from as int, to as int)) == v as int && octet_text(
            c@.subrange(from as int, to as int),
        ),
        r is None ==> !(octet_text(c@.subrange(from as int, to as int)) && decimal_value(
            c@.subrange(from as int, to as int),
        ) <= 255),
{
    let ghost t = c@.subrange(from as int, to as int);
    let len = to - from;
    if len < 1 || len > 3 {
        return None;
    }
    if len > 1 && c[from] == '0' {
        assert(t[0] == c@[from as int]);
        return None;
    }
    let mut acc: u32 = 0;
    let mut k: usize = 0;
    while k < len
        invariant
            1 <= len <= 3,
            len == to - from,
            from <= to <= c@.len(),
            t == c@.subrange(from as int, to as int),
            k <= len,
            forall|i: int| 0 <= i < k ==> '0' <= #[trigger] t[i] <= '9',
            acc == decimal_value(t.take(k as int)),
            acc < 1000,
            k == 0 ==> acc == 0,
            acc <= 9 * (if k == 0 { 0int } else if k == 1 { 1int } else if k == 2 { 11int } else { 111int }),
        decreases len - k,
    {
        let ch = c[from + k];
        assert(t[k as int] == ch);
        if !('0' <= ch && ch <= '9') {
            return None;
        }
        proof {
            assert(t.take(k + 1).drop_last() =~= t.take(k as int));
            assert(t.take(k + 1).last() == ch);
        }
        acc = acc * 10 + (ch as u32 - 48);
        k = k + 1;
    }
    assert(t.take(k as int) =~= t);
    if acc > 255 {
        return None;
    }
    Some(acc)
}

/// A text split at dots has at least one part.
proof fn lemma_dot_parts_nonempty(s: Seq<char>)
    ensures
        dot_parts(s).len() >= 1,
    decreases s.len(),
{
    let i = first_index_of(s, '.');
    if 0 <= i < s.len() {
        lemma_dot_parts_nonempty(s.subrange(i + 1, s.len() as int));
    }
}

/// The address a text spells in dot-decimal notation
fn parse_ipv4_text(text: &str) -> (r: Option<u32>)
    ensures
        r == ipv4_value(text@),
{
    let c = chars_of(text);
    let n = c.len();
    proof {
        assert(c@.subrange(0, n as int) =~= text@);
    }
    let ghost t0 = c@.subrange(0, n as int);
    let d1 = match find_between(&c, 0, n, '.') {
        Some(d) => d,
        None => {
            assert(dot_parts(t0) =~= seq![t0]);
            return None;
        },
    };
    let ghost t1 = c@.subrange(d1 + 1, n as int);
    proof {
        assert(t0.subrange(0, d1 as int) =~= c@.subrange(0, d1 as int));
        assert(t0.subrange(d1 + 1, t0.len() as int) =~= t1);
        assert(dot_parts(t0) == seq![c@.subrange(0, d1 as int)] + dot_parts(t1));
    }
    let d2 = match find_between(&c, d1 + 1, n, '.') {
        Some(d) => d,
        None => {
            assert(dot_parts(t1) =~= seq![t1]);
            return None;
        },
    };
    let ghost t2 = c@.subrange(d2 + 1, n as int);
    proof {
        assert(t1.subrange(0, d2 - d1 - 1) =~= c@.subrange(d1 + 1, d2 as int));
        assert(t1.subrange(d2 - d1, t1.len() as int) =~= t2);
        assert(dot_parts(t1) == seq![c@.subrange(d1 + 1, d2 as int)] + dot_parts(t2));
    }
    let d3 = match find_between(&c, d2 + 1, n, '.') {
        Some(d) => d,
        None => {
            assert(dot_parts(t2) =~= seq![t2]);
            return None;
        },
    };
    let ghost t3 = c@.subrange(d3 + 1, n as int);
    proof {
        assert(t2.subrange(0, d3 - d2 - 1) =~= c@.subrange(d2 + 1, d3 as int));
        assert(t2.subrange(d3 - d2, t2.len() as int) =~= t3);
        assert(dot_parts(t2) == seq![c@.subrange(d2 + 1, d3 as int)] + dot_parts(t3));
    }
    let ghost p = dot_parts(t0);
    if find_between(&c, d3 + 1, n, '.').is_some() {
        proof {
            let i = first_index_of(t3, '.');
            lemma_dot_parts_nonempty(t3.subrange(i + 1, t3.len() as int));
            assert(dot_parts(t3).len() >= 2);
            assert(p.len() >= 5);
        }
        return None;
    }
    proof {
        assert(dot_parts(t3) =~= seq![t3]);
        assert(p =~= seq![
            c@.subrange(0, d1 as int),
            c@.subrange(d1 + 1, d2 as int),
            c@.subrange(d2 + 1, d3 as int),
            t3,
        ]);
    }
    assert(p[0] == c@.subrange(0, d1 as int));
    assert(p[1] == c@.subrange(d1 + 1, d2 as int));
    assert(p[2] == c@.subrange(d2 + 1, d3 as int));
    assert(p[3] == c@.subrange(d3 + 1, n as int));
    assert(t0 == text@);
    let a = match octet_at(&c, 0, d1) {
        Some(v) => v,
        None => {
            assert(!octet_ok(p[0]));
            return None;
        },
    };
    let b = match octet_at(&c, d1 + 1, d2) {
        Some(v) => v,
        None => {
            assert(!octet_ok(p[1]));
            return None;
        },
    };
    let e = match octet_at(&c, d2 + 1, d3) {
        Some(v) => v,
        None => {
            assert(!octet_ok(p[2]));
            return None;
        },
    };
    let f = match octet_at(&c, d3 + 1, n) {
        Some(v) => v,
        None => {
            assert(!octet_ok(p[3]));
            return None;
        },
    };
    proof {
        assert(octet_ok(p[0]) && octet_ok(p[1]) && octet_ok(p[2]) && octet_ok(p[3]));
        assert(a == decimal_value(p[0]));
        assert(b == decimal_value(p[1]));
        assert(e == decimal_value(p[2]));
        assert(f == decimal_value(p[3]));
    }
    Some(a * 16777216 + b * 65536 + e * 256 + f)
}

/// The first octet of an address.
pub open spec fn octet0(v: u32) -> int {
    (v / 16777216) as int
}

/// The second octet of an address.
pub open spec fn octet1(v: u32) -> int {
    (v / 65536 % 256) as int
}

/// Whether text is a valid IPv4 address
pub fn parse_ipv4(addr: &str) -> (b: bool)
    ensures
        b == ipv4_value(addr@) is Some,
{
    parse_ipv4_text(addr).is_some()
}

/// The message of an invalid address.
pub open spec fn bad_address(name: Seq<char>) -> Seq<char> {
    name + " expects a valid IPv4 address"@
}

/// The address a text spells; an error naming the caller otherwise
pub fn parse_ipv4_literal(input: &str, name: &str) -> (r: Result<u32, ApexError>)
    ensures
        match ipv4_value(input@) {
            Some(v) => r == Ok::<u32, ApexError>(v),
            None => r matches Err(e) && e@ == bad_address(name@),
        },
{
    match parse_ipv4_text(input) {
        Some(v) => Ok(v),
        None => {
            let mut m = String::from_str(name);
            m.append(" expects a valid IPv4 address");
            Err(ApexError::new(m))
        },
    }
}

/// The value of decimal digits read after `acc`, or None at a character
/// that is no digit or once the value leaves `u32`.
pub open spec fn u32_digits(d: Seq<char>, acc: int) -> Option<int>
    decreases d.len(),
{
    if d.len() == 0 {
        Some(acc)
    } else if !('0' <= d[0] <= '9') {
        None
    } else {
        let v = acc * 10 + (d[0] as int - 48);
        if v > u32::MAX {
            None
        } else {
            u32_digits(d.drop_first(), v)
        }
    }
}

/// The `u32` that `str::parse::<u32>` reads: an optional '+', then decimal
/// digits; None when the text spells none.
pub open spec fn u32_text(s: Seq<char>) -> Option<int> {
    if s.len() == 0 || (s[0] == '+' && s.len() == 1) {
        None
    } else {
        u32_digits(if s[0] == '+' { s.drop_first() } else { s }, 0)
    }
}

/// Digits read into a number within `u32` keep it there.
proof fn lemma_u32_digits_bound(d: Seq<char>, acc: int)
    requires
        0 <= acc <= u32::MAX,
    ensures
        u32_digits(d, acc) matches Some(v) ==> 0 <= v <= u32::MAX,
    decreases d.len(),
{
    if d.len() > 0 && '0' <= d[0] <= '9' {
        let v = acc * 10 + (d[0] as int - 48);
        if v <= u32::MAX {
            lemma_u32_digits_bound(d.drop_first(), v);
        }
    }
}

/// The `u32` of `c[from..to]`, read as `str::parse::<u32>` does
fn parse_u32_part(c: &Vec<char>, from: usize, to: usize) -> (r: Option<u32>)
    requires
        from <= to <= c@.len(),
    ensures
        match u32_text(c@.subrange(from as int, to as int)) {
            Some(v) => r == Some(v as u32),
            None => r is None,
        },
        r matches Some(x) ==> u32_text(c@.subrange(from as int, to as int)) == Some(x as int),
{
    let ghost s = c@.subrange(from as int, to as int);
    if from == to || (c[from] == '+' && to - from == 1) {
        return None;
    }
    let mut i: usize = if c[from] == '+' { from + 1 } else { from };
    proof {
        if c[from as int] == '+' {
            assert(s.drop_first() =~= c@.subrange(from + 1, to as int));
        } else {
            assert(s =~= c@.subrange(from as int, to as int));
        }
    }
    let mut acc: u32 = 0;
    proof {
        lemma_u32_digits_bound(if s[0] == '+' { s.drop_first() } else { s }, 0);
    }
    while i < to
        invariant
            from <= i <= to <= c@.len(),
            s == c@.subrange(from as int, to as int),
            s.len() > 0,
            u32_text(s) matches Some(v) ==> 0 <= v <= u32::MAX,
            u32_text(s) == u32_digits(c@.subrange(i as int, to as int), acc as int),
        decreases to - i,
    {
        let ch = c[i];
        proof {
            assert(c@.subrange(i as int, to as int)[0] == ch);
            assert(c@.subrange(i as int, to as int).drop_first() =~= c@.subrange(i + 1, to as int));
        }
        if !('0' <= ch && ch <= '9') {
            return None;
        }
        let digit = (ch as u32) - 48;
        if acc > (u32::MAX - digit) / 10 {
            proof {
                assert(acc * 10 + digit > u32::MAX) by (nonlinear_arith)
                    requires acc > (u32::MAX - digit) / 10, digit <= 9;
            }
            return None;
        }
        proof {
            assert(acc * 10 + digit <= u32::MAX) by (nonlinear_arith)
                requires acc <= (u32::MAX - digit) / 10, digit <= 9;
        }
        acc = acc * 10 + digit;
        i = i + 1;
    }
    Some(acc)
}

/// The address and prefix length a CIDR text spells, or the message of
/// its error.
pub open spec fn cidr_value(text: Seq<char>) -> Result<(u32, u32), Seq<char>> {
    let slash = first_index_of(text, '/');
    if slash < 0 || slash >= text.len() {
        Err("CIDR expects address/prefix"@)
    } else {
        let base = text.subrange(0, slash);
        let rest = text.subrange(slash + 1, text.len() as int);
        let second = first_index_of(rest, '/');
        if 0 <= second < rest.len() {
            Err("CIDR expects address/prefix"@)
        } else {
            match u32_text(rest) {
                None => Err("CIDR prefix must be integer"@),
                Some(p) => if p > 32 {
                    Err("CIDR prefix must be between 0 and 32"@)
                } else {
                    match ipv4_value(base) {
                        None => Err(bad_address("net.cidr_contains"@)),
                        Some(v) => Ok((v, p as u32)),
                    }
                },
            }
        }
    }
}

/// The address and prefix length of a CIDR text
pub fn parse_cidr(text: &str) -> (r: Result<(u32, u32), ApexError>)
    ensures
        match cidr_value(text@) {
            Ok(v) => r == Ok::<(u32, u32), ApexError>(v),
            Err(m) => r matches Err(e) && e@ == m,
        },
        r matches Ok((_, p)) ==> p <= 32,
{
    let c = chars_of(text);
    let n = c.len();
    let slash = match find_between(&c, 0, n, '/') {
        Some(s) => s,
        None => {
            proof {
                assert(c@.subrange(0, n as int) =~= text@);
            }
            return Err(ApexError::new(String::from_str("CIDR expects address/prefix")));
        },
    };
    proof {
        assert(c@.subrange(0, n as int) =~= text@);
    }
    proof {
        assert(c@.subrange(slash + 1, n as int) =~= text@.subrange(slash + 1, text@.len() as int));
    }
    if find_between(&c, slash + 1, n, '/').is_some() {
        return Err(ApexError::new(String::from_str("CIDR expects address/prefix")));
    }
    let prefix = match parse_u32_part(&c, slash + 1, n) {
        Some(p) => p,
        None => return Err(ApexError::new(String::from_str("CIDR prefix must be integer"))),
    };
    if prefix > 32 {
        return Err(ApexError::new(String::from_str("CIDR prefix must be between 0 and 32")));
    }
    let base = string_of(&c, 0, slash);
    proof {
        assert(c@.subrange(slash + 1, n as int) =~= text@.subrange(slash + 1, text@.len() as int));
        assert(c@.subrange(0, slash as int) =~= text@.subrange(0, slash as int));
    }
    match parse_ipv4_literal(base.as_str(), "net.cidr_contains") {
        Ok(v) => Ok((v, prefix)),
        Err(e) => Err(e),
    }
}

/// The first and last address of a network.
pub open spec fn cidr_bounds_of(network: u32, prefix: u32) -> (u32, u32) {
    ((network & mask_of(prefix)) as u32, ((network & mask_of(prefix)) | !mask_of(prefix)) as u32)
}

/// The first and last address of a network of a prefix length up to 32
pub fn cidr_bounds(network: u32, prefix: u32) -> (r: (u32, u32))
    requires
        prefix <= 32,
    ensures
        r == cidr_bounds_of(network, prefix),
{
    let mask = prefix_mask(prefix);
    let start = network & mask;
    let end = start | !mask;
    (start, end)
}

/// The message of a prefix length out of range.
pub open spec fn prefix_message(name: Seq<char>) -> Seq<char> {
    name + " expects prefix in [0, 32]"@
}

/// A prefix length from 0 to 32, or the caller's error
fn expect_prefix(prefix: &AFNSBigInt, name: &str) -> (r: Result<u32, ApexError>)
    ensures
        0 <= prefix@ <= 32 ==> r == Ok::<u32, ApexError>(prefix@ as u32),
        !(0 <= prefix@ <= 32) ==> (r matches Err(e) && e@ == prefix_message(name@)),
{
    match big_to_u32(prefix) {
        Some(p) if p <= 32 => Ok(p),
        _ => {
            let mut m = String::from_str(name);
            m.append(" expects prefix in [0, 32]");
            Err(ApexError::new(m))
        },
    }
}

/// The dotted subnet mask of a prefix length; an error outside 0 to 32
pub fn subnet_mask(bits: &AFNSBigInt) -> (r: Result<String, ApexError>)
    ensures
        0 <= bits@ <= 32 ==> (r matches Ok(s) && s@ == ipv4_text(mask_of(bits@ as u32))),
        !(0 <= bits@ <= 32) ==> (r matches Err(e) && e@ == "net.subnet_mask expects a prefix length between 0 and 32"@),
{
    match big_to_u32(bits) {
        Some(b) if b <= 32 => Ok(format_ipv4(prefix_mask(b))),
        _ => Err(ApexError::new(String::from_str("net.subnet_mask expects a prefix length between 0 and 32"))),
    }
}

/// Whether an address is private: 10/8, 172.16/12, 192.168/16 or the
/// link-local 169.254/16; an error for an invalid address
pub fn is_private_ipv4(addr: &str) -> (r: Result<bool, ApexError>)
    ensures
        match ipv4_value(addr@) {
            None => r matches Err(e) && e@ == "Expected valid IPv4 address"@,
            Some(v) => r == Ok::<bool, ApexError>(
                octet0(v) == 10 || (octet0(v) == 172 && 16 <= octet1(v) <= 31) || (octet0(v) == 192 && octet1(v)
                    == 168) || (octet0(v) == 169 && octet1(v) == 254),
            ),
        },
{
    let v = match parse_ipv4_text(addr) {
        Some(v) => v,
        None => return Err(ApexError::new(String::from_str("Expected valid IPv4 address"))),
    };
    let a = v / 16777216;
    let b = v / 65536 % 256;
    Ok(a == 10 || (a == 172 && 16 <= b && b <= 31) || (a == 192 && b == 168) || (a == 169 && b == 254))
}

/// Whether a network holds an address; the errors of the CIDR and of the
/// address
pub fn cidr_contains(cidr: &str, target: &str) -> (r: Result<bool, ApexError>)
    ensures
        match cidr_value(cidr@) {
            Err(m) => r matches Err(e) && e@ == m,
            Ok((net, p)) => match ipv4_value(target@) {
                None => r matches Err(e) && e@ == bad_address("net.cidr_contains"@),
                Some(t) => r == Ok::<bool, ApexError>((net & mask_of(p)) == (t & mask_of(p))),
            },
        },
{
    let (network, prefix) = match parse_cidr(cidr) {
        Ok(x) => x,
        Err(e) => return Err(e),
    };
    let mask = prefix_mask(prefix);
    let t = match parse_ipv4_literal(target, "net.cidr_contains") {
        Ok(t) => t,
        Err(e) => return Err(e),
    };
    Ok((network & mask) == (t & mask))
}

/// Whether two networks share an address; the errors of the CIDR texts
pub fn cidr_overlap(first: &str, second: &str) -> (r: Result<bool, ApexError>)
    ensures
        match (cidr_value(first@), cidr_value(second@)) {
            (Err(m), _) => r matches Err(e) && e@ == m,
            (Ok(_), Err(m)) => r matches Err(e) && e@ == m,
            (Ok((a, p)), Ok((b, q))) => r == Ok::<bool, ApexError>(
                cidr_bounds_of(a, p).0 <= cidr_bounds_of(b, q).1 && cidr_bounds_of(b, q).0 <= cidr_bounds_of(a, p).1,
            ),
        },
{
    let (a, p) = match parse_cidr(first) {
        Ok(x) => x,
        Err(e) => return Err(e),
    };
    let (b, q) = match parse_cidr(second) {
        Ok(x) => x,
        Err(e) => return Err(e),
    };
    let (start_a, end_a) = cidr_bounds(a, p);
    let (start_b, end_b) = cidr_bounds(b, q);
    Ok(start_a <= end_b && start_b <= end_a)
}

/// The network address of an address under a prefix length; the errors of
/// the prefix and of the address
pub fn ipv4_network(addr: &str, prefix: &AFNSBigInt) -> (r: Result<String, ApexError>)
    ensures
        !(0 <= prefix@ <= 32) ==> (r matches Err(e) && e@ == prefix_message("net.ipv4_network"@)),
        0 <= prefix@ <= 32 ==> match ipv4_value(addr@) {
            None => r matches Err(e) && e@ == bad_address("net.ipv4_network"@),
            Some(v) => r matches Ok(s) && s@ == ipv4_text((v & mask_of(prefix@ as u32)) as u32),
        },
{
    let p = match expect_prefix(prefix, "net.ipv4_network") {
        Ok(p) => p,
        Err(e) => return Err(e),
    };
    let ip = match parse_ipv4_literal(addr, "net.ipv4_network") {
        Ok(v) => v,
        Err(e) => return Err(e),
    };
    Ok(format_ipv4(ip & prefix_mask(p)))
}

/// The broadcast address of an address under a prefix length; the errors
/// of the prefix and of the address
pub fn ipv4_broadcast(addr: &str, prefix: &AFNSBigInt) -> (r: Result<String, ApexError>)
    ensures
        !(0 <= prefix@ <= 32) ==> (r matches Err(e) && e@ == prefix_message("net.ipv4_broadcast"@)),
        0 <= prefix@ <= 32 ==> match ipv4_value(addr@) {
            None => r matches Err(e) && e@ == bad_address("net.ipv4_broadcast"@),
            Some(v) => r matches Ok(s) && s@ == ipv4_text(cidr_bounds_of(v, prefix@ as u32).1),
        },
{
    let p = match expect_prefix(prefix, "net.ipv4_broadcast") {
        Ok(p) => p,
        Err(e) => return Err(e),
    };
    let ip = match parse_ipv4_literal(addr, "net.ipv4_broadcast") {
        Ok(v) => v,
        Err(e) => return Err(e),
    };
    let mask = prefix_mask(p);
    Ok(format_ipv4((ip & mask) | !mask))
}

/// The first and last address of a network; the errors of the CIDR text
pub fn ipv4_range(cidr: &str) -> (r: Result<(String, String), ApexError>)
    ensures
        match cidr_value(cidr@) {
            Err(m) => r matches Err(e) && e@ == m,
            Ok((net, p)) => r matches Ok((a, b)) && a@ == ipv4_text(cidr_bounds_of(net, p).0) && b@ == ipv4_text(
                cidr_bounds_of(net, p).1,
            ),
        },
{
    let (network, prefix) = match parse_cidr(cidr) {
        Ok(x) => x,
        Err(e) => return Err(e),
    };
    let (start, end) = cidr_bounds(network, prefix);
    Ok((format_ipv4(start), format_ipv4(end)))
}

/// Whether two addresses share the network of a prefix length; the errors
/// of the prefix and of the addresses
pub fn ipv4_same_subnet(first: &str, second: &str, prefix: &AFNSBigInt) -> (r: Result<bool, ApexError>)
    ensures
        !(0 <= prefix@ <= 32) ==> (r matches Err(e) && e@ == prefix_message("net.ipv4_same_subnet"@)),
        0 <= prefix@ <= 32 ==> match (ipv4_value(first@), ipv4_value(second@)) {
            (None, _) => r matches Err(e) && e@ == bad_address("net.ipv4_same_subnet"@),
            (Some(_), None) => r matches Err(e) && e@ == bad_address("net.ipv4_same_subnet"@),
            (Some(a), Some(b)) => r == Ok::<bool, ApexError>(
                (a & mask_of(prefix@ as u32)) == (b & mask_of(prefix@ as u32)),
            ),
        },
{
    let p = match expect_prefix(prefix, "net.ipv4_same_subnet") {
        Ok(p) => p,
        Err(e) => return Err(e),
    };
    let mask = prefix_mask(p);
    let left = match parse_ipv4_literal(first, "net.ipv4_same_subnet") {
        Ok(v) => v,
        Err(e) => return Err(e),
    };
    let right = match parse_ipv4_literal(second, "net.ipv4_same_subnet") {
        Ok(v) => v,
        Err(e) => return Err(e),
    };
    Ok((left & mask) == (right & mask))
}

/// A network written as `address/prefix`.
pub open spec fn cidr_text(base: u32, prefix: u32) -> Seq<char> {
    ipv4_text(base) + "/"@ + decimal(prefix as nat)
}

fn format_cidr(base: u32, prefix: u32) -> (s: String)
    ensures
        s@ == cidr_text(base, prefix),
{
    let mut s = format_ipv4(base);
    s.append("/");
    append_decimal(&mut s, prefix as u64);
    s
}

/// The network one bit shorter that holds a network; an error for prefix
/// 0 and the errors of the CIDR text
pub fn ipv4_supernet(cidr: &str) -> (r: Result<String, ApexError>)
    ensures
        match cidr_value(cidr@) {
            Err(m) => r matches Err(e) && e@ == m,
            Ok((net, p)) => if p == 0 {
                r matches Err(e) && e@ == "net.ipv4_supernet expects a prefix larger than 0"@
            } else {
                r matches Ok(s) && s@ == cidr_text((net & mask_of((p - 1) as u32)) as u32, (p - 1) as u32)
            },
        },
{
    let (network, prefix) = match parse_cidr(cidr) {
        Ok(x) => x,
        Err(e) => return Err(e),
    };
    if prefix == 0 {
        return Err(ApexError::new(String::from_str("net.ipv4_supernet expects a prefix larger than 0")));
    }
    let parent = prefix - 1;
    let base = network & prefix_mask(parent);
    Ok(format_cidr(base, parent))
}

/// The two halves of a network that splitting adds one bit to the prefix,
/// the second starting `block` addresses after the first.
proof fn lemma_split_halves(x: u32, p: u32)
    requires
        p < 32,
    ensures
        (x & (0xffff_ffffu32 << ((32 - p) as u32))) as int + (1u32 << ((31 - p) as u32)) as int <= u32::MAX,
{
    assert(p < 32 ==> (x & (0xffff_ffffu32 << ((32 - p) as u32))) & (1u32 << ((31 - p) as u32)) == 0
        && (x & (0xffff_ffffu32 << ((32 - p) as u32))) | (1u32 << ((31 - p) as u32)) >= (x & (0xffff_ffffu32 << ((32
        - p) as u32))) && ((x & (0xffff_ffffu32 << ((32 - p) as u32))) as u64) + ((1u32 << ((31 - p) as u32)) as u64)
        <= 0xffff_ffffu64) by (bit_vector);
}

/// A network split into its two halves; an error for a /32 and the errors
/// of the CIDR text
pub fn cidr_split(cidr: &str) -> (r: Result<(String, String), ApexError>)
    ensures
        match cidr_value(cidr@) {
            Err(m) => r matches Err(e) && e@ == m,
            Ok((net, p)) => if p == 32 {
                r matches Err(e) && e@ == "net.cidr_split cannot subdivide a /32 network"@
            } else {
                r matches Ok((a, b)) && a@ == cidr_text((net & mask_of(p)) as u32, (p + 1) as u32) && b@ == cidr_text(
                    ((net & mask_of(p)) + (1u32 << ((31 - p) as u32))) as u32,
                    (p + 1) as u32,
                )
            },
        },
{
    let (network, prefix) = match parse_cidr(cidr) {
        Ok(x) => x,
        Err(e) => return Err(e),
    };
    if prefix == 32 {
        return Err(ApexError::new(String::from_str("net.cidr_split cannot subdivide a /32 network")));
    }
    let child = prefix + 1;
    let base = network & prefix_mask(prefix);
    let block = 1u32 << (32 - child);
    proof {
        if prefix > 0 {
            lemma_split_halves(network, prefix);
        } else {
            assert(network & 0u32 == 0) by (bit_vector);
        }
    }
    Ok((format_cidr(base, child), format_cidr(base + block, child)))
}

/// The `u32` of an address; an error for an invalid one
pub fn ipv4_to_int(addr: &str) -> (r: Result<u32, ApexError>)
    ensures
        match ipv4_value(addr@) {
            Some(v) => r == Ok::<u32, ApexError>(v),
            None => r matches Err(e) && e@ == bad_address("net.ipv4_to_int"@),
        },
{
    parse_ipv4_literal(addr, "net.ipv4_to_int")
}

/// The address of a `u32`; an error for a negative number or one past 64
/// bits, and for one past 32 bits
pub fn int_to_ipv4(raw: &AFNSBigInt) -> (r: Result<String, ApexError>)
    ensures
        !(0 <= raw@ <= u64::MAX) ==> (r matches Err(e) && e@ == "net.int_to_ipv4 expects unsigned integer"@),
        u32::MAX < raw@ <= u64::MAX ==> (r matches Err(e) && e@ == "net.int_to_ipv4 expects a value that fits in 32 bits"@),
        0 <= raw@ <= u32::MAX ==> (r matches Ok(s) && s@ == ipv4_text(raw@ as u32)),
{
    let value = match big_to_u64(raw) {
        Some(v) => v,
        None => return Err(ApexError::new(String::from_str("net.int_to_ipv4 expects unsigned integer"))),
    };
    if value > 4294967295 {
        return Err(ApexError::new(String::from_str("net.int_to_ipv4 expects a value that fits in 32 bits")));
    }
    Ok(format_ipv4(value as u32))
}

/// The class of an address by its first octet: A to 127, B to 191, C to
/// 223, D to 239, E above.
pub open spec fn class_of(first: int) -> Seq<char> {
    if first <= 127 {
        "A"@
    } else if first <= 191 {
        "B"@
    } else if first <= 223 {
        "C"@
    } else if first <= 239 {
        "D"@
    } else {
        "E"@
    }
}

/// The class of an address; an error for an invalid one
pub fn ipv4_class(addr: &str) -> (r: Result<String, ApexError>)
    ensures
        match ipv4_value(addr@) {
            Some(v) => r matches Ok(s) && s@ == class_of(octet0(v)),
            None => r matches Err(e) && e@ == bad_address("net.ipv4_class"@),
        },
{
    let v = match parse_ipv4_literal(addr, "net.ipv4_class") {
        Ok(v) => v,
        Err(e) => return Err(e),
    };
    let first = v / 16777216;
    let class = if first <= 127 {
        "A"
    } else if first <= 191 {
        "B"
    } else if first <= 223 {
        "C"
    } else if first <= 239 {
        "D"
    } else {
        "E"
    };
    Ok(String::from_str(class))
}

/// Whether an address is a loopback address (127/8); an error for an
/// invalid one
pub fn is_loopback(addr: &str) -> (r: Result<bool, ApexError>)
    ensures
        match ipv4_value(addr@) {
            Some(v) => r == Ok::<bool, ApexError>(octet0(v) == 127),
            None => r matches Err(e) && e@ == bad_address("net.is_loopback"@),
        },
{
    match parse_ipv4_literal(addr, "net.is_loopback") {
        Ok(v) => Ok(v / 16777216 == 127),
        Err(e) => Err(e),
    }
}

/// Whether an address is multicast (224/4); an error for an invalid one
pub fn is_multicast(addr: &str) -> (r: Result<bool, ApexError>)
    ensures
        match ipv4_value(addr@) {
            Some(v) => r == Ok::<bool, ApexError>(224 <= octet0(v) <= 239),
            None => r matches Err(e) && e@ == bad_address("net.is_multicast"@),
        },
{
    match parse_ipv4_literal(addr, "net.is_multicast") {
        Ok(v) => {
            let first = v / 16777216;
            Ok(224 <= first && first <= 239)
        },
        Err(e) => Err(e),
    }
}

/// Whether an address is link-local (169.254/16); an error for an invalid
/// one
pub fn is_link_local(addr: &str) -> (r: Result<bool, ApexError>)
    ensures
        match ipv4_value(addr@) {
            Some(v) => r == Ok::<bool, ApexError>(octet0(v) == 169 && octet1(v) == 254),
            None => r matches Err(e) && e@ == bad_address("net.is_link_local"@),
        },
{
    match parse_ipv4_literal(addr, "net.is_link_local") {
        Ok(v) => Ok(v / 16777216 == 169 && v / 65536 % 256 == 254),
        Err(e) => Err(e),
    }
}

/// The address after an address; an error for the last one and for an
/// invalid one
pub fn ipv4_next(addr: &str) -> (r: Result<String, ApexError>)
    ensures
        match ipv4_value(addr@) {
            Some(v) => if v == u32::MAX {
                r matches Err(e) && e@ == "Cannot increment the broadcast address"@
            } else {
                r matches Ok(s) && s@ == ipv4_text((v + 1) as u32)
            },
            None => r matches Err(e) && e@ == bad_address("net.ipv4_next"@),
        },
{
    let v = match parse_ipv4_literal(addr, "net.ipv4_next") {
        Ok(v) => v,
        Err(e) => return Err(e),
    };
    if v == u32::MAX {
        return Err(ApexError::new(String::from_str("Cannot increment the broadcast address")));
    }
    Ok(format_ipv4(v + 1))
}

/// The address before an address; an error for 0.0.0.0 and for an invalid
/// one
pub fn ipv4_prev(addr: &str) -> (r: Result<String, ApexError>)
    ensures
        match ipv4_value(addr@) {
            Some(v) => if v == 0 {
                r matches Err(e) && e@ == "Cannot decrement 0.0.0.0"@
            } else {
                r matches Ok(s) && s@ == ipv4_text((v - 1) as u32)
            },
            None => r matches Err(e) && e@ == bad_address("net.ipv4_prev"@),
        },
{
    let v = match parse_ipv4_literal(addr, "net.ipv4_prev") {
        Ok(v) => v,
        Err(e) => return Err(e),
    };
    if v == 0 {
        return Err(ApexError::new(String::from_str("Cannot decrement 0.0.0.0")));
    }
    Ok(format_ipv4(v - 1))
}

/// The number of addresses under a prefix length, 2^(32 - prefix); an
/// error outside 0 to 32
pub fn ipv4_host_count(prefix: &AFNSBigInt) -> (r: Result<AFNSBigInt, ApexError>)
    ensures
        !(0 <= prefix@ <= 32) ==> (r matches Err(e) && e@ == prefix_message("net.ipv4_host_count"@)),
        0 <= prefix@ <= 32 ==> (r matches Ok(c) && c@ == vstd::arithmetic::power::pow(2, (32 - prefix@) as nat)),
{
    let p = match expect_prefix(prefix, "net.ipv4_host_count") {
        Ok(p) => p,
        Err(e) => return Err(e),
    };
    let one = big_from_i64(1);
    Ok(big_shl(&one, (32 - p) as u64))
}

/// The reverse-lookup name of an address.
pub open spec fn reverse_ptr_text(v: u32) -> Seq<char> {
    decimal((v % 256) as nat) + "."@ + decimal((v / 256 % 256) as nat) + "."@ + decimal((v / 65536 % 256) as nat)
        + "."@ + decimal((v / 16777216) as nat) + ".in-addr.arpa"@
}

/// The reverse-lookup name of an address; an error for an invalid one
pub fn reverse_ptr(addr: &str) -> (r: Result<String, ApexError>)
    ensures
        match ipv4_value(addr@) {
            Some(v) => r matches Ok(s) && s@ == reverse_ptr_text(v),
            None => r matches Err(e) && e@ == bad_address("net.reverse_ptr"@),
        },
{
    let v = match parse_ipv4_literal(addr, "net.reverse_ptr") {
        Ok(v) => v,
        Err(e) => return Err(e),
    };
    let mut s = String::new();
    append_decimal(&mut s, (v % 256) as u64);
    s.append(".");
    append_decimal(&mut s, (v / 256 % 256) as u64);
    s.append(".");
    append_decimal(&mut s, (v / 65536 % 256) as u64);
    s.append(".");
    append_decimal(&mut s, (v / 16777216) as u64);
    s.append(".in-addr.arpa");
    assert(s@ =~= reverse_ptr_text(v));
    Ok(s)
}

/// Whether bit `j` of a value is set.
pub open spec fn bit_set(v: u32, j: u32) -> bool {
    (v >> j) & 1 == 1
}

/// Whether a value is the mask of `k` leading ones.
pub open spec fn mask_form(v: u32, k: int) -> bool {
    0 <= k <= 32 && forall|j: u32| j < 32 ==> (#[trigger] bit_set(v, j) <==> j >= 32 - k)
}

/// The top bit of a value shifted left by `i` is its bit `31 - i`.
proof fn lemma_top_bit(v: u32, i: u32)
    requires
        i < 32,
    ensures
        ((v << i) & 0x8000_0000u32 != 0) == bit_set(v, (31 - i) as u32),
        (v << i) << 1u32 == v << ((i + 1) as u32),
{
    assert(i < 32 ==> (((v << i) & 0x8000_0000u32 != 0) == ((v >> ((31 - i) as u32)) & 1 == 1)) && (v << i)
        << 1u32 == v << ((i + 1) as u32)) by (bit_vector);
}

/// The prefix length of a dotted mask; an error for a mask whose ones are
/// not contiguous from the top, and for an invalid address
pub fn mask_to_prefix(mask: &str) -> (r: Result<u32, ApexError>)
    ensures
        match ipv4_value(mask@) {
            None => r matches Err(e) && e@ == bad_address("net.mask_to_prefix"@),
            Some(v) => match r {
                Ok(k) => mask_form(v, k as int),
                Err(e) => e@ == "net.mask_to_prefix expects contiguous ones in the mask"@ && forall|k: int|
                    !#[trigger] mask_form(v, k),
            },
        },
{
    let v = match parse_ipv4_literal(mask, "net.mask_to_prefix") {
        Ok(v) => v,
        Err(e) => return Err(e),
    };
    let mut bits = v;
    let mut count: u32 = 0;
    let mut seen_zero = false;
    let mut i: u32 = 0;
    proof {
        assert(v << 0u32 == v) by (bit_vector);
    }
    while i < 32
        invariant
            ipv4_value(mask@) == Some(v),
            i <= 32,
            bits == v << i,
            count <= i,
            seen_zero ==> count < i,
            !seen_zero ==> count == i,
            forall|t: u32| t < count ==> #[trigger] bit_set(v, (31 - t) as u32),
            forall|t: u32| count <= t < i ==> !#[trigger] bit_set(v, (31 - t) as u32),
        decreases 32 - i,
    {
        proof {
            lemma_top_bit(v, i);
        }
        if bits & 0x8000_0000 != 0 {
            if seen_zero {
                proof {
                    assert forall|k: int| !#[trigger] mask_form(v, k) by {
                        if mask_form(v, k) {
                            let c = count;
                            assert(!bit_set(v, (31 - c) as u32));
                            assert(bit_set(v, (31 - i) as u32));
                            assert(((31 - i) as u32) >= 32 - k);
                            assert(((31 - c) as u32) < 32 - k);
                        }
                    }
                }
                return Err(ApexError::new(String::from_str("net.mask_to_prefix expects contiguous ones in the mask")));
            }
            count = count + 1;
        } else {
            seen_zero = true;
        }
        bits = bits << 1;
        i = i + 1;
    }
    proof {
        assert forall|j: u32| j < 32 implies (#[trigger] bit_set(v, j) <==> j >= 32 - count) by {
            let t = (31 - j) as u32;
            assert(j == (31 - t) as u32);
            if t < count {
                assert(bit_set(v, (31 - t) as u32));
            } else {
                assert(!bit_set(v, (31 - t) as u32));
            }
        }
    }
    Ok(count)
}

/// Eight binary digits of an octet, most significant first.
pub open spec fn octet_bits(o: u32) -> Seq<char> {
    Seq::new(8, |j: int| if (o >> ((7 - j) as u32)) & 1 == 1 { '1' } else { '0' })
}

fn push_octet_bits(s: &mut String, o: u32)
    ensures
        final(s)@ == old(s)@ + octet_bits(o),
{
    let mut j: u32 = 0;
    while j < 8
        invariant
            j <= 8,
            s@ == old(s)@ + octet_bits(o).take(j as int),
        decreases 8 - j,
    {
        let c = if (o >> (7 - j)) & 1 == 1 { '1' } else { '0' };
        push_char(s, c);
        proof {
            assert(octet_bits(o).take(j + 1) =~= octet_bits(o).take(j as int).push(c));
        }
        j = j + 1;
    }
    assert(octet_bits(o).take(8) =~= octet_bits(o));
}

/// The four octets of an address in eight binary digits each, separated by
/// dots; an error for an invalid address
pub fn ipv4_to_binary(addr: &str) -> (r: Result<String, ApexError>)
    ensures
        match ipv4_value(addr@) {
            Some(v) => r matches Ok(s) && s@ == octet_bits(v / 16777216) + "."@ + octet_bits(v / 65536 % 256) + "."@
                + octet_bits(v / 256 % 256) + "."@ + octet_bits(v % 256),
            None => r matches Err(e) && e@ == bad_address("net.ipv4_to_binary"@),
        },
{
    let v = match parse_ipv4_literal(addr, "net.ipv4_to_binary") {
        Ok(v) => v,
        Err(e) => return Err(e),
    };
    let mut s = String::new();
    push_octet_bits(&mut s, v / 16777216);
    s.append(".");
    push_octet_bits(&mut s, v / 65536 % 256);
    s.append(".");
    push_octet_bits(&mut s, v / 256 % 256);
    s.append(".");
    push_octet_bits(&mut s, v % 256);
    Ok(s)
}

} // verus!
