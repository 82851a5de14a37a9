//! The text and byte formats behind ApexLang's `serde` module: Base64,
//! XML escapes and the length headers of the binary encoding.

use vstd::prelude::*;
use crate::apexlang::error::ApexError;
use vstd::utf8::is_ascii_chars;

verus! {

/// The Base64 digit of a value below 64.
pub open spec fn b64_digit(v: int) -> char {
    if v < 26 {
        (65 + v) as char
    } else if v < 52 {
        (97 + v - 26) as char
    } else if v < 62 {
        (48 + v - 52) as char
    } else if v == 62 {
        '+'
    } else {
        '/'
    }
}

/// The four Base64 characters of one group of `n` (1 to 3) bytes; missing
/// bytes count as zero, and their digits are written as '='.
pub open spec fn encode_group(a: u8, b: u8, c: u8, n: nat) -> Seq<char> {
    let combined = a * 65536 + b * 256 + c;
    seq![
        b64_digit(combined / 262144 % 64),
        b64_digit(combined / 4096 % 64),
        if n > 1 { b64_digit(combined / 64 % 64) } else { '=' },
        if n > 2 { b64_digit(combined % 64) } else { '=' },
    ]
}

/// The Base64 text of bytes, three bytes to four characters.
pub open spec fn base64_text(bytes: Seq<u8>) -> Seq<char>
    decreases bytes.len(),
{
    if bytes.len() == 0 {
        Seq::empty()
    } else if bytes.len() == 1 {
        encode_group(bytes[0], 0, 0, 1)
    } else if bytes.len() == 2 {
        encode_group(bytes[0], bytes[1], 0, 2)
    } else {
        encode_group(bytes[0], bytes[1], bytes[2], 3) + base64_text(bytes.subrange(3, bytes.len() as int))
    }
}

/// The value of a Base64 digit, or None.
pub open spec fn digit_value(ch: u8) -> Option<u8> {
    if 65 <= ch <= 90 {
        Some((ch - 65) as u8)
    } else if 97 <= ch <= 122 {
        Some((ch - 97 + 26) as u8)
    } else if 48 <= ch <= 57 {
        Some((ch - 48 + 52) as u8)
    } else if ch == 43 {
        Some(62u8)
    } else if ch == 47 {
        Some(63u8)
    } else {
        None
    }
}

/// Whether a byte is ASCII whitespace as `u8::is_ascii_whitespace` counts
/// it: space, tab, line feed, form feed or carriage return.
pub open spec fn ascii_ws(b: u8) -> bool {
    b == 32 || b == 9 || b == 10 || b == 12 || b == 13
}

/// Bytes with the ASCII whitespace taken out.
pub open spec fn without_ws(s: Seq<u8>) -> Seq<u8>
    decreases s.len(),
{
    if s.len() == 0 {
        s
    } else if ascii_ws(s.last()) {
        without_ws(s.drop_last())
    } else {
        without_ws(s.drop_last()).push(s.last())
    }
}

/// The value of a group character: zero for '='.
pub open spec fn group_value(ch: u8) -> int {
    if ch == 61 {
        0
    } else {
        match digit_value(ch) {
            Some(v) => v as int,
            None => 0,
        }
    }
}

/// Whether a group character is '=' or a Base64 digit.
pub open spec fn group_char_ok(ch: u8) -> bool {
    ch == 61 || digit_value(ch) is Some
}

/// The bytes of one group of four characters: three, less one for each
/// '=' up to two.
#[verifier::opaque]
pub open spec fn group_bytes(g: Seq<u8>) -> Result<Seq<u8>, Seq<char>> {
    if !(group_char_ok(g[0]) && group_char_ok(g[1]) && group_char_ok(g[2]) && group_char_ok(g[3])) {
        Err("serde.from_base64 found invalid characters"@)
    } else {
        let padding = (if g[0] == 61 { 1int } else { 0 }) + (if g[1] == 61 { 1int } else { 0 })
            + (if g[2] == 61 { 1int } else { 0 }) + (if g[3] == 61 { 1int } else { 0 });
        let combined = group_value(g[0]) * 262144 + group_value(g[1]) * 4096 + group_value(g[2]) * 64
            + group_value(g[3]);
        let first = seq![(combined / 65536 % 256) as u8];
        let second = if padding < 2 { seq![(combined / 256 % 256) as u8] } else { Seq::empty() };
        let third = if padding == 0 { seq![(combined % 256) as u8] } else { Seq::empty() };
        Ok(first + second + third)
    }
}

/// The bytes of groups of four characters, the first bad group's error.
pub open spec fn groups_bytes(c: Seq<u8>) -> Result<Seq<u8>, Seq<char>>
    decreases c.len(),
{
    if c.len() < 4 {
        Ok(Seq::empty())
    } else {
        match group_bytes(c.subrange(0, 4)) {
            Err(e) => Err(e),
            Ok(first) => match groups_bytes(c.subrange(4, c.len() as int)) {
                Err(e) => Err(e),
                Ok(rest) => Ok(first + rest),
            },
        }
    }
}

/// The bytes that a Base64 text (by its UTF-8 bytes) stands for, its ASCII
/// whitespace ignored; or the error of a length that is no multiple of four
/// or of a character that is no digit.
pub open spec fn base64_bytes(text: Seq<u8>) -> Result<Seq<u8>, Seq<char>> {
    let cleaned = without_ws(text);
    if cleaned.len() % 4 != 0 {
        Err("serde.from_base64 expected groups of 4 characters"@)
    } else {
        groups_bytes(cleaned)
    }
}

/// The value of a Base64 digit
pub fn base64_value(ch: u8) -> (r: Option<u8>)
    ensures
        r == digit_value(ch),
{
    if 65 <= ch && ch <= 90 {
        Some(ch - 65)
    } else if 97 <= ch && ch <= 122 {
        Some(ch - 97 + 26)
    } else if 48 <= ch && ch <= 57 {
        Some(ch - 48 + 52)
    } else if ch == 43 {
        Some(62)
    } else if ch == 47 {
        Some(63)
    } else {
        None
    }
}

/// The Base64 digit of a value below 64.
fn digit_of(v: u32) -> (c: char)
    requires
        v < 64,
    ensures
        c == b64_digit(v as int),
{
    if v < 26 {
        ((65 + v) as u8) as char
    } else if v < 52 {
        ((97 + v - 26) as u8) as char
    } else if v < 62 {
        ((48 + v - 52) as u8) as char
    } else if v == 62 {
        '+'
    } else {
        '/'
    }
}

/// Appends the four characters of one group of `count` bytes.
fn push_group(output: &mut String, a: u8, b: u8, c: u8, count: usize)
    requires
        1 <= count <= 3,
    ensures
        final(output)@ == old(output)@ + encode_group(a, b, c, count as nat),
{
    let a = a as u32;
    let b = b as u32;
    let c = c as u32;
    let combined = (a << 16u32) | (b << 8u32) | c;
    assert((a << 16u32) | (b << 8u32) | c == a * 65536 + b * 256 + c) by (bit_vector)
        requires
            a < 256,
            b < 256,
            c < 256,
    ;
    assert(combined < 16777216);
    assert((combined >> 18u32) & 0x3f == combined / 262144 % 64) by (bit_vector);
    assert((combined >> 12u32) & 0x3f == combined / 4096 % 64) by (bit_vector);
    assert((combined >> 6u32) & 0x3f == combined / 64 % 64) by (bit_vector);
    assert(combined & 0x3f == combined % 64) by (bit_vector);
    crate::text::push_char(output, digit_of((combined >> 18u32) & 0x3f));
    crate::text::push_char(output, digit_of((combined >> 12u32) & 0x3f));
    if count > 1 {
        crate::text::push_char(output, digit_of((combined >> 6u32) & 0x3f));
    } else {
        crate::text::push_char(output, '=');
    }
    if count > 2 {
        crate::text::push_char(output, digit_of(combined & 0x3f));
    } else {
        crate::text::push_char(output, '=');
    }
    assert(final(output)@ =~= old(output)@ + encode_group(a as u8, b as u8, c as u8, count as nat));
}

/// One step of the Base64 text: the group at `i`, then the rest.
proof fn lemma_base64_step(bytes: Seq<u8>, i: int)
    requires
        0 <= i < bytes.len(),
    ensures
        ({
            let left = bytes.len() - i;
            let step = if left >= 3 { 3 } else { left };
            let b = if left > 1 { bytes[i + 1] } else { 0 };
            let c = if left > 2 { bytes[i + 2] } else { 0 };
            base64_text(bytes.subrange(i, bytes.len() as int)) == encode_group(bytes[i], b, c, step as nat)
                + base64_text(bytes.subrange(i + step, bytes.len() as int))
        }),
{
    let n = bytes.len() as int;
    let rest = bytes.subrange(i, n);
    let left = n - i;
    assert(rest[0] == bytes[i]);
    if left > 1 {
        assert(rest[1] == bytes[i + 1]);
    }
    if left > 2 {
        assert(rest[2] == bytes[i + 2]);
    }
    if left > 3 {
        assert(rest.subrange(3, rest.len() as int) =~= bytes.subrange(i + 3, n));
    } else {
        let step = left;
        assert(bytes.subrange(i + step, n) =~= Seq::<u8>::empty());
        let b = if left > 1 { bytes[i + 1] } else { 0 };
        let c = if left > 2 { bytes[i + 2] } else { 0 };
        assert(encode_group(bytes[i], b, c, step as nat) + base64_text(Seq::<u8>::empty()) =~= encode_group(bytes[i], b, c, step as nat));
    }
}

/// The Base64 text of bytes, with '=' padding
pub fn encode_base64_bytes(bytes: &[u8]) -> (s: String)
    ensures
        s@ == base64_text(bytes@),
{
    let mut output = String::new();
    let mut i: usize = 0;
    let n = bytes.len();
    proof {
        assert(bytes@.subrange(0, n as int) =~= bytes@);
        assert(output@ + base64_text(bytes@) =~= base64_text(bytes@));
    }
    while i < n
        invariant
            n == bytes@.len(),
            i <= n,
            output@ + base64_text(bytes@.subrange(i as int, n as int)) == base64_text(bytes@),
        decreases n - i,
    {
        let left = n - i;
        let a = bytes[i];
        let b = if left > 1 { bytes[i + 1] } else { 0 };
        let c = if left > 2 { bytes[i + 2] } else { 0 };
        let step: usize = if left >= 3 { 3 } else { left };
        let ghost before = output@;
        push_group(&mut output, a, b, c, step);
        proof {
            lemma_base64_step(bytes@, i as int);
            let g = encode_group(a, b, c, step as nat);
            let tail = base64_text(bytes@.subrange(i + step, n as int));
            assert(before + (g + tail) =~= output@ + tail);
        }
        i = i + step;
    }
    output
}

/// The value of a group character: zero for '=', or the error of a
/// character that is no digit.
fn group_char(ch: u8) -> (r: Option<u8>)
    ensures
        group_char_ok(ch) ==> r == Some(group_value(ch) as u8) && group_value(ch) < 64,
        !group_char_ok(ch) ==> r is None,
{
    if ch == 61 {
        Some(0)
    } else {
        base64_value(ch)
    }
}

/// Appends the bytes of one group of four characters.
fn decode_group(out: &mut Vec<u8>, g0: u8, g1: u8, g2: u8, g3: u8) -> (r: Result<(), ApexError>)
    ensures
        match group_bytes(seq![g0, g1, g2, g3]) {
            Ok(bs) => r is Ok && final(out)@ == old(out)@ + bs,
            Err(m) => (r matches Err(e) && e@ == m) && final(out)@ == old(out)@,
        },
{
    let ghost g = seq![g0, g1, g2, g3];
    assert(g[0] == g0 && g[1] == g1 && g[2] == g2 && g[3] == g3);
    reveal(group_bytes);
    let v0 = match group_char(g0) { Some(v) => v, None => return Err(ApexError::new(String::from_str("serde.from_base64 found invalid characters"))) };
    let v1 = match group_char(g1) { Some(v) => v, None => return Err(ApexError::new(String::from_str("serde.from_base64 found invalid characters"))) };
    let v2 = match group_char(g2) { Some(v) => v, None => return Err(ApexError::new(String::from_str("serde.from_base64 found invalid characters"))) };
    let v3 = match group_char(g3) { Some(v) => v, None => return Err(ApexError::new(String::from_str("serde.from_base64 found invalid characters"))) };
    let mut padding: u8 = 0;
    if g0 == 61 { padding = padding + 1; }
    if g1 == 61 { padding = padding + 1; }
    if g2 == 61 { padding = padding + 1; }
    if g3 == 61 { padding = padding + 1; }
    let a = v0 as u32;
    let b = v1 as u32;
    let c = v2 as u32;
    let d = v3 as u32;
    let combined = (a << 18u32) | (b << 12u32) | (c << 6u32) | d;
    assert((a << 18u32) | (b << 12u32) | (c << 6u32) | d == a * 262144 + b * 4096 + c * 64 + d) by (bit_vector)
        requires
            a < 64,
            b < 64,
            c < 64,
            d < 64,
    ;
    assert(combined < 16777216);
    assert((combined >> 16u32) & 0xff == combined / 65536 % 256) by (bit_vector);
    assert((combined >> 8u32) & 0xff == combined / 256 % 256) by (bit_vector);
    assert(combined & 0xff == combined % 256) by (bit_vector);
    let ghost before = out@;
    out.push(((combined >> 16u32) & 0xff) as u8);
    if padding < 2 {
        out.push(((combined >> 8u32) & 0xff) as u8);
    }
    if padding == 0 {
        out.push((combined & 0xff) as u8);
    }
    proof {
        match group_bytes(g) {
            Ok(bs) => {
                assert(out@ =~= before + bs);
            },
            Err(_) => {},
        }
    }
    Ok(())
}

/// One step of decoding groups: the group at `idx`, then the rest.
proof fn lemma_groups_step(c: Seq<u8>, idx: int)
    requires
        0 <= idx,
        idx + 4 <= c.len(),
    ensures
        groups_bytes(c.subrange(idx, c.len() as int)) == match group_bytes(seq![c[idx], c[idx + 1], c[idx + 2], c[idx + 3]]) {
            Err(e) => Err(e),
            Ok(first) => match groups_bytes(c.subrange(idx + 4, c.len() as int)) {
                Err(e) => Err(e),
                Ok(rest) => Ok(first + rest),
            },
        },
{
    let rest = c.subrange(idx, c.len() as int);
    assert(rest.subrange(0, 4) =~= seq![c[idx], c[idx + 1], c[idx + 2], c[idx + 3]]);
    assert(rest.subrange(4, rest.len() as int) =~= c.subrange(idx + 4, c.len() as int));
}

/// The bytes a Base64 text stands for, its ASCII whitespace ignored
pub fn decode_base64_string(text: &str) -> (r: Result<Vec<u8>, ApexError>)
    ensures
        match base64_bytes(vstd::utf8::encode_utf8(text@)) {
            Ok(b) => r matches Ok(v) && v@ == b,
            Err(m) => r matches Err(e) && e@ == m,
        },
{
    let bytes = text.as_bytes();
    let mut cleaned: Vec<u8> = Vec::new();
    let mut i: usize = 0;
    while i < bytes.len()
        invariant
            i <= bytes@.len(),
            cleaned@ == without_ws(bytes@.take(i as int)),
        decreases bytes@.len() - i,
    {
        let byte = bytes[i];
        proof {
            assert(bytes@.take(i + 1).drop_last() =~= bytes@.take(i as int));
        }
        if !(byte == 32 || byte == 9 || byte == 10 || byte == 12 || byte == 13) {
            cleaned.push(byte);
        }
        i = i + 1;
    }
    proof {
        assert(bytes@.take(i as int) =~= bytes@);
    }
    if cleaned.len() % 4 != 0 {
        return Err(ApexError::new(String::from_str("serde.from_base64 expected groups of 4 characters")));
    }
    let mut output: Vec<u8> = Vec::new();
    let mut idx: usize = 0;
    let n = cleaned.len();
    proof {
        assert(cleaned@.subrange(0, n as int) =~= cleaned@);
        assert(output@ + Seq::<u8>::empty() =~= Seq::<u8>::empty());
        match groups_bytes(cleaned@) {
            Ok(rest) => {
                assert(output@ + rest =~= rest);
            },
            Err(_) => {},
        }
    }
    while idx < n
        invariant
            n == cleaned@.len(),
            n % 4 == 0,
            idx % 4 == 0,
            idx <= n,
            base64_bytes(vstd::utf8::encode_utf8(text@)) == groups_bytes(cleaned@),
            groups_bytes(cleaned@) == match groups_bytes(cleaned@.subrange(idx as int, n as int)) {
                Ok(rest) => Ok(output@ + rest),
                Err(e) => Err::<Seq<u8>, Seq<char>>(e),
            },
        decreases n - idx,
    {
        proof {
            lemma_groups_step(cleaned@, idx as int);
        }
        let ghost before = output@;
        match decode_group(&mut output, cleaned[idx], cleaned[idx + 1], cleaned[idx + 2], cleaned[idx + 3]) {
            Ok(()) => {},
            Err(e) => return Err(e),
        }
        proof {
            match group_bytes(seq![cleaned@[idx as int], cleaned@[idx + 1], cleaned@[idx + 2], cleaned@[idx + 3]]) {
                Ok(bs) => {
                    match groups_bytes(cleaned@.subrange(idx + 4, n as int)) {
                        Ok(tail) => {
                            assert(before + (bs + tail) =~= output@ + tail);
                        },
                        Err(_) => {},
                    }
                },
                Err(_) => {},
            }
        }
        idx = idx + 4;
    }
    proof {
        assert(cleaned@.subrange(idx as int, n as int) =~= Seq::<u8>::empty());
        assert(output@ + Seq::<u8>::empty() =~= output@);
    }
    Ok(output)
}

/// The bytes of ASCII text, one per character.
pub open spec fn ascii_bytes(s: Seq<char>) -> Seq<u8> {
    s.map_values(|c: char| c as u8)
}

proof fn lemma_digit(v: int)
    requires
        0 <= v < 64,
    ensures
        b64_digit(v) <= '\u{7f}',
        digit_value(b64_digit(v) as u8) == Some(v as u8),
        b64_digit(v) as u8 != 61,
        !ascii_ws(b64_digit(v) as u8),
{
}

proof fn lemma_group_arith(a: u8, b: u8, c: u8)
    ensures
        ((a * 65536 + b * 256 + c) / 262144 % 64) * 262144 + ((a * 65536 + b * 256 + c) / 4096 % 64) * 4096
            + ((a * 65536 + b * 256 + c) / 64 % 64) * 64 + (a * 65536 + b * 256 + c) % 64
            == a * 65536 + b * 256 + c,
        (a * 65536 + b * 256 + c) / 65536 % 256 == a,
        (a * 65536 + b * 256 + c) / 256 % 256 == b,
        (a * 65536 + b * 256 + c) % 256 == c,
        (a * 65536 + b * 256) % 64 == 0,
        (a * 65536) % 4096 == 0,
{
    assert(((a * 65536 + b * 256 + c) / 262144 % 64) * 262144 + ((a * 65536 + b * 256 + c) / 4096 % 64) * 4096
        + ((a * 65536 + b * 256 + c) / 64 % 64) * 64 + (a * 65536 + b * 256 + c) % 64
        == a * 65536 + b * 256 + c) by (bit_vector);
    assert((a * 65536 + b * 256 + c) / 65536 % 256 == a) by (bit_vector);
    assert((a * 65536 + b * 256 + c) / 256 % 256 == b) by (bit_vector);
    assert((a * 65536 + b * 256 + c) % 256 == c) by (bit_vector);
    assert((a * 65536 + b * 256) % 64 == 0) by (bit_vector);
    assert((a * 65536) % 4096 == 0) by (bit_vector);
}

/// One group decodes to the bytes it was made of.
proof fn lemma_group_round_trip(a: u8, b: u8, c: u8, n: nat)
    requires
        1 <= n <= 3,
        n < 3 ==> c == 0,
        n < 2 ==> b == 0,
    ensures
        is_ascii_chars(encode_group(a, b, c, n)),
        group_bytes(ascii_bytes(encode_group(a, b, c, n))) == Ok::<Seq<u8>, Seq<char>>(seq![a, b, c].take(n as int)),
        forall|i: int| 0 <= i < 4 ==> !ascii_ws(#[trigger] ascii_bytes(encode_group(a, b, c, n))[i]),
{
    reveal(group_bytes);
    let comb = a * 65536 + b * 256 + c;
    lemma_group_arith(a, b, c);
    let v0 = comb / 262144 % 64;
    let v1 = comb / 4096 % 64;
    let v2 = comb / 64 % 64;
    let v3 = comb % 64;
    lemma_digit(v0);
    lemma_digit(v1);
    lemma_digit(v2);
    lemma_digit(v3);
    let g = ascii_bytes(encode_group(a, b, c, n));
    assert(g.len() == 4);
    assert(group_value(g[0]) == v0);
    assert(group_value(g[1]) == v1);
    if n > 1 {
        assert(group_value(g[2]) == v2);
    } else {
        assert(g[2] == 61);
    }
    if n > 2 {
        assert(group_value(g[3]) == v3);
    } else {
        assert(g[3] == 61);
    }
    assert(group_bytes(g) == Ok::<Seq<u8>, Seq<char>>(seq![a, b, c].take(n as int))) by {
        assert(seq![a, b, c].take(n as int) =~= if n == 1 { seq![a] } else if n == 2 { seq![a, b] } else { seq![a, b, c] });
        if n == 1 {
            assert(seq![(comb / 65536 % 256) as u8] + Seq::<u8>::empty() + Seq::<u8>::empty() =~= seq![a]);
        } else if n == 2 {
            assert(seq![(comb / 65536 % 256) as u8] + seq![(comb / 256 % 256) as u8] + Seq::<u8>::empty() =~= seq![a, b]);
        } else {
            assert(seq![(comb / 65536 % 256) as u8] + seq![(comb / 256 % 256) as u8] + seq![(comb % 256) as u8] =~= seq![a, b, c]);
        }
    }
}

proof fn lemma_no_ws(s: Seq<u8>)
    requires
        forall|i: int| 0 <= i < s.len() ==> !ascii_ws(#[trigger] s[i]),
    ensures
        without_ws(s) == s,
    decreases s.len(),
{
    if s.len() > 0 {
        lemma_no_ws(s.drop_last());
        assert(s.drop_last().push(s.last()) =~= s);
    }
}

proof fn lemma_groups_concat(x: Seq<u8>, y: Seq<u8>)
    requires
        x.len() == 4,
    ensures
        groups_bytes(x + y) == match group_bytes(x) {
            Err(e) => Err(e),
            Ok(f) => match groups_bytes(y) {
                Err(e) => Err(e),
                Ok(r) => Ok(f + r),
            },
        },
{
    assert((x + y).subrange(0, 4) =~= x);
    assert((x + y).subrange(4, (x + y).len() as int) =~= y);
}

/// How many bytes the first group of `bytes` takes.
pub open spec fn head_count(bytes: Seq<u8>) -> nat {
    if bytes.len() >= 3 { 3 } else { bytes.len() }
}

/// The bytes after the first group.
pub open spec fn after_head(bytes: Seq<u8>) -> Seq<u8> {
    if bytes.len() > 3 { bytes.subrange(3, bytes.len() as int) } else { Seq::empty() }
}

/// The first group of bytes, zero-filled to three.
pub open spec fn head_group(bytes: Seq<u8>) -> Seq<char> {
    let n = head_count(bytes);
    encode_group(bytes[0], if n > 1 { bytes[1] } else { 0 }, if n > 2 { bytes[2] } else { 0 }, n)
}

proof fn lemma_text_split(bytes: Seq<u8>)
    requires
        bytes.len() > 0,
    ensures
        base64_text(bytes) == head_group(bytes) + base64_text(after_head(bytes)),
{
    if bytes.len() <= 3 {
        assert(base64_text(after_head(bytes)) =~= Seq::<char>::empty());
        assert(head_group(bytes) + Seq::<char>::empty() =~= head_group(bytes));
        if bytes.len() == 3 {
            assert(bytes.subrange(3, 3) =~= Seq::<u8>::empty());
            assert(base64_text(bytes.subrange(3, 3)) =~= Seq::<char>::empty());
        }
    }
}

proof fn lemma_concat_ascii(g: Seq<char>, rest: Seq<char>)
    requires
        is_ascii_chars(g),
        is_ascii_chars(rest),
        forall|i: int| 0 <= i < g.len() ==> !ascii_ws(#[trigger] ascii_bytes(g)[i]),
        forall|i: int| 0 <= i < rest.len() ==> !ascii_ws(#[trigger] ascii_bytes(rest)[i]),
    ensures
        is_ascii_chars(g + rest),
        ascii_bytes(g + rest) == ascii_bytes(g) + ascii_bytes(rest),
        forall|i: int| 0 <= i < (g + rest).len() ==> !ascii_ws(#[trigger] ascii_bytes(g + rest)[i]),
{
    assert(ascii_bytes(g + rest) =~= ascii_bytes(g) + ascii_bytes(rest));
    assert forall|i: int| 0 <= i < (g + rest).len() implies !ascii_ws(#[trigger] ascii_bytes(g + rest)[i]) by {
        if i >= g.len() {
            assert(ascii_bytes(g + rest)[i] == ascii_bytes(rest)[i - g.len()]);
        } else {
            assert(ascii_bytes(g + rest)[i] == ascii_bytes(g)[i]);
        }
    }
    assert forall|i: int| 0 <= i < (g + rest).len() implies '\0' <= #[trigger] (g + rest)[i] <= '\u{7f}' by {
        if i >= g.len() {
            assert((g + rest)[i] == rest[i - g.len()]);
        } else {
            assert((g + rest)[i] == g[i]);
        }
    }
}

proof fn lemma_text_props(bytes: Seq<u8>)
    ensures
        is_ascii_chars(base64_text(bytes)),
        base64_text(bytes).len() % 4 == 0,
        forall|i: int| 0 <= i < base64_text(bytes).len() ==> !ascii_ws(#[trigger] ascii_bytes(base64_text(bytes))[i]),
        groups_bytes(ascii_bytes(base64_text(bytes))) == Ok::<Seq<u8>, Seq<char>>(bytes),
    decreases bytes.len(),
{
    if bytes.len() == 0 {
        assert(ascii_bytes(base64_text(bytes)) =~= Seq::<u8>::empty());
        assert(bytes =~= Seq::<u8>::empty());
    } else {
        let n = head_count(bytes);
        let a = bytes[0];
        let b = if n > 1 { bytes[1] } else { 0u8 };
        let c = if n > 2 { bytes[2] } else { 0u8 };
        let g = head_group(bytes);
        let tail = after_head(bytes);
        lemma_group_round_trip(a, b, c, n);
        lemma_text_props(tail);
        lemma_text_split(bytes);
        let rest = base64_text(tail);
        lemma_concat_ascii(g, rest);
        lemma_groups_concat(ascii_bytes(g), ascii_bytes(rest));
        assert(seq![a, b, c].take(n as int) + tail =~= bytes);
    }
}

/// Decoding the Base64 text of any bytes gives the bytes back.
pub proof fn lemma_base64_round_trip(bytes: Seq<u8>)
    ensures
        base64_bytes(vstd::utf8::encode_utf8(base64_text(bytes))) == Ok::<Seq<u8>, Seq<char>>(bytes),
{
    lemma_text_props(bytes);
    let t = base64_text(bytes);
    vstd::utf8::is_ascii_chars_encode_utf8(t);
    assert(vstd::utf8::encode_utf8(t) =~= ascii_bytes(t));
    lemma_no_ws(ascii_bytes(t));
}

/// Taking the whitespace out twice takes out no more than once.
proof fn lemma_without_ws_twice(s: Seq<u8>)
    ensures
        without_ws(without_ws(s)) == without_ws(s),
    decreases s.len(),
{
    if s.len() > 0 {
        lemma_without_ws_twice(s.drop_last());
        if !ascii_ws(s.last()) {
            let w = without_ws(s.drop_last()).push(s.last());
            assert(w.drop_last() =~= without_ws(s.drop_last()));
            assert(w.last() == s.last());
        }
    }
}

/// Groups of four that hold a character that is neither a digit nor '='
/// do not decode.
proof fn lemma_groups_reject(c: Seq<u8>, k: int)
    requires
        c.len() % 4 == 0,
        0 <= k < c.len(),
        !group_char_ok(c[k]),
    ensures
        groups_bytes(c) is Err,
    decreases c.len(),
{
    let g = c.subrange(0, 4);
    if k < 4 {
        assert(g[k] == c[k]);
        reveal(group_bytes);
        assert(group_bytes(g) is Err);
    } else {
        let rest = c.subrange(4, c.len() as int);
        assert(rest[k - 4] == c[k]);
        lemma_groups_reject(rest, k - 4);
    }
}

/// Whitespace in a Base64 text is ignored: the text decodes as it does with
/// its whitespace taken out. A text whose other characters are not a
/// multiple of four in number, or hold one that is neither a Base64 digit
/// nor '=', does not decode.
pub proof fn lemma_base64_whitespace_and_errors(text: Seq<u8>, k: int)
    ensures
        base64_bytes(text) == base64_bytes(without_ws(text)),
        without_ws(text).len() % 4 != 0 ==> base64_bytes(text) is Err,
        0 <= k < without_ws(text).len() && !group_char_ok(without_ws(text)[k]) ==> base64_bytes(text) is Err,
{
    lemma_without_ws_twice(text);
    if 0 <= k < without_ws(text).len() && !group_char_ok(without_ws(text)[k]) && without_ws(text).len() % 4 == 0 {
        lemma_groups_reject(without_ws(text), k);
    }
}

/// The text a character is written as in XML: the five markup characters
/// by their entities, any other as itself.
pub open spec fn xml_char_text(c: char) -> Seq<char> {
    if c == '&' {
        seq!['&', 'a', 'm', 'p', ';']
    } else if c == '<' {
        seq!['&', 'l', 't', ';']
    } else if c == '>' {
        seq!['&', 'g', 't', ';']
    } else if c == '"' {
        seq!['&', 'q', 'u', 'o', 't', ';']
    } else if c == '\'' {
        seq!['&', 'a', 'p', 'o', 's', ';']
    } else {
        seq![c]
    }
}

/// Text with its markup characters escaped.
pub open spec fn xml_escaped(s: Seq<char>) -> Seq<char>
    decreases s.len(),
{
    if s.len() == 0 {
        Seq::empty()
    } else {
        xml_char_text(s[0]) + xml_escaped(s.drop_first())
    }
}

/// The character an entity name stands for.
pub open spec fn entity_char(e: Seq<char>) -> Option<char> {
    if e =~= seq!['a', 'm', 'p'] {
        Some('&')
    } else if e =~= seq!['l', 't'] {
        Some('<')
    } else if e =~= seq!['g', 't'] {
        Some('>')
    } else if e =~= seq!['q', 'u', 'o', 't'] {
        Some('"')
    } else if e =~= seq!['a', 'p', 'o', 's'] {
        Some('\'')
    } else {
        None
    }
}

/// Text with its entities replaced by their characters; or the error of an
/// entity with no `;` or of an unknown one.
pub open spec fn xml_unescaped(s: Seq<char>) -> Result<Seq<char>, Seq<char>>
    decreases s.len(),
{
    if s.len() == 0 {
        Ok(Seq::empty())
    } else if s[0] == '&' {
        let rest = s.drop_first();
        let semi = crate::text::first_index_of(rest, ';');
        if semi < 0 || semi >= rest.len() {
            Err("serde.from_xml encountered an unterminated entity"@)
        } else {
            match entity_char(rest.subrange(0, semi)) {
                None => Err("serde.from_xml encountered an unknown entity"@),
                Some(c) => match xml_unescaped(rest.subrange(semi + 1, rest.len() as int)) {
                    Ok(t) => Ok(seq![c] + t),
                    Err(e) => Err(e),
                },
            }
        }
    } else {
        match xml_unescaped(s.drop_first()) {
            Ok(t) => Ok(seq![s[0]] + t),
            Err(e) => Err(e),
        }
    }
}

/// Text with the XML markup characters escaped
pub fn escape_xml(text: &str) -> (s: String)
    ensures
        s@ == xml_escaped(text@),
{
    let c = crate::text::chars_of(text);
    let mut out = String::new();
    let mut k: usize = 0;
    proof {
        assert(c@.subrange(0, c@.len() as int) =~= c@);
        assert(out@ + xml_escaped(c@) =~= xml_escaped(c@));
    }
    while k < c.len()
        invariant
            k <= c@.len(),
            c@ == text@,
            out@ + xml_escaped(c@.subrange(k as int, c@.len() as int)) == xml_escaped(c@),
        decreases c@.len() - k,
    {
        let ch = c[k];
        proof {
            let r = c@.subrange(k as int, c@.len() as int);
            assert(r[0] == ch);
            assert(r.drop_first() =~= c@.subrange(k + 1, c@.len() as int));
        }
        let ghost before = out@;
        if ch == '&' {
            out.append("&amp;");
        } else if ch == '<' {
            out.append("&lt;");
        } else if ch == '>' {
            out.append("&gt;");
        } else if ch == '"' {
            out.append("&quot;");
        } else if ch == '\'' {
            out.append("&apos;");
        } else {
            crate::text::push_char(&mut out, ch);
        }
        proof {
            reveal_strlit("&amp;");
            reveal_strlit("&lt;");
            reveal_strlit("&gt;");
            reveal_strlit("&quot;");
            reveal_strlit("&apos;");
            assert(out@ =~= before + xml_char_text(ch));
            let tail = xml_escaped(c@.subrange(k + 1, c@.len() as int));
            assert(before + (xml_char_text(ch) + tail) =~= out@ + tail);
        }
        k = k + 1;
    }
    proof {
        assert(c@.subrange(k as int, c@.len() as int) =~= Seq::<char>::empty());
        assert(out@ + Seq::<char>::empty() =~= out@);
    }
    out
}

/// The character the entity name `c[from..to]` stands for.
fn entity_value(c: &Vec<char>, from: usize, to: usize) -> (r: Option<char>)
    requires
        from <= to <= c@.len(),
    ensures
        r == entity_char(c@.subrange(from as int, to as int)),
{
    let e = crate::text::string_of(c, from, to);
    let v = crate::text::chars_of(e.as_str());
    let amp = crate::text::chars_of("amp");
    let lt = crate::text::chars_of("lt");
    let gt = crate::text::chars_of("gt");
    let quot = crate::text::chars_of("quot");
    let apos = crate::text::chars_of("apos");
    proof {
        reveal_strlit("amp");
        reveal_strlit("lt");
        reveal_strlit("gt");
        reveal_strlit("quot");
        reveal_strlit("apos");
        assert(amp@ =~= seq!['a', 'm', 'p']);
        assert(lt@ =~= seq!['l', 't']);
        assert(gt@ =~= seq!['g', 't']);
        assert(quot@ =~= seq!['q', 'u', 'o', 't']);
        assert(apos@ =~= seq!['a', 'p', 'o', 's']);
    }
    if crate::text::chars_equal(&v, &amp) {
        Some('&')
    } else if crate::text::chars_equal(&v, &lt) {
        Some('<')
    } else if crate::text::chars_equal(&v, &gt) {
        Some('>')
    } else if crate::text::chars_equal(&v, &quot) {
        Some('"')
    } else if crate::text::chars_equal(&v, &apos) {
        Some('\'')
    } else {
        None
    }
}

/// Text with its XML entities replaced by their characters
pub fn unescape_xml(text: &str) -> (r: Result<String, ApexError>)
    ensures
        match xml_unescaped(text@) {
            Ok(t) => r matches Ok(s) && s@ == t,
            Err(m) => r matches Err(e) && e@ == m,
        },
{
    let c = crate::text::chars_of(text);
    let n = c.len();
    let mut out = String::new();
    let mut i: usize = 0;
    proof {
        assert(c@.subrange(0, n as int) =~= c@);
        match xml_unescaped(c@) {
            Ok(t) => {
                assert(out@ + t =~= t);
            },
            Err(_) => {},
        }
    }
    loop
        invariant
            i <= n == c@.len(),
            c@ == text@,
            xml_unescaped(c@) == match xml_unescaped(c@.subrange(i as int, n as int)) {
                Ok(t) => Ok(out@ + t),
                Err(e) => Err::<Seq<char>, Seq<char>>(e),
            },
        decreases n - i,
    {
        if i == n {
            proof {
                assert(c@.subrange(i as int, n as int) =~= Seq::<char>::empty());
                assert(out@ + Seq::<char>::empty() =~= out@);
            }
            return Ok(out);
        }
        let ghost s = c@.subrange(i as int, n as int);
        let ch = c[i];
        assert(s[0] == ch);
        assert(s.drop_first() =~= c@.subrange(i + 1, n as int));
        let ghost before = out@;
        if ch == '&' {
            proof {
                assert(c@.skip(i + 1) =~= c@.subrange(i + 1, n as int));
            }
            match crate::text::find_char(&c, i + 1, ';') {
                None => {
                    return Err(ApexError::new(String::from_str("serde.from_xml encountered an unterminated entity")));
                },
                Some(semi) => {
                    let ghost rest = c@.subrange(i + 1, n as int);
                    proof {
                        assert(rest.subrange(0, semi - i - 1) =~= c@.subrange(i + 1, semi as int));
                        assert(rest.subrange(semi - i, rest.len() as int) =~= c@.subrange(semi + 1, n as int));
                    }
                    match entity_value(&c, i + 1, semi) {
                        None => {
                            return Err(ApexError::new(String::from_str("serde.from_xml encountered an unknown entity")));
                        },
                        Some(d) => {
                            crate::text::push_char(&mut out, d);
                            proof {
                                match xml_unescaped(c@.subrange(semi + 1, n as int)) {
                                    Ok(t) => {
                                        assert(before + (seq![d] + t) =~= out@ + t);
                                    },
                                    Err(_) => {},
                                }
                            }
                            i = semi + 1;
                        },
                    }
                },
            }
        } else {
            crate::text::push_char(&mut out, ch);
            proof {
                match xml_unescaped(c@.subrange(i + 1, n as int)) {
                    Ok(t) => {
                        assert(before + (seq![ch] + t) =~= out@ + t);
                    },
                    Err(_) => {},
                }
            }
            i = i + 1;
        }
    }
}

/// An escaped markup character followed by more text unescapes to the
/// character followed by that text unescaped.
proof fn lemma_entity_step(name: Seq<char>, c: char, tail: Seq<char>)
    requires
        entity_char(name) == Some(c),
        forall|i: int| 0 <= i < name.len() ==> name[i] != ';',
    ensures
        xml_unescaped(seq!['&'] + name + seq![';'] + tail) == match xml_unescaped(tail) {
            Ok(t) => Ok::<Seq<char>, Seq<char>>(seq![c] + t),
            Err(e) => Err(e),
        },
{
    let s = seq!['&'] + name + seq![';'] + tail;
    let rest = s.drop_first();
    assert(rest =~= name + seq![';'] + tail);
    let k = name.len() as int;
    assert(rest[k] == ';');
    crate::text::lemma_first_index_of(rest, ';');
    assert forall|j: int| 0 <= j < k implies rest[j] != ';' by {
        assert(rest[j] == name[j]);
    }
    assert(crate::text::first_index_of(rest, ';') == k);
    assert(rest.subrange(0, k) =~= name);
    assert(rest.subrange(k + 1, rest.len() as int) =~= tail);
}

/// Unescaping the XML escape of any text gives the text back.
pub proof fn lemma_xml_round_trip(s: Seq<char>)
    ensures
        xml_unescaped(xml_escaped(s)) == Ok::<Seq<char>, Seq<char>>(s),
    decreases s.len(),
{
    if s.len() == 0 {
        assert(xml_escaped(s) =~= Seq::<char>::empty());
        assert(s =~= Seq::<char>::empty());
    } else {
        let c = s[0];
        let tail = xml_escaped(s.drop_first());
        lemma_xml_round_trip(s.drop_first());
        assert(seq![c] + s.drop_first() =~= s);
        assert(xml_escaped(s) == xml_char_text(c) + tail);
        if c == '&' {
            assert(xml_char_text(c) + tail =~= seq!['&'] + seq!['a', 'm', 'p'] + seq![';'] + tail);
            lemma_entity_step(seq!['a', 'm', 'p'], c, tail);
        } else if c == '<' {
            assert(xml_char_text(c) + tail =~= seq!['&'] + seq!['l', 't'] + seq![';'] + tail);
            lemma_entity_step(seq!['l', 't'], c, tail);
        } else if c == '>' {
            assert(xml_char_text(c) + tail =~= seq!['&'] + seq!['g', 't'] + seq![';'] + tail);
            lemma_entity_step(seq!['g', 't'], c, tail);
        } else if c == '"' {
            assert(xml_char_text(c) + tail =~= seq!['&'] + seq!['q', 'u', 'o', 't'] + seq![';'] + tail);
            lemma_entity_step(seq!['q', 'u', 'o', 't'], c, tail);
        } else if c == '\'' {
            assert(xml_char_text(c) + tail =~= seq!['&'] + seq!['a', 'p', 'o', 's'] + seq![';'] + tail);
            lemma_entity_step(seq!['a', 'p', 'o', 's'], c, tail);
        } else {
            let e = seq![c] + tail;
            assert(e.drop_first() =~= tail);
            assert(xml_char_text(c) == seq![c]);
        }
        assert(xml_unescaped(xml_char_text(c) + tail) == Ok::<Seq<char>, Seq<char>>(seq![c] + s.drop_first()));
    }
}

/// The four big-endian bytes of a length.
pub open spec fn length_bytes(n: u32) -> Seq<u8> {
    seq![(n / 16777216) as u8, (n / 65536 % 256) as u8, (n / 256 % 256) as u8, (n % 256) as u8]
}

/// The length four big-endian bytes stand for.
pub open spec fn length_value(b: Seq<u8>) -> int {
    b[0] * 16777216 + b[1] * 65536 + b[2] * 256 + b[3]
}

/// Appends the four big-endian bytes of a length, which must fit in 32 bits
pub fn write_length(len: usize, out: &mut Vec<u8>) -> (r: Result<(), ApexError>)
    ensures
        len > u32::MAX ==> (r matches Err(e) && e@ == "serde.to_bin payload is too large to encode with u32 lengths"@)
            && final(out)@ == old(out)@,
        len <= u32::MAX ==> r is Ok && final(out)@ == old(out)@ + length_bytes(len as u32),
{
    if len > 4294967295 {
        return Err(ApexError::new(String::from_str("serde.to_bin payload is too large to encode with u32 lengths")));
    }
    let n = len as u32;
    let ghost before = out@;
    out.push((n >> 24u32) as u8);
    out.push(((n >> 16u32) & 0xff) as u8);
    out.push(((n >> 8u32) & 0xff) as u8);
    out.push((n & 0xff) as u8);
    proof {
        assert((n >> 24u32) == n / 16777216) by (bit_vector);
        assert((n >> 16u32) & 0xff == n / 65536 % 256) by (bit_vector);
        assert((n >> 8u32) & 0xff == n / 256 % 256) by (bit_vector);
        assert(n & 0xff == n % 256) by (bit_vector);
        assert(out@ =~= before + length_bytes(n));
    }
    Ok(())
}

/// Reads the four big-endian bytes of a length at the cursor, moving it
/// past them
pub fn read_length(bytes: &[u8], cursor: &mut usize) -> (r: Result<usize, ApexError>)
    requires
        *old(cursor) + 4 <= usize::MAX,
    ensures
        *old(cursor) + 4 > bytes@.len() ==> (r matches Err(e) && e@ == "serde.from_bin length header extends beyond the buffer"@)
            && *final(cursor) == *old(cursor),
        *old(cursor) + 4 <= bytes@.len() ==> *final(cursor) == *old(cursor) + 4 && r == Ok::<usize, ApexError>(
            length_value(bytes@.subrange(*old(cursor) as int, *old(cursor) + 4)) as usize,
        ),
{
    let c = *cursor;
    if c + 4 > bytes.len() {
        return Err(ApexError::new(String::from_str("serde.from_bin length header extends beyond the buffer")));
    }
    let b0 = bytes[c] as u32;
    let b1 = bytes[c + 1] as u32;
    let b2 = bytes[c + 2] as u32;
    let b3 = bytes[c + 3] as u32;
    let v = (b0 << 24u32) | (b1 << 16u32) | (b2 << 8u32) | b3;
    proof {
        assert((b0 << 24u32) | (b1 << 16u32) | (b2 << 8u32) | b3 == b0 * 16777216 + b1 * 65536 + b2 * 256 + b3) by (bit_vector)
            requires
                b0 < 256,
                b1 < 256,
                b2 < 256,
                b3 < 256,
        ;
        let h = bytes@.subrange(c as int, c + 4);
        assert(h[0] == b0 && h[1] == b1 && h[2] == b2 && h[3] == b3);
    }
    *cursor = c + 4;
    Ok(v as usize)
}

/// A length written at the end of a buffer reads back from where it was
/// written: the four bytes there stand for it, and the cursor moves by four.
pub proof fn lemma_written_length_reads_back(before: Seq<u8>, n: u32)
    ensures
        (before + length_bytes(n)).len() == before.len() + 4,
        length_value((before + length_bytes(n)).subrange(before.len() as int, before.len() as int + 4)) == n,
{
    assert((before + length_bytes(n)).subrange(before.len() as int, before.len() as int + 4) =~= length_bytes(n));
    lemma_length_round_trip(n);
}

/// Reading back the header of a written length gives the length.
pub proof fn lemma_length_round_trip(n: u32)
    ensures
        length_value(length_bytes(n)) == n,
{
    assert((n / 16777216) as u8 * 16777216 + (n / 65536 % 256) as u8 * 65536 + (n / 256 % 256) as u8 * 256
        + (n % 256) as u8 == n) by (bit_vector);
}

} // verus!
