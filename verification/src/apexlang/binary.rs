//! The binary value format: a tag byte, then the payload. Integers are
//! big-endian two's-complement bytes after a 4-byte big-endian length;
//! numbers are the 8 big-endian bytes of their bits; booleans one byte;
//! strings UTF-8 bytes after a length; tuples a count, then the items.

use vstd::prelude::*;
use vstd::utf8::{decode_utf8, valid_utf8};
use crate::apexlang::error::ApexError;
use crate::forge::math::{
    big_from_signed_bytes_be, big_to_signed_bytes_be, signed_be_value, signed_bytes_be_of, AFNSBigInt,
};
use vstd::utf8::encode_utf8;

verus! {

/// A value of the binary format; a number is held as its 64 bits.
#[derive(Debug)]
pub enum BinValue {
    Int(AFNSBigInt),
    Number(u64),
    Bool(bool),
    String(String),
    Tuple(Vec<BinValue>),
}

/// A binary value by its values.
pub enum BinV {
    Int(int),
    Number(u64),
    Bool(bool),
    Str(Seq<char>),
    Tuple(Seq<BinV>),
}

/// The values of a binary value.
pub open spec fn bin_v(v: BinValue) -> BinV
    decreases v,
{
    match v {
        BinValue::Int(n) => BinV::Int(n@),
        BinValue::Number(bits) => BinV::Number(bits),
        BinValue::Bool(b) => BinV::Bool(b),
        BinValue::String(t) => BinV::Str(t@),
        BinValue::Tuple(vs) => BinV::Tuple(
            Seq::new(
                vs@.len(),
                |i: int|
                    if 0 <= i < vs@.len() {
                        bin_v(vs@[i])
                    } else {
                        BinV::Bool(false)
                    },
            ),
        ),
    }
}

/// The big-endian `u32` of the four bytes from `p`.
pub open spec fn be_u32(b: Seq<u8>, p: int) -> int {
    b[p] * 16777216 + b[p + 1] * 65536 + b[p + 2] * 256 + b[p + 3]
}

/// The big-endian `u64` of the eight bytes from `p`.
pub open spec fn be_u64(b: Seq<u8>, p: int) -> int {
    be_u32(b, p) * 4294967296 + be_u32(b, p + 4)
}

/// The message of a length header that runs past the end.
pub open spec fn header_message() -> Seq<char> {
    "serde.from_bin length header extends beyond the buffer"@
}

/// The length read from the header at `p` and the position after it, or
/// the message of a header that runs past the end.
pub open spec fn length_at(b: Seq<u8>, p: int) -> Result<(int, int), Seq<char>> {
    if p + 4 <= b.len() {
        Ok((be_u32(b, p), p + 4))
    } else {
        Err(header_message())
    }
}

/// The four big-endian bytes of a `u32`.
pub open spec fn u32_be(n: int) -> Seq<u8> {
    seq![(n / 16777216) as u8, ((n / 65536) % 256) as u8, ((n / 256) % 256) as u8, (n % 256) as u8]
}

/// The eight big-endian bytes of a `u64`.
pub open spec fn u64_be(n: int) -> Seq<u8> {
    u32_be(n / 4294967296) + u32_be(n % 4294967296)
}

/// The bytes that stand for an integer: num-bigint's big-endian
/// two's-complement bytes, or one zero byte when it gives none.
pub open spec fn int_payload(i: int) -> Seq<u8> {
    if signed_bytes_be_of(i).len() == 0 {
        seq![0u8]
    } else {
        signed_bytes_be_of(i)
    }
}

/// The encoding of a value.
pub open spec fn bin_encode(v: BinV) -> Seq<u8>
    decreases v, 0int,
{
    match v {
        BinV::Int(i) => seq![1u8] + u32_be(int_payload(i).len() as int) + int_payload(i),
        BinV::Number(b) => seq![2u8] + u64_be(b as int),
        BinV::Bool(f) => seq![3u8, if f { 1u8 } else { 0u8 }],
        BinV::Str(s) => seq![4u8] + u32_be(encode_utf8(s).len() as int) + encode_utf8(s),
        BinV::Tuple(items) => seq![5u8] + u32_be(items.len() as int) + items_bytes(items, items.len() as int),
    }
}

/// The encodings of the first `k` items, one after another.
pub open spec fn items_bytes(items: Seq<BinV>, k: int) -> Seq<u8>
    decreases items, k,
{
    if k <= 0 || k > items.len() {
        Seq::empty()
    } else {
        items_bytes(items, k - 1) + bin_encode(items[k - 1])
    }
}

/// Whether every length a value's encoding writes fits in a `u32`: of
/// each integer's bytes, of each string's UTF-8 bytes, of each tuple.
pub open spec fn encodable(v: BinV) -> bool
    decreases v,
{
    match v {
        BinV::Int(i) => int_payload(i).len() <= u32::MAX,
        BinV::Str(s) => encode_utf8(s).len() <= u32::MAX,
        BinV::Tuple(items) => items.len() <= u32::MAX && forall|k: int|
            0 <= k < items.len() ==> encodable(#[trigger] items[k]),
        _ => true,
    }
}

/// Whether the bytes written for each integer of a value stand for it.
pub open spec fn ints_read_back(v: BinV) -> bool
    decreases v,
{
    match v {
        BinV::Int(i) => signed_be_value(int_payload(i)) == i,
        BinV::Tuple(items) => forall|k: int| 0 <= k < items.len() ==> ints_read_back(#[trigger] items[k]),
        _ => true,
    }
}

/// The value encoded at `p` and the position after it, or the message of
/// the first error.
pub open spec fn bin_decode(b: Seq<u8>, p: int) -> Result<(BinV, int), Seq<char>>
    decreases b.len() - p, 0int,
{
    if p < 0 || p >= b.len() {
        Err("serde.from_bin reached the end of the buffer unexpectedly"@)
    } else {
        let tag = b[p];
        let q = p + 1;
        if tag == 1 || tag == 4 || tag == 5 {
            if q + 4 > b.len() {
                Err(header_message())
            } else {
                let n = be_u32(b, q);
                let s = q + 4;
                if tag == 1 {
                    if s + n > b.len() {
                        Err("serde.from_bin int payload length exceeds buffer"@)
                    } else {
                        Ok((BinV::Int(signed_be_value(b.subrange(s, s + n))), s + n))
                    }
                } else if tag == 4 {
                    if s + n > b.len() {
                        Err("serde.from_bin string payload length exceeds buffer"@)
                    } else if !valid_utf8(b.subrange(s, s + n)) {
                        Err("serde.from_bin string payload is not UTF-8"@)
                    } else {
                        Ok((BinV::Str(decode_utf8(b.subrange(s, s + n))), s + n))
                    }
                } else {
                    match bin_decode_items(b, s, n as nat) {
                        Ok((items, e)) => Ok((BinV::Tuple(items), e)),
                        Err(m) => Err(m),
                    }
                }
            }
        } else if tag == 2 {
            if q + 8 > b.len() {
                Err("serde.from_bin number payload is incomplete"@)
            } else {
                Ok((BinV::Number(be_u64(b, q) as u64), q + 8))
            }
        } else if tag == 3 {
            if q >= b.len() {
                Err("serde.from_bin bool payload is missing"@)
            } else {
                Ok((BinV::Bool(b[q] != 0), q + 1))
            }
        } else {
            Err("serde.from_bin encountered an unknown tag"@)
        }
    }
}

/// `n` values decoded one after another from `p`, and the position after
/// them, or the message of the first error.
pub open spec fn bin_decode_items(b: Seq<u8>, p: int, n: nat) -> Result<(Seq<BinV>, int), Seq<char>>
    decreases b.len() - p, 1int, n,
{
    if n == 0 {
        Ok((Seq::empty(), p))
    } else {
        match bin_decode(b, p) {
            Ok((v, q)) => if p < q <= b.len() {
                match bin_decode_items(b, q, (n - 1) as nat) {
                    Ok((vs, e)) => Ok((seq![v] + vs, e)),
                    Err(m) => Err(m),
                }
            } else {
                Err(Seq::empty())
            },
            Err(m) => Err(m),
        }
    }
}

/// Where the cursor stands when decoding at `p` fails: past the tag byte,
/// past the length header once it was read, past a string payload that is
/// not UTF-8, or where the failing item of a tuple left it (the end of the
/// bytes stops before the tag byte is read).
pub open spec fn bin_stop(b: Seq<u8>, p: int) -> int
    decreases b.len() - p, 0int,
{
    if p < 0 || p >= b.len() {
        p
    } else {
        let tag = b[p];
        let q = p + 1;
        if (tag == 1 || tag == 4 || tag == 5) && q + 4 <= b.len() {
            let n = be_u32(b, q);
            let s = q + 4;
            if tag == 1 {
                s
            } else if tag == 4 {
                if s + n > b.len() {
                    s
                } else {
                    s + n
                }
            } else {
                bin_items_stop(b, s, n as nat)
            }
        } else {
            q
        }
    }
}

/// Where the cursor stands when decoding `n` items from `p` fails: where
/// the first failing item left it.
pub open spec fn bin_items_stop(b: Seq<u8>, p: int, n: nat) -> int
    decreases b.len() - p, 1int, n,
{
    if n == 0 {
        p
    } else {
        match bin_decode(b, p) {
            Ok((_, q)) => if p < q <= b.len() {
                bin_items_stop(b, q, (n - 1) as nat)
            } else {
                p
            },
            Err(_) => bin_stop(b, p),
        }
    }
}

/// A decoded value ends after its start and within the bytes.
proof fn lemma_decode_advances(b: Seq<u8>, p: int)
    ensures
        bin_decode(b, p) matches Ok((v, q)) ==> p < q <= b.len(),
    decreases b.len() - p, 0int,
{
    if 0 <= p < b.len() && b[p] == 5 && p + 5 <= b.len() {
        lemma_items_advance(b, p + 5, be_u32(b, p + 1) as nat);
    }
}

proof fn lemma_items_advance(b: Seq<u8>, p: int, n: nat)
    requires
        p <= b.len(),
    ensures
        bin_decode_items(b, p, n) matches Ok((vs, e)) ==> p <= e <= b.len() && vs.len() == n,
    decreases b.len() - p, 1int, n,
{
    if n > 0 {
        lemma_decode_advances(b, p);
        if let Ok((v, q)) = bin_decode(b, p) {
            if p < q <= b.len() {
                lemma_items_advance(b, q, (n - 1) as nat);
            }
        }
    }
}

/// The characters of UTF-8 bytes (std's `String::from_utf8`), or `None`
/// when the bytes are not UTF-8.
#[verifier::external_body]
fn utf8_string(b: &[u8]) -> (r: Option<String>)
    ensures
        match r {
            Some(s) => valid_utf8(b@) && s@ == decode_utf8(b@),
            None => !valid_utf8(b@),
        },
{
    String::from_utf8(b.to_vec()).ok()
}

/// The bytes `b[from..to]`.
fn bytes_between(b: &[u8], from: usize, to: usize) -> (w: Vec<u8>)
    requires
        from <= to <= b@.len(),
    ensures
        w@ == b@.subrange(from as int, to as int),
{
    let mut w: Vec<u8> = Vec::new();
    let mut j = from;
    while j < to
        invariant
            from <= j <= to <= b@.len(),
            w@ == b@.subrange(from as int, j as int),
        decreases to - j,
    {
        w.push(b[j]);
        assert(b@.subrange(from as int, j + 1) =~= b@.subrange(from as int, j as int).push(b@[j as int]));
        j = j + 1;
    }
    w
}

/// Reads a 4-byte big-endian length at the cursor and moves past it; the
/// error of a header that runs past the end leaves the cursor in place.
fn read_header(bytes: &[u8], cursor: &mut usize) -> (r: Result<usize, ApexError>)
    ensures
        match length_at(bytes@, *old(cursor) as int) {
            Ok((n, next)) => r matches Ok(m) && m == n && *final(cursor) == next,
            Err(msg) => (r matches Err(e) && e@ == msg) && *final(cursor) == *old(cursor),
        },
{
    let c = *cursor;
    if c > bytes.len() || bytes.len() - c < 4 {
        return Err(ApexError::new(String::from_str("serde.from_bin length header extends beyond the buffer")));
    }
    let n: u32 = (bytes[c] as u32) * 16777216 + (bytes[c + 1] as u32) * 65536 + (bytes[c + 2] as u32)
        * 256 + (bytes[c + 3] as u32);
    *cursor = c + 4;
    Ok(n as usize)
}

/// Writes a length as 4 big-endian bytes; a length beyond `u32` is refused
/// and nothing is written.
fn write_header(len: usize, out: &mut Vec<u8>) -> (r: Result<(), ApexError>)
    ensures
        len <= u32::MAX ==> final(out)@ == old(out)@ + u32_be(len as int),
        len <= u32::MAX ==> r is Ok && final(out)@.len() == old(out)@.len() + 4 && final(out)@.take(
            old(out)@.len() as int,
        ) == old(out)@ && be_u32(final(out)@, old(out)@.len() as int) == len,
        len > u32::MAX ==> (r matches Err(e) && e@
            == "serde.to_bin payload is too large to encode with u32 lengths"@) && final(out)@ == old(out)@,
{
    if len > 4294967295 {
        return Err(ApexError::new(String::from_str("serde.to_bin payload is too large to encode with u32 lengths")));
    }
    let v = len as u32;
    let ghost start = old(out)@;
    out.push((v / 16777216) as u8);
    out.push(((v / 65536) % 256) as u8);
    out.push(((v / 256) % 256) as u8);
    out.push((v % 256) as u8);
    assert(out@.take(start.len() as int) =~= start);
    assert(out@ =~= start + u32_be(len as int));
    Ok(())
}

/// Appends bytes to the output.
fn push_bytes(out: &mut Vec<u8>, b: &[u8])
    ensures
        final(out)@ == old(out)@ + b@,
{
    let ghost start = out@;
    let mut i: usize = 0;
    while i < b.len()
        invariant
            i <= b@.len(),
            out@ == start + b@.take(i as int),
        decreases b@.len() - i,
    {
        out.push(b[i]);
        assert(b@.take(i + 1) =~= b@.take(i as int).push(b@[i as int]));
        i = i + 1;
    }
    assert(b@.take(b@.len() as int) =~= b@);
}

/// Appends the encoding of a value: a tag byte, then its payload. A
/// length beyond `u32` is refused with an error (what was written before
/// it stays written).
pub fn encode_value_binary(value: &BinValue, out: &mut Vec<u8>) -> (r: Result<(), ApexError>)
    ensures
        encodable(bin_v(*value)) ==> r is Ok && final(out)@ == old(out)@ + bin_encode(bin_v(*value))
            && ints_read_back(bin_v(*value)),
        !encodable(bin_v(*value)) ==> (r matches Err(e) && e@
            == "serde.to_bin payload is too large to encode with u32 lengths"@),
    decreases value,
{
    let ghost start = out@;
    match value {
        BinValue::Int(num) => {
            out.push(1);
            let mut bytes = big_to_signed_bytes_be(num);
            if bytes.len() == 0 {
                bytes.push(0);
                proof {
                    assert(bytes@ =~= seq![0u8]);
                    assert(signed_be_value(seq![0u8]) == 0) by {
                        assert(seq![0u8].reverse() =~= seq![0u8]);
                        assert(crate::forge::math::le_value(seq![0u8].drop_first()) == 0);
                    }
                    assert(signed_be_value(Seq::<u8>::empty()) == 0) by {
                        assert(Seq::<u8>::empty().reverse() =~= Seq::<u8>::empty());
                    }
                }
            }
            match write_header(bytes.len(), out) {
                Ok(()) => {},
                Err(e) => return Err(e),
            }
            push_bytes(out, bytes.as_slice());
            proof {
                assert(out@ =~= start + bin_encode(bin_v(*value)));
            }
            Ok(())
        },
        BinValue::Number(bits) => {
            out.push(2);
            let hi: u64 = *bits / 4294967296;
            let lo: u64 = *bits % 4294967296;
            out.push((hi / 16777216) as u8);
            out.push(((hi / 65536) % 256) as u8);
            out.push(((hi / 256) % 256) as u8);
            out.push((hi % 256) as u8);
            out.push((lo / 16777216) as u8);
            out.push(((lo / 65536) % 256) as u8);
            out.push(((lo / 256) % 256) as u8);
            out.push((lo % 256) as u8);
            proof {
                assert(out@ =~= start + bin_encode(bin_v(*value)));
            }
            Ok(())
        },
        BinValue::Bool(flag) => {
            out.push(3);
            out.push(if *flag { 1 } else { 0 });
            proof {
                assert(out@ =~= start + bin_encode(bin_v(*value)));
            }
            Ok(())
        },
        BinValue::String(text) => {
            out.push(4);
            let ts = text.as_str();
            let b = ts.as_bytes();
            proof {
                assert(ts@ == text@);
                assert(b@ == encode_utf8(text@));
            }
            match write_header(b.len(), out) {
                Ok(()) => {},
                Err(e) => return Err(e),
            }
            push_bytes(out, b);
            proof {
                assert(out@ =~= start + bin_encode(bin_v(*value)));
            }
            Ok(())
        },
        BinValue::Tuple(items) => {
            let ghost vs = match bin_v(*value) {
                BinV::Tuple(t) => t,
                _ => Seq::empty(),
            };
            assert(bin_v(*value) == BinV::Tuple(vs));
            assert(vs.len() == items@.len());
            assert(forall|k: int| 0 <= k < items@.len() ==> vs[k] == bin_v(#[trigger] items@[k]));
            out.push(5);
            match write_header(items.len(), out) {
                Ok(()) => {},
                Err(e) => return Err(e),
            }
            let ghost head = out@;
            let mut j: usize = 0;
            proof {
                assert(decreases_to!(*value => *items));
                assert(head =~= head + items_bytes(vs, 0));
            }
            while j < items.len()
                invariant
                    decreases_to!(*value => *items),
                    j <= items@.len(),
                    vs.len() == items@.len(),
                    forall|k: int| 0 <= k < items@.len() ==> vs[k] == bin_v(#[trigger] items@[k]),
                    bin_v(*value) == BinV::Tuple(vs),
                    items@.len() <= u32::MAX,
                    head == start + seq![5u8] + u32_be(items@.len() as int),
                    out@ == head + items_bytes(vs, j as int),
                    forall|k: int| 0 <= k < j ==> encodable(#[trigger] vs[k]) && ints_read_back(vs[k]),
                decreases items@.len() - j,
            {
                proof {
                    assert(decreases_to!(*items => items@));
                    assert(decreases_to!(items@ => items@[j as int]));
                }
                match encode_value_binary(&items[j], out) {
                    Ok(()) => {},
                    Err(e) => {
                        proof {
                            assert(!encodable(vs[j as int]));
                        }
                        return Err(e);
                    },
                }
                proof {
                    assert(out@ =~= head + items_bytes(vs, j + 1));
                }
                j = j + 1;
            }
            proof {
                assert(out@ =~= start + bin_encode(bin_v(*value)));
            }
            Ok(())
        },
    }
}

/// Decodes the value at `pos`: the value and the position after it, or
/// the message of the first error.
pub fn decode_at(bytes: &[u8], pos: usize) -> (r: Result<(BinValue, usize), (ApexError, usize)>)
    ensures
        match bin_decode(bytes@, pos as int) {
            Ok((v, next)) => r matches Ok((w, m)) && bin_v(w) == v && m == next,
            Err(msg) => r matches Err((e, at)) && e@ == msg && at == bin_stop(bytes@, pos as int),
        },
    decreases bytes@.len() - pos, 0int,
{
    proof {
        lemma_decode_advances(bytes@, pos as int);
    }
    if pos >= bytes.len() {
        return Err((ApexError::new(String::from_str("serde.from_bin reached the end of the buffer unexpectedly")), pos));
    }
    let tag = bytes[pos];
    let q = pos + 1;
    if tag == 1 || tag == 4 || tag == 5 {
        let mut c = q;
        let n = match read_header(bytes, &mut c) {
            Ok(n) => n,
            Err(e) => return Err((e, q)),
        };
        let s = c;
        if tag == 1 {
            if n > bytes.len() - s {
                return Err((ApexError::new(String::from_str("serde.from_bin int payload length exceeds buffer")), s));
            }
            let payload = bytes_between(bytes, s, s + n);
            let v = big_from_signed_bytes_be(payload.as_slice());
            Ok((BinValue::Int(v), s + n))
        } else if tag == 4 {
            if n > bytes.len() - s {
                return Err((ApexError::new(String::from_str("serde.from_bin string payload length exceeds buffer")), s));
            }
            let payload = bytes_between(bytes, s, s + n);
            match utf8_string(payload.as_slice()) {
                Some(text) => Ok((BinValue::String(text), s + n)),
                None => Err((ApexError::new(String::from_str("serde.from_bin string payload is not UTF-8")), s + n)),
            }
        } else {
            let mut items: Vec<BinValue> = Vec::new();
            let mut at = s;
            let mut k: usize = 0;
            let ghost b = bytes@;
            proof {
                lemma_items_advance(b, s as int, n as nat);
            }
            while k < n
                invariant
                    b == bytes@,
                    s as int == pos + 5,
                    k <= n,
                    s <= at <= b.len(),
                    n == be_u32(b, pos + 1),
                    b[pos as int] == 5,
                    pos < b.len(),
                    items@.len() == k,
                    bin_decode_items(b, s as int, n as nat) == match bin_decode_items(
                        b,
                        at as int,
                        (n - k) as nat,
                    ) {
                        Ok((vs, e)) => Ok((Seq::new(k as nat, |i: int| bin_v(items@[i])) + vs, e)),
                        Err(m) => Err(m),
                    },
                    bin_items_stop(b, s as int, n as nat) == bin_items_stop(b, at as int, (n - k) as nat),
                decreases n - k,
            {
                proof {
                    lemma_decode_advances(b, at as int);
                }
                let (v, next) = match decode_at(bytes, at) {
                    Ok(pair) => pair,
                    Err(e) => return Err(e),
                };
                proof {
                    assert(bin_items_stop(b, at as int, (n - k) as nat) == bin_items_stop(
                        b,
                        next as int,
                        (n - k - 1) as nat,
                    ));
                }
                let ghost old_items = Seq::new(k as nat, |i: int| bin_v(items@[i]));
                items.push(v);
                proof {
                    assert(Seq::new((k + 1) as nat, |i: int| bin_v(items@[i])) =~= old_items + seq![
                        bin_v(v),
                    ]);
                    let rest = bin_decode_items(b, next as int, (n - k - 1) as nat);
                    assert(bin_decode_items(b, at as int, (n - k) as nat) == match rest {
                        Ok((vs, e)) => Ok((seq![bin_v(v)] + vs, e)),
                        Err(m) => Err(m),
                    });
                    if let Ok((vs, e)) = rest {
                        assert(old_items + (seq![bin_v(v)] + vs) =~= (old_items + seq![bin_v(v)]) + vs);
                    }
                }
                at = next;
                k = k + 1;
            }
            let ghost iv = items@;
            proof {
                assert(Seq::new(k as nat, |i: int| bin_v(iv[i])) + Seq::<BinV>::empty() =~= Seq::new(
                    k as nat,
                    |i: int| bin_v(iv[i]),
                ));
            }
            let result = BinValue::Tuple(items);
            proof {
                let s1 = match bin_v(result) {
                    BinV::Tuple(t) => t,
                    _ => Seq::empty(),
                };
                assert(s1 =~= Seq::new(k as nat, |i: int| bin_v(iv[i])));
            }
            Ok((result, at))
        }
    } else if tag == 2 {
        if bytes.len() - q < 8 {
            return Err((ApexError::new(String::from_str("serde.from_bin number payload is incomplete")), q));
        }
        let hi: u64 = (bytes[q] as u64) * 16777216 + (bytes[q + 1] as u64) * 65536 + (bytes[q + 2] as u64)
            * 256 + (bytes[q + 3] as u64);
        let lo: u64 = (bytes[q + 4] as u64) * 16777216 + (bytes[q + 5] as u64) * 65536 + (bytes[q + 6]
            as u64) * 256 + (bytes[q + 7] as u64);
        Ok((BinValue::Number(hi * 4294967296 + lo), q + 8))
    } else if tag == 3 {
        if q >= bytes.len() {
            return Err((ApexError::new(String::from_str("serde.from_bin bool payload is missing")), q));
        }
        Ok((BinValue::Bool(bytes[q] != 0), q + 1))
    } else {
        Err((ApexError::new(String::from_str("serde.from_bin encountered an unknown tag")), q))
    }
}

/// Decodes the value at the cursor and moves the cursor past it; on an
/// error the cursor stands where the decoding stopped (`bin_stop`)
pub fn decode_value_binary(bytes: &[u8], cursor: &mut usize) -> (r: Result<BinValue, ApexError>)
    ensures
        match bin_decode(bytes@, *old(cursor) as int) {
            Ok((v, next)) => (r matches Ok(w) && bin_v(w) == v) && *final(cursor) == next,
            Err(msg) => (r matches Err(e) && e@ == msg) && *final(cursor) == bin_stop(bytes@, *old(cursor) as int),
        },
{
    match decode_at(bytes, *cursor) {
        Ok((v, next)) => {
            *cursor = next;
            Ok(v)
        },
        Err((e, at)) => {
            *cursor = at;
            Err(e)
        },
    }
}

/// The value the whole of `b` encodes, or the message of the first error;
/// bytes left after the value are an error.
pub open spec fn bin_decode_all(b: Seq<u8>) -> Result<BinV, Seq<char>> {
    match bin_decode(b, 0) {
        Ok((v, next)) => if next == b.len() {
            Ok(v)
        } else {
            Err("serde.from_bin encountered trailing bytes after decoding"@)
        },
        Err(m) => Err(m),
    }
}

/// Decodes the value that the bytes hold, all of them
pub fn from_bin_bytes(bytes: &[u8]) -> (r: Result<BinValue, ApexError>)
    ensures
        match bin_decode_all(bytes@) {
            Ok(v) => r matches Ok(w) && bin_v(w) == v,
            Err(msg) => r matches Err(e) && e@ == msg,
        },
{
    let mut cursor: usize = 0;
    let value = match decode_value_binary(bytes, &mut cursor) {
        Ok(v) => v,
        Err(e) => return Err(e),
    };
    if cursor != bytes.len() {
        return Err(ApexError::new(String::from_str("serde.from_bin encountered trailing bytes after decoding")));
    }
    Ok(value)
}

/// A length written by `write_header` reads back by `read_header`: the
/// four bytes written at the end of the output give the length, and the
/// cursor moves past them.
pub proof fn lemma_written_header_reads_back(out: Seq<u8>, start: int, n: int)
    requires
        0 <= start,
        out.len() == start + 4,
        be_u32(out, start) == n,
    ensures
        length_at(out, start) == Ok::<(int, int), Seq<char>>((n, start + 4)),
{
}

/// Four bytes written for a `u32` read back as it.
proof fn lemma_u32_be_reads(buf: Seq<u8>, q: int, n: int)
    requires
        0 <= n <= u32::MAX,
        0 <= q,
        q + 4 <= buf.len(),
        buf.subrange(q, q + 4) == u32_be(n),
    ensures
        be_u32(buf, q) == n,
{
    assert(buf[q] == u32_be(n)[0]);
    assert(buf[q + 1] == u32_be(n)[1]);
    assert(buf[q + 2] == u32_be(n)[2]);
    assert(buf[q + 3] == u32_be(n)[3]);
    let a = n / 16777216;
    let b = (n / 65536) % 256;
    let c = (n / 256) % 256;
    let d = n % 256;
    assert(a * 16777216 + b * 65536 + c * 256 + d == n);
}

/// The encodings of a non-empty run of items: the first item's, then the
/// rest's.
proof fn lemma_items_bytes_front(items: Seq<BinV>, k: int)
    requires
        1 <= k <= items.len(),
    ensures
        items_bytes(items, k) == bin_encode(items[0]) + items_bytes(items.subrange(1, items.len() as int), k - 1),
    decreases k,
{
    let rest = items.subrange(1, items.len() as int);
    if k == 1 {
        assert(items_bytes(items, 0) == Seq::<u8>::empty());
        assert(items_bytes(rest, 0) == Seq::<u8>::empty());
        assert(items_bytes(items, 1) =~= bin_encode(items[0]));
    } else {
        lemma_items_bytes_front(items, k - 1);
        assert(rest[k - 2] == items[k - 1]);
        assert(items_bytes(items, k) =~= bin_encode(items[0]) + items_bytes(rest, k - 1));
    }
}

/// What `encode_value_binary` writes, `decode_value_binary` reads back:
/// wherever the encoding of a value stands in a buffer, decoding there
/// gives the value and the position right after the encoding. (This holds
/// of every value whose lengths fit in a `u32` and whose integers' bytes
/// stand for them, as `encode_value_binary` ensures when it succeeds.)
#[verifier::rlimit(40)]
pub proof fn lemma_bin_round_trip(v: BinV, pre: Seq<u8>, post: Seq<u8>)
    requires
        encodable(v),
        ints_read_back(v),
    ensures
        bin_decode(pre + bin_encode(v) + post, pre.len() as int) == Ok::<(BinV, int), Seq<char>>(
            (v, (pre.len() + bin_encode(v).len()) as int),
        ),
    decreases v, 0int,
{
    let b = bin_encode(v);
    let buf = pre + b + post;
    let p = pre.len() as int;
    assert(buf[p] == b[0]);
    match v {
        BinV::Int(i) => {
            let payload = int_payload(i);
            let n = payload.len() as int;
            assert(buf.subrange(p + 1, p + 5) =~= u32_be(n));
            lemma_u32_be_reads(buf, p + 1, n);
            assert(buf.subrange(p + 5, p + 5 + n) =~= payload);
        },
        BinV::Number(bits) => {
            let hi = bits as int / 4294967296;
            let lo = bits as int % 4294967296;
            assert(buf.subrange(p + 1, p + 5) =~= u32_be(hi));
            assert(buf.subrange(p + 5, p + 9) =~= u32_be(lo));
            lemma_u32_be_reads(buf, p + 1, hi);
            lemma_u32_be_reads(buf, p + 5, lo);
            assert(be_u64(buf, p + 1) == bits);
        },
        BinV::Bool(f) => {
            assert(buf[p + 1] == b[1]);
        },
        BinV::Str(t) => {
            let bytes = encode_utf8(t);
            let n = bytes.len() as int;
            assert(buf.subrange(p + 1, p + 5) =~= u32_be(n));
            lemma_u32_be_reads(buf, p + 1, n);
            assert(buf.subrange(p + 5, p + 5 + n) =~= bytes);
            vstd::utf8::encode_utf8_valid_utf8(t);
            vstd::utf8::encode_utf8_decode_utf8(t);
        },
        BinV::Tuple(items) => {
            let n = items.len() as int;
            assert(buf.subrange(p + 1, p + 5) =~= u32_be(n));
            lemma_u32_be_reads(buf, p + 1, n);
            let head = pre + seq![5u8] + u32_be(n);
            assert(head + items_bytes(items, n) + post =~= buf);
            lemma_items_round_trip(items, head, post);
        },
    }
}

/// The encodings of items one after another decode, from where they
/// start, as the items, ending right after them.
proof fn lemma_items_round_trip(items: Seq<BinV>, pre: Seq<u8>, post: Seq<u8>)
    requires
        forall|k: int| 0 <= k < items.len() ==> encodable(#[trigger] items[k]) && ints_read_back(items[k]),
    ensures
        bin_decode_items(pre + items_bytes(items, items.len() as int) + post, pre.len() as int, items.len())
            == Ok::<(Seq<BinV>, int), Seq<char>>(
            (items, (pre.len() + items_bytes(items, items.len() as int).len()) as int),
        ),
    decreases items, 0int,
{
    let n = items.len() as int;
    if n == 0 {
        assert(items =~= Seq::<BinV>::empty());
    } else {
        let rest = items.subrange(1, n);
        lemma_items_bytes_front(items, n);
        let e0 = bin_encode(items[0]);
        let rb = items_bytes(rest, n - 1);
        let buf = pre + items_bytes(items, n) + post;
        assert(buf =~= pre + e0 + (rb + post));
        assert(items[0] == items[0]);
        lemma_bin_round_trip(items[0], pre, rb + post);
        assert(buf =~= (pre + e0) + rb + post);
        assert forall|k: int| 0 <= k < rest.len() implies encodable(#[trigger] rest[k]) && ints_read_back(rest[k]) by {
            assert(rest[k] == items[k + 1]);
        }
        lemma_items_round_trip(rest, pre + e0, post);
        assert(seq![items[0]] + rest =~= items);
    }
}

} // verus!
