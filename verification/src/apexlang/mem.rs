//! The byte buffers behind ApexLang's `mem` module: a heap of buffers, each
//! found by a handle, and the operations on ranges of their bytes.
//!
//! A pointer is a handle with an offset into its buffer. Every operation
//! checks its handle and its range, and fails with a message without
//! touching the heap when either is wrong.

use vstd::prelude::*;
use std::collections::HashMap;
use crate::apexlang::error::ApexError;

verus! {

broadcast use vstd::std_specs::hash::group_hash_axioms;

/// A heap by its values: the handle the next buffer gets, and the bytes of
/// each live buffer.
pub struct HeapV {
    pub next_handle: u64,
    pub buffers: Map<u64, Seq<u8>>,
}

/// An item of a byte tuple, by what it holds: an integer that fits in 32
/// bits, a larger or negative integer, or something that is no integer.
#[derive(Debug, Clone, Copy, PartialEq, Eq)]
pub enum ByteArg {
    Small(u32),
    Large,
    Other,
}

/// `n` zero bytes.
pub open spec fn zeros(n: nat) -> Seq<u8> {
    Seq::new(n, |i: int| 0u8)
}

/// Bytes with `len` of them from `off` set to `v`.
pub open spec fn set_range(b: Seq<u8>, off: int, len: int, v: u8) -> Seq<u8> {
    Seq::new(b.len(), |i: int| if off <= i < off + len { v } else { b[i] })
}

/// Bytes with `src` written over them from `off`.
pub open spec fn copy_into(b: Seq<u8>, off: int, src: Seq<u8>) -> Seq<u8> {
    Seq::new(b.len(), |i: int| if off <= i < off + src.len() { src[i - off] } else { b[i] })
}

/// Bytes with the `len` of them from `off` in reverse order.
pub open spec fn reverse_range(b: Seq<u8>, off: int, len: int) -> Seq<u8> {
    Seq::new(b.len(), |i: int| if off <= i < off + len { b[off + len - 1 - (i - off)] } else { b[i] })
}

/// Bytes with `total` of them from `off` set to the pattern, repeated.
pub open spec fn fill_range(b: Seq<u8>, off: int, pattern: Seq<u8>, total: int) -> Seq<u8> {
    Seq::new(
        b.len(),
        |i: int| if off <= i < off + total { pattern[(i - off) % (pattern.len() as int)] } else { b[i] },
    )
}

/// Bytes after swapping, in order, the byte at `l + i` with the one at
/// `r + i` for each `i` below `k`.
pub open spec fn swap_steps(b: Seq<u8>, l: int, r: int, k: nat) -> Seq<u8>
    decreases k,
{
    if k == 0 {
        b
    } else {
        let p = swap_steps(b, l, r, (k - 1) as nat);
        let i = k - 1;
        p.update(l + i, p[r + i]).update(r + i, p[l + i])
    }
}

/// How many bytes equal `v`.
pub open spec fn count_in(s: Seq<u8>, v: u8) -> nat
    decreases s.len(),
{
    if s.len() == 0 {
        0
    } else {
        count_in(s.drop_last(), v) + if s.last() == v { 1nat } else { 0nat }
    }
}

/// The sum of the bytes.
pub open spec fn sum_of(s: Seq<u8>) -> nat
    decreases s.len(),
{
    if s.len() == 0 {
        0
    } else {
        sum_of(s.drop_last()) + (s.last() as nat)
    }
}

/// The order of two byte runs of one length: -1, 0 or 1 by their first
/// difference.
pub open spec fn compare_bytes(l: Seq<u8>, r: Seq<u8>) -> int
    decreases l.len(),
{
    if l.len() == 0 || r.len() == 0 {
        0
    } else if l[0] != r[0] {
        if l[0] < r[0] { -1 } else { 1 }
    } else {
        compare_bytes(l.drop_first(), r.drop_first())
    }
}

/// The index of the first byte equal to `v`, or -1.
pub open spec fn first_byte(s: Seq<u8>, v: u8) -> int
    decreases s.len(),
{
    if s.len() == 0 {
        -1
    } else if s[0] == v {
        0
    } else if first_byte(s.drop_first(), v) < 0 {
        -1
    } else {
        first_byte(s.drop_first(), v) + 1
    }
}

/// Whether a result is the error with this message.
pub open spec fn fails_with<T>(r: Result<T, ApexError>, msg: Seq<char>) -> bool {
    r matches Err(e) && e@ == msg
}

/// Whether a tuple item is a byte.
pub open spec fn is_byte(a: ByteArg) -> bool {
    a matches ByteArg::Small(v) && v <= 255
}

/// The byte each item stands for (zero for an item that is no byte).
pub open spec fn arg_bytes(items: Seq<ByteArg>) -> Seq<u8> {
    items.map_values(|a: ByteArg| match a {
        ByteArg::Small(v) => v as u8,
        _ => 0u8,
    })
}

/// How many items from the first are bytes.
pub open spec fn bytes_prefix(items: Seq<ByteArg>) -> nat
    decreases items.len(),
{
    if items.len() == 0 || !is_byte(items[0]) {
        0
    } else {
        1 + bytes_prefix(items.drop_first())
    }
}

/// The message of a block write at an item that is no byte.
pub open spec fn block_item_error(a: ByteArg) -> Seq<char> {
    match a {
        ByteArg::Small(_) => "mem.write_block expects byte values in the 0-255 range"@,
        ByteArg::Large => "mem.write_block expects byte values"@,
        ByteArg::Other => "mem.write_block expects tuple of integer byte values"@,
    }
}

/// The message of a pattern fill at an item that is no byte.
pub open spec fn pattern_item_error(a: ByteArg) -> Seq<char> {
    match a {
        ByteArg::Other => "mem.fill_pattern expects tuple of integer byte values"@,
        _ => "mem.fill_pattern expects byte values in [0, 255]"@,
    }
}

proof fn lemma_bytes_prefix(items: Seq<ByteArg>)
    ensures
        bytes_prefix(items) <= items.len(),
        forall|i: int| 0 <= i < bytes_prefix(items) ==> is_byte(#[trigger] items[i]),
        bytes_prefix(items) < items.len() ==> !is_byte(items[bytes_prefix(items) as int]),
    decreases items.len(),
{
    if items.len() > 0 && is_byte(items[0]) {
        lemma_bytes_prefix(items.drop_first());
        assert forall|i: int| 0 <= i < bytes_prefix(items) implies is_byte(#[trigger] items[i]) by {
            if i > 0 {
                assert(items[i] == items.drop_first()[i - 1]);
            }
        }
    }
}

proof fn lemma_sum_bound(s: Seq<u8>)
    ensures
        sum_of(s) <= 255 * s.len(),
    decreases s.len(),
{
    if s.len() > 0 {
        lemma_sum_bound(s.drop_last());
    }
}

/// The first index of a byte in `b[from..]`, counted from `from`.
proof fn lemma_first_byte(s: Seq<u8>, v: u8)
    ensures
        -1 <= first_byte(s, v) < s.len(),
        first_byte(s, v) >= 0 ==> s[first_byte(s, v)] == v,
        forall|j: int| 0 <= j < s.len() && (first_byte(s, v) < 0 || j < first_byte(s, v)) ==> s[j] != v,
    decreases s.len(),
{
    if s.len() > 0 {
        lemma_first_byte(s.drop_first(), v);
        assert forall|j: int| 0 <= j < s.len() && (first_byte(s, v) < 0 || j < first_byte(s, v))
            implies s[j] != v by {
            if j > 0 {
                assert(s[j] == s.drop_first()[j - 1]);
            }
        }
    }
}

/// Sets `len` bytes from `off` to `v`.
fn set_bytes(b: &mut Vec<u8>, off: usize, len: usize, v: u8)
    requires
        off + len <= old(b)@.len(),
    ensures
        final(b)@ == set_range(old(b)@, off as int, len as int, v),
{
    let mut i: usize = 0;
    while i < len
        invariant
            off + len <= b@.len() == b.len(),
            i <= len,
            b@ == set_range(old(b)@, off as int, i as int, v),
        decreases len - i,
    {
        b.set(off + i, v);
        proof {
            assert(b@ =~= set_range(old(b)@, off as int, i + 1, v));
        }
        i = i + 1;
    }
}

/// Writes `src` over the bytes from `off`.
fn copy_bytes(b: &mut Vec<u8>, off: usize, src: &Vec<u8>)
    requires
        off + src@.len() <= old(b)@.len(),
    ensures
        final(b)@ == copy_into(old(b)@, off as int, src@),
{
    let mut i: usize = 0;
    while i < src.len()
        invariant
            off + src@.len() <= b@.len() == b.len(),
            i <= src@.len(),
            b@ == copy_into(old(b)@, off as int, src@.take(i as int)),
        decreases src@.len() - i,
    {
        b.set(off + i, src[i]);
        proof {
            assert(b@ =~= copy_into(old(b)@, off as int, src@.take(i + 1)));
        }
        i = i + 1;
    }
    proof {
        assert(src@.take(i as int) =~= src@);
    }
}

/// The `len` bytes from `off`.
fn slice_bytes(b: &Vec<u8>, off: usize, len: usize) -> (r: Vec<u8>)
    requires
        off + len <= b@.len(),
    ensures
        r@ == b@.subrange(off as int, off + len),
{
    let mut r: Vec<u8> = Vec::new();
    let mut i: usize = 0;
    while i < len
        invariant
            off + len <= b@.len() == b.len(),
            i <= len,
            r@ == b@.subrange(off as int, off + i),
        decreases len - i,
    {
        r.push(b[off + i]);
        proof {
            assert(r@ =~= b@.subrange(off as int, off + i + 1));
        }
        i = i + 1;
    }
    r
}

/// Reverses the `len` bytes from `off`.
fn reverse_bytes(b: &mut Vec<u8>, off: usize, len: usize)
    requires
        off + len <= old(b)@.len(),
    ensures
        final(b)@ == reverse_range(old(b)@, off as int, len as int),
{
    let ghost orig = b@;
    let mut i: usize = 0;
    while i < len / 2
        invariant
            off + len <= b@.len() == b.len(),
            b@.len() == orig.len(),
            orig == old(b)@,
            i <= len / 2,
            forall|k: int| 0 <= k < b@.len() ==> #[trigger] b@[k] == (
                if off <= k < off + i || off + len - i <= k < off + len {
                    orig[off + len - 1 - (k - off)]
                } else {
                    orig[k]
                }),
        decreases len / 2 - i,
    {
        let a = b[off + i];
        let z = b[off + len - 1 - i];
        b.set(off + i, z);
        b.set(off + len - 1 - i, a);
        i = i + 1;
    }
    proof {
        assert(b@ =~= reverse_range(orig, off as int, len as int));
    }
}

/// Swaps, in order, the byte at `l + i` with the one at `r + i` for each
/// `i` below `len`.
fn swap_bytes(b: &mut Vec<u8>, l: usize, r: usize, len: usize)
    requires
        l + len <= old(b)@.len(),
        r + len <= old(b)@.len(),
    ensures
        final(b)@ == swap_steps(old(b)@, l as int, r as int, len as nat),
{
    let mut i: usize = 0;
    while i < len
        invariant
            l + len <= b@.len() == b.len(),
            r + len <= b@.len(),
            i <= len,
            b@ == swap_steps(old(b)@, l as int, r as int, i as nat),
        decreases len - i,
    {
        let x = b[l + i];
        let y = b[r + i];
        b.set(l + i, y);
        b.set(r + i, x);
        i = i + 1;
    }
}

/// Sets `total` bytes from `off` to the pattern, repeated.
fn fill_bytes(b: &mut Vec<u8>, off: usize, pattern: &Vec<u8>, total: usize)
    requires
        pattern@.len() > 0,
        off + total <= old(b)@.len(),
    ensures
        final(b)@ == fill_range(old(b)@, off as int, pattern@, total as int),
{
    let mut i: usize = 0;
    while i < total
        invariant
            pattern@.len() > 0,
            off + total <= b@.len() == b.len(),
            i <= total,
            b@ == fill_range(old(b)@, off as int, pattern@, i as int),
        decreases total - i,
    {
        b.set(off + i, pattern[i % pattern.len()]);
        proof {
            assert(b@ =~= fill_range(old(b)@, off as int, pattern@, i + 1));
        }
        i = i + 1;
    }
}

/// The heap of byte buffers.
pub struct BufferHeap {
    next_handle: u64,
    buffers: HashMap<u64, Vec<u8>>,
}

impl View for BufferHeap {
    type V = HeapV;

    closed spec fn view(&self) -> HeapV {
        HeapV { next_handle: self.next_handle, buffers: self.buffers@.map_values(|v: Vec<u8>| v@) }
    }
}

impl BufferHeap {
    /// Every live handle was handed out before the next one.
    pub open spec fn wf(&self) -> bool {
        forall|h: u64| #[trigger] self@.buffers.contains_key(h) ==> h < self@.next_handle
    }

    /// The heap with a buffer's bytes replaced.
    pub open spec fn with_buffer(v: HeapV, handle: u64, bytes: Seq<u8>) -> HeapV {
        HeapV { next_handle: v.next_handle, buffers: v.buffers.insert(handle, bytes) }
    }

    /// An empty heap
    pub fn new() -> (h: Self)
        ensures
            h.wf(),
            h@.next_handle == 0,
            h@.buffers == Map::<u64, Seq<u8>>::empty(),
    {
        let h = BufferHeap { next_handle: 0, buffers: HashMap::new() };
        assert(h@.buffers =~= Map::<u64, Seq<u8>>::empty());
        h
    }

    /// The bytes of a live buffer (the view of the stored vector).
    proof fn lemma_bytes(&self, handle: u64)
        requires
            self.buffers@.contains_key(handle),
        ensures
            self@.buffers.contains_key(handle),
            self@.buffers[handle] == self.buffers@[handle]@,
    {
    }

    /// The buffer of a handle, or the error for an unknown handle
    fn buffer(&self, handle: u64, message: &str) -> (r: Result<&Vec<u8>, ApexError>)
        ensures
            self@.buffers.contains_key(handle) ==> (r matches Ok(b) && b@ == self@.buffers[handle]),
            !self@.buffers.contains_key(handle) ==> fails_with(r, message@),
    {
        match self.buffers.get(&handle) {
            Some(b) => Ok(b),
            None => Err(ApexError::new(String::from_str(message))),
        }
    }

    /// Replaces the bytes of a live buffer
    fn put(&mut self, handle: u64, bytes: Vec<u8>)
        requires
            old(self).wf(),
            old(self)@.buffers.contains_key(handle),
        ensures
            final(self).wf(),
            final(self)@ == Self::with_buffer(old(self)@, handle, bytes@),
    {
        let ghost b = bytes@;
        self.buffers.insert(handle, bytes);
        proof {
            assert(self@.buffers =~= old(self)@.buffers.insert(handle, b));
        }
    }

    /// Allocates a buffer of `size` zero bytes: a pointer to its start
    pub fn alloc_bytes(&mut self, size: usize) -> (p: (u64, usize))
        requires
            old(self).wf(),
            old(self)@.next_handle < u64::MAX,
        ensures
            final(self).wf(),
            p == (old(self)@.next_handle, 0usize),
            !old(self)@.buffers.contains_key(p.0),
            final(self)@ == (HeapV {
                next_handle: (old(self)@.next_handle + 1) as u64,
                buffers: old(self)@.buffers.insert(p.0, zeros(size as nat)),
            }),
    {
        let handle = self.next_handle;
        self.next_handle = self.next_handle + 1;
        let bytes: Vec<u8> = vec![0u8; size];
        proof {
            assert(bytes@ =~= zeros(size as nat));
        }
        self.buffers.insert(handle, bytes);
        proof {
            assert(self@.buffers =~= old(self)@.buffers.insert(handle, zeros(size as nat)));
        }
        (handle, 0)
    }

    /// Frees a buffer: whether it was live
    pub fn free_bytes(&mut self, handle: u64) -> (b: bool)
        requires
            old(self).wf(),
        ensures
            final(self).wf(),
            b == old(self)@.buffers.contains_key(handle),
            final(self)@ == (HeapV {
                next_handle: old(self)@.next_handle,
                buffers: old(self)@.buffers.remove(handle),
            }),
    {
        let r = self.buffers.remove(&handle);
        proof {
            assert(self@.buffers =~= old(self)@.buffers.remove(handle));
        }
        r.is_some()
    }

    /// The length of a buffer
    pub fn buffer_len(&self, handle: u64) -> (r: Result<usize, ApexError>)
        ensures
            self@.buffers.contains_key(handle) ==> r == Ok::<usize, ApexError>(self@.buffers[handle].len() as usize),
            !self@.buffers.contains_key(handle) ==> fails_with(r, "Unknown buffer handle"@),
    {
        match self.buffer(handle, "Unknown buffer handle") {
            Ok(b) => Ok(b.len()),
            Err(e) => Err(e),
        }
    }

    /// A pointer `delta` bytes further into the same buffer, up to its end
    pub fn pointer_offset(&self, handle: u64, offset: usize, delta: usize) -> (r: Result<(u64, usize), ApexError>)
        requires
            offset + delta <= usize::MAX,
        ensures
            !self@.buffers.contains_key(handle) ==> fails_with(r, "Unknown buffer handle"@),
            self@.buffers.contains_key(handle) && offset + delta > self@.buffers[handle].len()
                ==> fails_with(r, "Pointer offset exceeds buffer length"@),
            self@.buffers.contains_key(handle) && offset + delta <= self@.buffers[handle].len()
                ==> r == Ok::<(u64, usize), ApexError>((handle, (offset + delta) as usize)),
    {
        let len = match self.buffer(handle, "Unknown buffer handle") {
            Ok(b) => b.len(),
            Err(e) => return Err(e),
        };
        let new_offset = offset + delta;
        if new_offset > len {
            return Err(ApexError::new(String::from_str("Pointer offset exceeds buffer length")));
        }
        Ok((handle, new_offset))
    }

    /// Writes one byte
    pub fn write_byte(&mut self, handle: u64, offset: usize, value: u32) -> (r: Result<(), ApexError>)
        requires
            old(self).wf(),
        ensures
            final(self).wf(),
            r is Err ==> final(self)@ == old(self)@,
            value > 255 ==> fails_with(r, "write_byte expects a value between 0 and 255"@),
            value <= 255 && !old(self)@.buffers.contains_key(handle) ==> fails_with(r, "Unknown buffer handle"@),
            value <= 255 && old(self)@.buffers.contains_key(handle) && offset >= old(self)@.buffers[handle].len()
                ==> fails_with(r, "Pointer offset exceeds buffer length"@),
            value <= 255 && old(self)@.buffers.contains_key(handle) && offset < old(self)@.buffers[handle].len()
                ==> r is Ok && final(self)@ == Self::with_buffer(
                    old(self)@,
                    handle,
                    old(self)@.buffers[handle].update(offset as int, value as u8),
                ),
    {
        if value > 255 {
            return Err(ApexError::new(String::from_str("write_byte expects a value between 0 and 255")));
        }
        let len = match self.buffer(handle, "Unknown buffer handle") {
            Ok(b) => b.len(),
            Err(e) => return Err(e),
        };
        if offset >= len {
            return Err(ApexError::new(String::from_str("Pointer offset exceeds buffer length")));
        }
        let mut bytes = match self.buffers.remove(&handle) {
            Some(b) => b,
            None => return Err(ApexError::new(String::from_str("Unknown buffer handle"))),
        };
        bytes.set(offset, value as u8);
        let ghost after = bytes@;
        proof {
            assert(after =~= old(self)@.buffers[handle].update(offset as int, value as u8));
        }
        self.buffers.insert(handle, bytes);
        proof {
            assert(self@.buffers =~= old(self)@.buffers.insert(handle, after));
        }
        Ok(())
    }

    /// Reads one byte
    pub fn read_byte(&self, handle: u64, offset: usize) -> (r: Result<u8, ApexError>)
        ensures
            !self@.buffers.contains_key(handle) ==> fails_with(r, "Unknown buffer handle"@),
            self@.buffers.contains_key(handle) && offset >= self@.buffers[handle].len()
                ==> fails_with(r, "Pointer offset exceeds buffer length"@),
            self@.buffers.contains_key(handle) && offset < self@.buffers[handle].len()
                ==> r == Ok::<u8, ApexError>(self@.buffers[handle][offset as int]),
    {
        let b = match self.buffer(handle, "Unknown buffer handle") {
            Ok(b) => b,
            Err(e) => return Err(e),
        };
        if offset >= b.len() {
            return Err(ApexError::new(String::from_str("Pointer offset exceeds buffer length")));
        }
        Ok(b[offset])
    }

    /// Takes a live buffer out of the heap
    fn take(&mut self, handle: u64) -> (b: Vec<u8>)
        requires
            old(self).wf(),
            old(self)@.buffers.contains_key(handle),
        ensures
            final(self).wf(),
            b@ == old(self)@.buffers[handle],
            final(self)@.next_handle == old(self)@.next_handle,
            final(self)@.buffers == old(self)@.buffers.remove(handle),
            handle < final(self)@.next_handle,
    {
        let r = self.buffers.remove(&handle);
        proof {
            assert(self@.buffers =~= old(self)@.buffers.remove(handle));
        }
        match r {
            Some(b) => b,
            None => Vec::new(),
        }
    }

    /// Puts a buffer back under a handle handed out before
    fn restore(&mut self, handle: u64, bytes: Vec<u8>)
        requires
            old(self).wf(),
            handle < old(self)@.next_handle,
        ensures
            final(self).wf(),
            final(self)@.next_handle == old(self)@.next_handle,
            final(self)@.buffers == old(self)@.buffers.insert(handle, bytes@),
    {
        let ghost b = bytes@;
        self.buffers.insert(handle, bytes);
        proof {
            assert(self@.buffers =~= old(self)@.buffers.insert(handle, b));
        }
    }

    /// Sets `len` bytes from a pointer to `value`
    pub fn memset(&mut self, handle: u64, offset: usize, value: u32, len: usize) -> (r: Result<(), ApexError>)
        requires
            old(self).wf(),
            offset + len <= usize::MAX,
        ensures
            final(self).wf(),
            r is Err ==> final(self)@ == old(self)@,
            value > 255 ==> fails_with(r, "memset expects a value between 0 and 255"@),
            value <= 255 && !old(self)@.buffers.contains_key(handle) ==> fails_with(r, "Unknown buffer handle"@),
            value <= 255 && old(self)@.buffers.contains_key(handle) && offset + len > old(self)@.buffers[handle].len()
                ==> fails_with(r, "memset exceeds buffer length"@),
            value <= 255 && old(self)@.buffers.contains_key(handle) && offset + len <= old(self)@.buffers[handle].len()
                ==> r is Ok && final(self)@ == Self::with_buffer(
                    old(self)@,
                    handle,
                    set_range(old(self)@.buffers[handle], offset as int, len as int, value as u8),
                ),
    {
        if value > 255 {
            return Err(ApexError::new(String::from_str("memset expects a value between 0 and 255")));
        }
        let blen = match self.buffer(handle, "Unknown buffer handle") {
            Ok(b) => b.len(),
            Err(e) => return Err(e),
        };
        if offset + len > blen {
            return Err(ApexError::new(String::from_str("memset exceeds buffer length")));
        }
        let mut bytes = self.take(handle);
        set_bytes(&mut bytes, offset, len, value as u8);
        self.restore(handle, bytes);
        proof {
            assert(self@.buffers =~= old(self)@.buffers.insert(handle, set_range(old(self)@.buffers[handle], offset as int, len as int, value as u8)));
        }
        Ok(())
    }

    /// Copies `len` bytes from the source pointer to the destination
    pub fn memcpy(
        &mut self,
        dst_handle: u64,
        dst_offset: usize,
        src_handle: u64,
        src_offset: usize,
        len: usize,
    ) -> (r: Result<(), ApexError>)
        requires
            old(self).wf(),
            dst_offset + len <= usize::MAX,
            src_offset + len <= usize::MAX,
        ensures
            final(self).wf(),
            r is Err ==> final(self)@ == old(self)@,
            !old(self)@.buffers.contains_key(src_handle) ==> fails_with(r, "Unknown source buffer handle"@),
            old(self)@.buffers.contains_key(src_handle) && src_offset + len > old(self)@.buffers[src_handle].len()
                ==> fails_with(r, "memcpy exceeds source buffer length"@),
            old(self)@.buffers.contains_key(src_handle) && src_offset + len <= old(self)@.buffers[src_handle].len()
                && !old(self)@.buffers.contains_key(dst_handle)
                ==> fails_with(r, "Unknown destination buffer handle"@),
            old(self)@.buffers.contains_key(src_handle) && src_offset + len <= old(self)@.buffers[src_handle].len()
                && old(self)@.buffers.contains_key(dst_handle)
                && dst_offset + len > old(self)@.buffers[dst_handle].len()
                ==> fails_with(r, "memcpy exceeds destination buffer length"@),
            old(self)@.buffers.contains_key(src_handle) && src_offset + len <= old(self)@.buffers[src_handle].len()
                && old(self)@.buffers.contains_key(dst_handle)
                && dst_offset + len <= old(self)@.buffers[dst_handle].len()
                ==> r is Ok && final(self)@ == Self::with_buffer(
                    old(self)@,
                    dst_handle,
                    copy_into(
                        old(self)@.buffers[dst_handle],
                        dst_offset as int,
                        old(self)@.buffers[src_handle].subrange(src_offset as int, src_offset + len),
                    ),
                ),
    {
        let temp = match self.buffer(src_handle, "Unknown source buffer handle") {
            Ok(src) => {
                if src_offset + len > src.len() {
                    return Err(ApexError::new(String::from_str("memcpy exceeds source buffer length")));
                }
                slice_bytes(src, src_offset, len)
            },
            Err(e) => return Err(e),
        };
        let dlen = match self.buffer(dst_handle, "Unknown destination buffer handle") {
            Ok(d) => d.len(),
            Err(e) => return Err(e),
        };
        if dst_offset + len > dlen {
            return Err(ApexError::new(String::from_str("memcpy exceeds destination buffer length")));
        }
        let mut bytes = self.take(dst_handle);
        copy_bytes(&mut bytes, dst_offset, &temp);
        let ghost after = bytes@;
        self.restore(dst_handle, bytes);
        proof {
            assert(self@.buffers =~= old(self)@.buffers.insert(dst_handle, after));
        }
        Ok(())
    }

    /// The `len` bytes from a pointer
    pub fn read_block(&self, handle: u64, offset: usize, len: usize) -> (r: Result<Vec<u8>, ApexError>)
        requires
            offset + len <= usize::MAX,
        ensures
            !self@.buffers.contains_key(handle) ==> fails_with(r, "Unknown buffer handle"@),
            self@.buffers.contains_key(handle) && offset + len > self@.buffers[handle].len()
                ==> fails_with(r, "mem.read_block exceeds buffer length"@),
            self@.buffers.contains_key(handle) && offset + len <= self@.buffers[handle].len()
                ==> (r matches Ok(v) && v@ == self@.buffers[handle].subrange(offset as int, offset + len)),
    {
        let b = match self.buffer(handle, "Unknown buffer handle") {
            Ok(b) => b,
            Err(e) => return Err(e),
        };
        if offset + len > b.len() {
            return Err(ApexError::new(String::from_str("mem.read_block exceeds buffer length")));
        }
        Ok(slice_bytes(b, offset, len))
    }

    /// Writes the items of a tuple as bytes from a pointer, in order, up to
    /// the first item that is no byte
    pub fn write_block(&mut self, handle: u64, offset: usize, items: &Vec<ByteArg>) -> (r: Result<(), ApexError>)
        requires
            old(self).wf(),
            offset + items@.len() <= usize::MAX,
        ensures
            final(self).wf(),
            !old(self)@.buffers.contains_key(handle) ==> fails_with(r, "Unknown buffer handle"@) && final(self)@ == old(self)@,
            old(self)@.buffers.contains_key(handle) && offset + items@.len() > old(self)@.buffers[handle].len()
                ==> fails_with(r, "mem.write_block exceeds buffer length"@) && final(self)@ == old(self)@,
            old(self)@.buffers.contains_key(handle) && offset + items@.len() <= old(self)@.buffers[handle].len() ==> {
                let k = bytes_prefix(items@);
                &&& final(self)@ == Self::with_buffer(
                    old(self)@,
                    handle,
                    copy_into(old(self)@.buffers[handle], offset as int, arg_bytes(items@).take(k as int)),
                )
                &&& k == items@.len() ==> r is Ok
                &&& k < items@.len() ==> fails_with(r, block_item_error(items@[k as int]))
            },
    {
        let blen = match self.buffer(handle, "Unknown buffer handle") {
            Ok(b) => b.len(),
            Err(e) => return Err(e),
        };
        if offset + items.len() > blen {
            return Err(ApexError::new(String::from_str("mem.write_block exceeds buffer length")));
        }
        proof {
            lemma_bytes_prefix(items@);
        }
        let ghost orig = old(self)@.buffers[handle];
        let mut bytes = self.take(handle);
        let mut i: usize = 0;
        let mut failure: Option<ApexError> = None;
        while i < items.len()
            invariant
                offset + items@.len() <= bytes@.len() == bytes.len(),
                orig.len() == bytes@.len(),
                i <= bytes_prefix(items@) <= items@.len(),
                forall|j: int| 0 <= j < bytes_prefix(items@) ==> is_byte(#[trigger] items@[j]),
                bytes_prefix(items@) < items@.len() ==> !is_byte(items@[bytes_prefix(items@) as int]),
                bytes@ == copy_into(orig, offset as int, arg_bytes(items@).take(i as int)),
                failure matches Some(e) ==> i == bytes_prefix(items@) && i < items@.len() && e@ == block_item_error(items@[i as int]),
            ensures
                failure is None ==> i == items@.len(),
            decreases items@.len() - i,
        {
            let byte = match items[i] {
                ByteArg::Small(v) => {
                    if v > 255 {
                        failure = Some(ApexError::new(String::from_str("mem.write_block expects byte values in the 0-255 range")));
                        break;
                    }
                    v as u8
                },
                ByteArg::Large => {
                    failure = Some(ApexError::new(String::from_str("mem.write_block expects byte values")));
                    break;
                },
                ByteArg::Other => {
                    failure = Some(ApexError::new(String::from_str("mem.write_block expects tuple of integer byte values")));
                    break;
                },
            };
            bytes.set(offset + i, byte);
            proof {
                assert(bytes@ =~= copy_into(orig, offset as int, arg_bytes(items@).take(i + 1)));
            }
            i = i + 1;
        }
        let ghost after = bytes@;
        self.restore(handle, bytes);
        proof {
            assert(self@.buffers =~= old(self)@.buffers.insert(handle, after));
        }
        match failure {
            Some(e) => Err(e),
            None => Ok(()),
        }
    }

    /// The order of two runs of `len` bytes: -1, 0 or 1 by their first
    /// difference
    pub fn compare_regions(
        &self,
        left_handle: u64,
        left_offset: usize,
        right_handle: u64,
        right_offset: usize,
        len: usize,
    ) -> (r: Result<i32, ApexError>)
        requires
            left_offset + len <= usize::MAX,
            right_offset + len <= usize::MAX,
        ensures
            !self@.buffers.contains_key(left_handle) ==> fails_with(r, "Unknown left buffer handle"@),
            self@.buffers.contains_key(left_handle) && !self@.buffers.contains_key(right_handle)
                ==> fails_with(r, "Unknown right buffer handle"@),
            self@.buffers.contains_key(left_handle) && self@.buffers.contains_key(right_handle) ==> {
                let l = self@.buffers[left_handle];
                let rb = self@.buffers[right_handle];
                &&& (left_offset + len > l.len() || right_offset + len > rb.len())
                    ==> fails_with(r, "mem.compare exceeds buffer bounds"@)
                &&& (left_offset + len <= l.len() && right_offset + len <= rb.len()) ==> r == Ok::<i32, ApexError>(
                    compare_bytes(
                        l.subrange(left_offset as int, left_offset + len),
                        rb.subrange(right_offset as int, right_offset + len),
                    ) as i32,
                )
            },
    {
        let left = match self.buffer(left_handle, "Unknown left buffer handle") {
            Ok(b) => b,
            Err(e) => return Err(e),
        };
        let right = match self.buffer(right_handle, "Unknown right buffer handle") {
            Ok(b) => b,
            Err(e) => return Err(e),
        };
        if left_offset + len > left.len() || right_offset + len > right.len() {
            return Err(ApexError::new(String::from_str("mem.compare exceeds buffer bounds")));
        }
        let ghost ls = left@.subrange(left_offset as int, left_offset + len);
        let ghost rs = right@.subrange(right_offset as int, right_offset + len);
        proof {
            assert(ls.skip(0) =~= ls);
            assert(rs.skip(0) =~= rs);
        }
        let mut idx: usize = 0;
        while idx < len
            invariant
                left_offset + len <= left@.len() == left.len(),
                right_offset + len <= right@.len() == right.len(),
                ls == left@.subrange(left_offset as int, left_offset + len),
                rs == right@.subrange(right_offset as int, right_offset + len),
                self@.buffers.contains_key(left_handle),
                self@.buffers.contains_key(right_handle),
                left@ == self@.buffers[left_handle],
                right@ == self@.buffers[right_handle],
                idx <= len,
                compare_bytes(ls, rs) == compare_bytes(ls.skip(idx as int), rs.skip(idx as int)),
            decreases len - idx,
        {
            let l = left[left_offset + idx];
            let rr = right[right_offset + idx];
            proof {
                assert(ls.skip(idx as int)[0] == l);
                assert(rs.skip(idx as int)[0] == rr);
                assert(ls.skip(idx as int).drop_first() =~= ls.skip(idx + 1));
                assert(rs.skip(idx as int).drop_first() =~= rs.skip(idx + 1));
            }
            if l != rr {
                let ordering: i32 = if l < rr { -1 } else { 1 };
                return Ok(ordering);
            }
            idx = idx + 1;
        }
        Ok(0)
    }

    /// The position of the first byte equal to `target` from a pointer on,
    /// or None
    pub fn find_byte(&self, handle: u64, offset: usize, target: u32) -> (r: Result<Option<usize>, ApexError>)
        ensures
            target > 255 ==> fails_with(r, "mem.find_byte expects a byte value"@),
            target <= 255 && !self@.buffers.contains_key(handle) ==> fails_with(r, "Unknown buffer handle"@),
            target <= 255 && self@.buffers.contains_key(handle) && offset >= self@.buffers[handle].len()
                ==> fails_with(r, "mem.find_byte offset exceeds buffer length"@),
            target <= 255 && self@.buffers.contains_key(handle) && offset < self@.buffers[handle].len() ==> {
                let f = first_byte(self@.buffers[handle].skip(offset as int), target as u8);
                &&& f < 0 ==> r == Ok::<Option<usize>, ApexError>(None)
                &&& f >= 0 ==> r == Ok::<Option<usize>, ApexError>(Some((offset + f) as usize))
            },
    {
        if target > 255 {
            return Err(ApexError::new(String::from_str("mem.find_byte expects a byte value")));
        }
        let b = match self.buffer(handle, "Unknown buffer handle") {
            Ok(b) => b,
            Err(e) => return Err(e),
        };
        if offset >= b.len() {
            return Err(ApexError::new(String::from_str("mem.find_byte offset exceeds buffer length")));
        }
        let ghost t = b@.skip(offset as int);
        proof {
            lemma_first_byte(t, target as u8);
        }
        let mut i = offset;
        while i < b.len()
            invariant
                offset <= i <= b@.len() == b.len(),
                offset < b@.len(),
                target <= 255,
                self@.buffers.contains_key(handle),
                b@ == self@.buffers[handle],
                t == b@.skip(offset as int),
                forall|j: int| offset <= j < i ==> b@[j] != target as u8,
            decreases b@.len() - i,
        {
            if b[i] == target as u8 {
                proof {
                    lemma_first_byte(t, target as u8);
                    let f = first_byte(t, target as u8);
                    assert(t[i - offset] == target as u8);
                    if 0 <= f < i - offset {
                        assert(t[f] == b@[f + offset]);
                    }
                }
                return Ok(Some(i));
            }
            i = i + 1;
        }
        proof {
            let f = first_byte(t, target as u8);
            if f >= 0 {
                assert(t[f] == b@[f + offset]);
            }
        }
        Ok(None)
    }

    /// The sum of `len` bytes from a pointer
    pub fn checksum_region(&self, handle: u64, offset: usize, len: usize) -> (r: Result<u128, ApexError>)
        requires
            offset + len <= usize::MAX,
        ensures
            !self@.buffers.contains_key(handle) ==> fails_with(r, "Unknown buffer handle"@),
            self@.buffers.contains_key(handle) && offset + len > self@.buffers[handle].len()
                ==> fails_with(r, "mem.checksum exceeds buffer length"@),
            self@.buffers.contains_key(handle) && offset + len <= self@.buffers[handle].len()
                ==> r == Ok::<u128, ApexError>(sum_of(self@.buffers[handle].subrange(offset as int, offset + len)) as u128),
    {
        let b = match self.buffer(handle, "Unknown buffer handle") {
            Ok(b) => b,
            Err(e) => return Err(e),
        };
        if offset + len > b.len() {
            return Err(ApexError::new(String::from_str("mem.checksum exceeds buffer length")));
        }
        let mut sum: u128 = 0;
        let mut i: usize = 0;
        while i < len
            invariant
                offset + len <= b@.len() == b.len(),
                i <= len,
                sum == sum_of(b@.subrange(offset as int, offset + i)),
            decreases len - i,
        {
            proof {
                let s = b@.subrange(offset as int, offset + i + 1);
                assert(s.drop_last() =~= b@.subrange(offset as int, offset + i));
                lemma_sum_bound(s.drop_last());
                assert(255 * i <= 255 * (u64::MAX as int)) by (nonlinear_arith)
                    requires i <= u64::MAX;
            }
            sum = sum + b[offset + i] as u128;
            i = i + 1;
        }
        Ok(sum)
    }

    /// How many of `len` bytes from a pointer equal `byte`
    pub fn count_byte(&self, handle: u64, offset: usize, len: usize, byte: u32) -> (r: Result<usize, ApexError>)
        requires
            offset + len <= usize::MAX,
        ensures
            byte > 255 ==> fails_with(r, "mem.count_byte expects byte in [0, 255]"@),
            byte <= 255 && !self@.buffers.contains_key(handle) ==> fails_with(r, "Unknown buffer handle"@),
            byte <= 255 && self@.buffers.contains_key(handle) && offset + len > self@.buffers[handle].len()
                ==> fails_with(r, "mem.count_byte exceeds buffer length"@),
            byte <= 255 && self@.buffers.contains_key(handle) && offset + len <= self@.buffers[handle].len()
                ==> r == Ok::<usize, ApexError>(count_in(self@.buffers[handle].subrange(offset as int, offset + len), byte as u8) as usize),
    {
        if byte > 255 {
            return Err(ApexError::new(String::from_str("mem.count_byte expects byte in [0, 255]")));
        }
        let b = match self.buffer(handle, "Unknown buffer handle") {
            Ok(b) => b,
            Err(e) => return Err(e),
        };
        if offset + len > b.len() {
            return Err(ApexError::new(String::from_str("mem.count_byte exceeds buffer length")));
        }
        let mut count: usize = 0;
        let mut i: usize = 0;
        while i < len
            invariant
                offset + len <= b@.len() == b.len(),
                i <= len,
                count == count_in(b@.subrange(offset as int, offset + i), byte as u8),
                count <= i,
            decreases len - i,
        {
            proof {
                let s = b@.subrange(offset as int, offset + i + 1);
                assert(s.drop_last() =~= b@.subrange(offset as int, offset + i));
            }
            if b[offset + i] == byte as u8 {
                count = count + 1;
            }
            i = i + 1;
        }
        Ok(count)
    }

    /// Reverses `len` bytes from a pointer
    pub fn reverse_block(&mut self, handle: u64, offset: usize, len: usize) -> (r: Result<(), ApexError>)
        requires
            old(self).wf(),
            offset + len <= usize::MAX,
        ensures
            final(self).wf(),
            r is Err ==> final(self)@ == old(self)@,
            !old(self)@.buffers.contains_key(handle) ==> fails_with(r, "Unknown buffer handle"@),
            old(self)@.buffers.contains_key(handle) && offset + len > old(self)@.buffers[handle].len()
                ==> fails_with(r, "reverse_block exceeds buffer length"@),
            old(self)@.buffers.contains_key(handle) && offset + len <= old(self)@.buffers[handle].len()
                ==> r is Ok && final(self)@ == Self::with_buffer(
                    old(self)@,
                    handle,
                    reverse_range(old(self)@.buffers[handle], offset as int, len as int),
                ),
    {
        let blen = match self.buffer(handle, "Unknown buffer handle") {
            Ok(b) => b.len(),
            Err(e) => return Err(e),
        };
        if offset + len > blen {
            return Err(ApexError::new(String::from_str("reverse_block exceeds buffer length")));
        }
        let mut bytes = self.take(handle);
        reverse_bytes(&mut bytes, offset, len);
        let ghost after = bytes@;
        self.restore(handle, bytes);
        proof {
            assert(self@.buffers =~= old(self)@.buffers.insert(handle, after));
        }
        Ok(())
    }

    /// Exchanges `len` bytes between two pointers. Within one buffer the
    /// pairs of bytes are swapped one after the other, from the first.
    pub fn swap_ranges(
        &mut self,
        left_handle: u64,
        left_offset: usize,
        right_handle: u64,
        right_offset: usize,
        len: usize,
    ) -> (r: Result<(), ApexError>)
        requires
            old(self).wf(),
            left_offset + len <= usize::MAX,
            right_offset + len <= usize::MAX,
        ensures
            final(self).wf(),
            r is Err ==> final(self)@ == old(self)@,
            len == 0 ==> r is Ok && final(self)@ == old(self)@,
            len > 0 && left_handle == right_handle ==> {
                let h = left_handle;
                &&& !old(self)@.buffers.contains_key(h) ==> fails_with(r, "Unknown buffer handle"@)
                &&& old(self)@.buffers.contains_key(h) && (left_offset + len > old(self)@.buffers[h].len()
                    || right_offset + len > old(self)@.buffers[h].len())
                    ==> fails_with(r, "swap_ranges exceeds buffer length"@)
                &&& old(self)@.buffers.contains_key(h) && left_offset + len <= old(self)@.buffers[h].len()
                    && right_offset + len <= old(self)@.buffers[h].len()
                    ==> r is Ok && final(self)@ == Self::with_buffer(
                        old(self)@,
                        h,
                        swap_steps(old(self)@.buffers[h], left_offset as int, right_offset as int, len as nat),
                    )
            },
            len > 0 && left_handle != right_handle ==> {
                let bl = old(self)@.buffers[left_handle];
                let br = old(self)@.buffers[right_handle];
                &&& !old(self)@.buffers.contains_key(left_handle) ==> fails_with(r, "Unknown buffer handle"@)
                &&& old(self)@.buffers.contains_key(left_handle) && left_offset + len > bl.len()
                    ==> fails_with(r, "swap_ranges exceeds left buffer length"@)
                &&& old(self)@.buffers.contains_key(left_handle) && left_offset + len <= bl.len()
                    && !old(self)@.buffers.contains_key(right_handle)
                    ==> fails_with(r, "Unknown buffer handle"@)
                &&& old(self)@.buffers.contains_key(left_handle) && left_offset + len <= bl.len()
                    && old(self)@.buffers.contains_key(right_handle) && right_offset + len > br.len()
                    ==> fails_with(r, "swap_ranges exceeds right buffer length"@)
                &&& old(self)@.buffers.contains_key(left_handle) && left_offset + len <= bl.len()
                    && old(self)@.buffers.contains_key(right_handle) && right_offset + len <= br.len()
                    ==> r is Ok && final(self)@ == Self::with_buffer(
                        Self::with_buffer(
                            old(self)@,
                            left_handle,
                            copy_into(bl, left_offset as int, br.subrange(right_offset as int, right_offset + len)),
                        ),
                        right_handle,
                        copy_into(br, right_offset as int, bl.subrange(left_offset as int, left_offset + len)),
                    )
            },
    {
        if len == 0 {
            return Ok(());
        }
        if left_handle == right_handle {
            let blen = match self.buffer(left_handle, "Unknown buffer handle") {
                Ok(b) => b.len(),
                Err(e) => return Err(e),
            };
            if left_offset + len > blen || right_offset + len > blen {
                return Err(ApexError::new(String::from_str("swap_ranges exceeds buffer length")));
            }
            let mut bytes = self.take(left_handle);
            swap_bytes(&mut bytes, left_offset, right_offset, len);
            let ghost after = bytes@;
            self.restore(left_handle, bytes);
            proof {
                assert(self@.buffers =~= old(self)@.buffers.insert(left_handle, after));
            }
            return Ok(());
        }
        let left_bytes = match self.buffer(left_handle, "Unknown buffer handle") {
            Ok(b) => {
                if left_offset + len > b.len() {
                    return Err(ApexError::new(String::from_str("swap_ranges exceeds left buffer length")));
                }
                slice_bytes(b, left_offset, len)
            },
            Err(e) => return Err(e),
        };
        let right_bytes = match self.buffer(right_handle, "Unknown buffer handle") {
            Ok(b) => {
                if right_offset + len > b.len() {
                    return Err(ApexError::new(String::from_str("swap_ranges exceeds right buffer length")));
                }
                slice_bytes(b, right_offset, len)
            },
            Err(e) => return Err(e),
        };
        let ghost mid0 = self@;
        let mut left = self.take(left_handle);
        copy_bytes(&mut left, left_offset, &right_bytes);
        let ghost left_after = left@;
        self.restore(left_handle, left);
        proof {
            assert(self@.buffers =~= mid0.buffers.insert(left_handle, left_after));
        }
        let ghost mid1 = self@;
        let mut right = self.take(right_handle);
        copy_bytes(&mut right, right_offset, &left_bytes);
        let ghost right_after = right@;
        self.restore(right_handle, right);
        proof {
            assert(self@.buffers =~= mid1.buffers.insert(right_handle, right_after));
        }
        Ok(())
    }

    /// Fills `repeat` copies of a byte pattern from a pointer
    pub fn fill_pattern(&mut self, handle: u64, offset: usize, items: &Vec<ByteArg>, repeat: usize) -> (r: Result<(), ApexError>)
        requires
            old(self).wf(),
            offset + items@.len() * repeat <= usize::MAX,
        ensures
            final(self).wf(),
            r is Err ==> final(self)@ == old(self)@,
            items@.len() == 0 ==> fails_with(r, "mem.fill_pattern expects non-empty pattern tuple"@),
            items@.len() > 0 && bytes_prefix(items@) < items@.len()
                ==> fails_with(r, pattern_item_error(items@[bytes_prefix(items@) as int])),
            items@.len() > 0 && bytes_prefix(items@) == items@.len() ==> {
                let total = items@.len() * repeat;
                &&& !old(self)@.buffers.contains_key(handle) ==> fails_with(r, "Unknown buffer handle"@)
                &&& old(self)@.buffers.contains_key(handle) && offset + total > old(self)@.buffers[handle].len()
                    ==> fails_with(r, "mem.fill_pattern exceeds buffer length"@)
                &&& old(self)@.buffers.contains_key(handle) && offset + total <= old(self)@.buffers[handle].len()
                    ==> r is Ok && final(self)@ == Self::with_buffer(
                        old(self)@,
                        handle,
                        fill_range(old(self)@.buffers[handle], offset as int, arg_bytes(items@), total),
                    )
            },
    {
        if items.len() == 0 {
            return Err(ApexError::new(String::from_str("mem.fill_pattern expects non-empty pattern tuple")));
        }
        proof {
            lemma_bytes_prefix(items@);
        }
        let mut pattern: Vec<u8> = Vec::new();
        let mut i: usize = 0;
        while i < items.len()
            invariant
                i <= bytes_prefix(items@) <= items@.len(),
                forall|j: int| 0 <= j < bytes_prefix(items@) ==> is_byte(#[trigger] items@[j]),
                bytes_prefix(items@) < items@.len() ==> !is_byte(items@[bytes_prefix(items@) as int]),
                pattern@ == arg_bytes(items@).take(i as int),
                self@ == old(self)@,
                self.wf(),
            decreases items@.len() - i,
        {
            match items[i] {
                ByteArg::Small(v) => {
                    if v > 255 {
                        return Err(ApexError::new(String::from_str("mem.fill_pattern expects byte values in [0, 255]")));
                    }
                    pattern.push(v as u8);
                },
                ByteArg::Large => {
                    return Err(ApexError::new(String::from_str("mem.fill_pattern expects byte values in [0, 255]")));
                },
                ByteArg::Other => {
                    return Err(ApexError::new(String::from_str("mem.fill_pattern expects tuple of integer byte values")));
                },
            }
            proof {
                assert(pattern@ =~= arg_bytes(items@).take(i + 1));
            }
            i = i + 1;
        }
        proof {
            assert(pattern@ =~= arg_bytes(items@));
        }
        let blen = match self.buffer(handle, "Unknown buffer handle") {
            Ok(b) => b.len(),
            Err(e) => return Err(e),
        };
        proof {
            assert(items@.len() * repeat <= usize::MAX);
        }
        let total = pattern.len() * repeat;
        if offset + total > blen {
            return Err(ApexError::new(String::from_str("mem.fill_pattern exceeds buffer length")));
        }
        let mut bytes = self.take(handle);
        fill_bytes(&mut bytes, offset, &pattern, total);
        let ghost after = bytes@;
        self.restore(handle, bytes);
        proof {
            assert(self@.buffers =~= old(self)@.buffers.insert(handle, after));
        }
        Ok(())
    }
}

} // verus!
