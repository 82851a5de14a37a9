use apexforge::apexlang::mem::{BufferHeap, ByteArg};

#[test]
fn pointer_round_trip() {
    let mut heap = BufferHeap::new();
    let (h, off) = heap.alloc_bytes(4);
    assert!(heap.write_byte(h, off, 300).is_err());
    let (h2, off2) = heap.pointer_offset(h, off, 1).expect("offset");
    heap.write_byte(h2, off2, 42).expect("write");
    assert_eq!(heap.read_byte(h2, off2).expect("read"), 42);
    assert_eq!(heap.buffer_len(h).expect("len"), 4);
    assert!(heap.free_bytes(h));
}

#[test]
fn range_mutators_cover_pattern_math() {
    let mut heap = BufferHeap::new();
    let (p, _) = heap.alloc_bytes(16);
    let pattern = vec![ByteArg::Small(0), ByteArg::Small(1), ByteArg::Small(2)];
    heap.fill_pattern(p, 0, &pattern, 4).expect("fill");
    assert_eq!(heap.count_byte(p, 0, 12, 1).expect("count"), 4);
    heap.reverse_block(p, 0, 12).expect("reverse");
    let (p2, _) = heap.alloc_bytes(16);
    heap.memset(p2, 0, 0, 16).expect("memset");
    heap.swap_ranges(p, 0, p2, 0, 6).expect("swap");
    let drained = heap.read_block(p2, 0, 6).unwrap();
    assert_eq!(drained.len(), 6);
    assert!(heap.free_bytes(p));
    assert!(heap.free_bytes(p2));
}

#[test]
fn block_helpers_cover_ranges() {
    let mut heap = BufferHeap::new();
    let (p, _) = heap.alloc_bytes(8);
    let items = vec![ByteArg::Small(1), ByteArg::Small(2), ByteArg::Small(3), ByteArg::Small(4)];
    heap.write_block(p, 0, &items).expect("write block");
    let block = heap.read_block(p, 0, 4).expect("read");
    assert_eq!(block.len(), 4);
    assert_eq!(block[0], 1);
    assert_eq!(block[3], 4);
    let (other, _) = heap.alloc_bytes(8);
    heap.memcpy(other, 0, p, 0, 4).expect("copy");
    assert_eq!(heap.compare_regions(p, 0, other, 0, 4).unwrap(), 0);
    assert_eq!(heap.find_byte(p, 0, 3).unwrap(), Some(2));
    assert_eq!(heap.checksum_region(p, 0, 4).unwrap(), 10);
    assert!(heap.free_bytes(p));
    assert!(heap.free_bytes(other));
}

#[test]
fn pattern_and_reverse_give_exact_bytes() {
    let mut heap = BufferHeap::new();
    let (p, _) = heap.alloc_bytes(8);
    let pattern = vec![ByteArg::Small(7), ByteArg::Small(9)];
    heap.fill_pattern(p, 1, &pattern, 3).unwrap();
    assert_eq!(heap.read_block(p, 0, 8).unwrap(), vec![0, 7, 9, 7, 9, 7, 9, 0]);
    heap.reverse_block(p, 0, 4).unwrap();
    assert_eq!(heap.read_block(p, 0, 8).unwrap(), vec![7, 9, 7, 0, 9, 7, 9, 0]);
    heap.memset(p, 6, 5, 2).unwrap();
    assert_eq!(heap.read_block(p, 4, 4).unwrap(), vec![9, 7, 5, 5]);
}

#[test]
fn memory_errors_name_the_problem() {
    let mut heap = BufferHeap::new();
    let (p, _) = heap.alloc_bytes(4);
    assert_eq!(heap.read_byte(p, 4).unwrap_err().message(), "Pointer offset exceeds buffer length");
    assert_eq!(heap.read_byte(p + 1, 0).unwrap_err().message(), "Unknown buffer handle");
    assert!(heap.pointer_offset(p, 0, 5).is_err());
    assert!(heap.memset(p, 2, 1, 3).is_err());
    assert!(heap.read_block(p, 1, 4).is_err());
    assert!(heap.find_byte(p, 0, 256).is_err());
    let bad = vec![ByteArg::Large];
    assert!(heap.write_block(p, 0, &bad).is_err());
    let empty: Vec<ByteArg> = Vec::new();
    assert!(heap.fill_pattern(p, 0, &empty, 1).is_err());
    assert!(heap.free_bytes(p));
    assert!(!heap.free_bytes(p));
    assert!(heap.buffer_len(p).is_err());
}

#[test]
fn comparing_and_searching_regions() {
    let mut heap = BufferHeap::new();
    let (a, _) = heap.alloc_bytes(3);
    let (b, _) = heap.alloc_bytes(3);
    heap.write_block(a, 0, &vec![ByteArg::Small(1), ByteArg::Small(5), ByteArg::Small(2)]).unwrap();
    heap.write_block(b, 0, &vec![ByteArg::Small(1), ByteArg::Small(6), ByteArg::Small(0)]).unwrap();
    assert_eq!(heap.compare_regions(a, 0, b, 0, 3).unwrap(), -1);
    assert_eq!(heap.compare_regions(b, 0, a, 0, 3).unwrap(), 1);
    assert_eq!(heap.compare_regions(a, 0, b, 0, 1).unwrap(), 0);
    assert_eq!(heap.find_byte(a, 1, 2).unwrap(), Some(2));
    assert_eq!(heap.find_byte(a, 0, 9).unwrap(), None);
    assert_eq!(heap.checksum_region(b, 0, 3).unwrap(), 7);
    assert_eq!(heap.count_byte(b, 0, 3, 1).unwrap(), 1);
}
