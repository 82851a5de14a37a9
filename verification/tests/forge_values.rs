use apexforge::forge::collections::{
    AFNSArray, AFNSLinkedList, AFNSMap, AFNSQueue, AFNSRingBuffer, AFNSSet, AFNSStack,
};
use apexforge::forge::error::{AFNSError, AFNSErrorContext, AFNSErrorPropagation};
use apexforge::forge::memory::{AFNSArc, AFNSMemoryPool, AFNSRc};
use apexforge::forge::pointer::{AFNSAtomicSmartPointer, AFNSSmartPointer};
use apexforge::forge::special::AFNSTimeline;
use apexforge::forge::structs::{AFNSOption, AFNSResult, AFNSTuple};
use apexforge::forge::types::{AFNSEmail, AFNSMACAddress, AFNSURL};

#[test]
fn array_edits_keep_order() {
    let mut a = AFNSArray::from_vec(vec![1, 2, 3]);
    a.push(4);
    a.insert(0, 0).unwrap();
    assert_eq!(a.remove(2).unwrap(), 2);
    assert_eq!(a.pop(), Some(4));
    assert_eq!(a.len(), 3);
    assert_eq!(a.get(1), Some(&1));
    assert_eq!(a.first(), Some(&0));
    assert_eq!(a.last(), Some(&3));
    a.reverse();
    assert_eq!(a.into_vec(), vec![3, 1, 0]);
}

#[test]
fn array_search() {
    let a = AFNSArray::from_vec(vec![5u64, 7, 5]);
    assert!(a.contains(&7));
    assert!(!a.contains(&6));
    assert_eq!(a.position(&5), Some(0));
    assert_eq!(a.position(&9), None);
    assert!(AFNSArray::<u8>::new().is_empty());
    assert!(AFNSArray::<u8>::with_capacity(8).capacity() >= 8);
}

#[test]
fn map_and_set_basics() {
    let mut m: AFNSMap<u64, &str> = AFNSMap::new();
    assert_eq!(m.insert(1, "a"), None);
    assert_eq!(m.insert(1, "b"), Some("a"));
    assert_eq!(m.get(&1), Some(&"b"));
    assert!(m.contains_key(&1));
    assert_eq!(m.remove(&1), Some("b"));
    assert!(m.is_empty());

    let mut s: AFNSSet<u32> = AFNSSet::new();
    assert!(s.insert(3));
    assert!(!s.insert(3));
    assert_eq!(s.len(), 1);
    assert!(s.contains(&3));
    assert!(s.remove(&3));
    assert!(s.is_empty());
}

#[test]
fn queue_is_first_in_first_out() {
    let mut q = AFNSQueue::new();
    q.enqueue(1);
    q.enqueue(2);
    assert_eq!(q.peek(), Some(&1));
    assert_eq!(q.peek_back(), Some(&2));
    assert_eq!(q.dequeue(), Some(1));
    assert_eq!(q.dequeue(), Some(2));
    assert_eq!(q.dequeue(), None);
}

#[test]
fn stack_is_last_in_first_out() {
    let mut s = AFNSStack::new();
    s.push('a');
    s.push('b');
    assert_eq!(s.peek(), Some(&'b'));
    assert_eq!(s.pop(), Some('b'));
    assert_eq!(s.pop(), Some('a'));
    assert_eq!(s.pop(), None);
}

#[test]
fn linked_list_ends_and_split() {
    let mut l = AFNSLinkedList::new();
    l.push_back(2);
    l.push_front(1);
    l.push_back(3);
    assert_eq!(l.front(), Some(&1));
    assert_eq!(l.back(), Some(&3));
    let mut tail = l.split_off(1);
    assert_eq!(l.len(), 1);
    assert_eq!(tail.pop_front(), Some(2));
    l.append(&mut tail);
    assert_eq!(l.pop_back(), Some(3));
    assert_eq!(tail.len(), 0);
}

#[test]
fn ring_buffer_refuses_when_full() {
    let mut r = AFNSRingBuffer::new(2);
    r.push_back(1).unwrap();
    r.push_front(0).unwrap();
    assert!(r.is_full());
    assert_eq!(r.push_back(3).unwrap_err(), "Ring buffer is full");
    assert_eq!(r.len(), 2);
    assert_eq!(r.front(), Some(&0));
    assert_eq!(r.back(), Some(&1));
    assert_eq!(r.get(1), Some(&1));
    assert_eq!(r.pop_front(), Some(0));
    r.push_back(2).unwrap();
    assert_eq!(r.pop_back(), Some(2));
    assert_eq!(r.pop_back(), Some(1));
    assert!(r.is_empty());
}

#[test]
fn queue_and_list_ends_change_in_place() {
    let mut q = AFNSQueue::new();
    assert!(q.peek_mut().is_none());
    q.enqueue(1);
    q.enqueue(2);
    *q.peek_mut().unwrap() = 10;
    assert_eq!(q.peek(), Some(&10));
    assert_eq!(q.len(), 2);
    let mut l = AFNSLinkedList::new();
    assert!(l.front_mut().is_none());
    assert!(l.back_mut().is_none());
    l.push_back(1);
    l.push_back(2);
    l.push_back(3);
    *l.front_mut().unwrap() += 10;
    *l.back_mut().unwrap() *= 10;
    assert_eq!(l.front(), Some(&11));
    assert_eq!(l.back(), Some(&30));
}

#[test]
fn map_values_change_in_place() {
    let mut m: AFNSMap<u64, u64> = AFNSMap::new();
    m.insert(1, 10);
    *m.get_mut(&1).unwrap() += 5;
    assert!(m.get_mut(&2).is_none());
    assert_eq!(m.get(&1), Some(&15));
    assert_eq!(m.len(), 1);
}

#[test]
fn ring_buffer_elements_change_in_place() {
    let mut r = AFNSRingBuffer::new(3);
    r.push_back(1).unwrap();
    r.push_back(2).unwrap();
    r.pop_front();
    r.push_back(3).unwrap();
    r.push_back(4).unwrap();
    *r.get_mut(2).unwrap() = 40;
    *r.get_mut(0).unwrap() += 20;
    assert!(r.get_mut(3).is_none());
    assert_eq!(r.get(0), Some(&22));
    assert_eq!(r.get(1), Some(&3));
    assert_eq!(r.get(2), Some(&40));
}

#[test]
fn errors_carry_kind_and_context() {
    let e = AFNSError::parse("bad token".to_string());
    assert!(e.is_parse());
    assert!(!e.is_io());
    assert_eq!(e.message(), "Parse error: bad token");
    let c = AFNSErrorContext::new(e).with_context("reading".to_string());
    assert_eq!(c.full_message(), "Parse error: bad token\nContext:\n  - reading");
    let r: Result<u8, AFNSError> = Err(AFNSError::io("disk".to_string()));
    assert!(AFNSErrorPropagation::propagate_with_context(r, "saving".to_string()).is_err());
    assert!(AFNSErrorPropagation::from_str("x").is_generic());
}

#[test]
fn tuple_option_and_result() {
    let t = AFNSTuple::new(vec![1, 2]);
    assert_eq!(t.first(), Some(&1));
    assert_eq!(t.last(), Some(&2));
    assert_eq!(t.get(2), None);
    let o = AFNSOption::some(4);
    assert!(o.is_some());
    assert_eq!(o.unwrap_or(0), 4);
    assert_eq!(AFNSOption::<i32>::none().unwrap_or(7), 7);
    let r: AFNSResult<i32, String> = AFNSResult::ok(3);
    assert!(r.is_ok());
    assert_eq!(r.unwrap_or(0), 3);
    let e: AFNSResult<i32, String> = AFNSResult::err("no".to_string());
    assert!(e.is_err());
    assert!(e.into_ok().is_none());
}

#[test]
fn timeline_orders_events_by_time() {
    let mut t = AFNSTimeline::new();
    t.add_event_at(5, "late");
    t.add_event_at(1, "early");
    t.add_event_at(5, "later");
    t.add_event("now");
    assert_eq!(t.len(), 4);
    assert_eq!(t.get_events_in_range(1, 5), vec![&"early", &"late", &"later"]);
    assert_eq!(t.get_events_at(0), vec![&"now"]);
    t.advance(3);
    assert_eq!(t.current_time(), 3);
}

#[test]
fn email_parts() {
    let e = AFNSEmail::new("ada@example.org".to_string()).unwrap();
    assert_eq!(e.local_part(), "ada");
    assert_eq!(e.domain(), "example.org");
    assert!(e.is_from_domain("example.org"));
    assert_eq!(e.to_string(), "ada@example.org");
    assert_eq!(
        AFNSEmail::new("a@b@c".to_string()).unwrap_err(),
        "Invalid email address: a@b@c"
    );
    assert!(!AFNSEmail::is_valid("@ab.c"));
    assert!(!AFNSEmail::is_valid("a@b"));
}

#[test]
fn url_parts() {
    let u = AFNSURL::parse("https://host.io:8080/a/b?x=1#top").unwrap();
    assert_eq!(u.scheme(), "https");
    assert_eq!(u.host(), "host.io");
    assert_eq!(u.port(), Some(8080));
    assert_eq!(u.path(), "/a/b");
    assert_eq!(u.query(), Some("x=1"));
    assert_eq!(u.fragment(), Some("top"));
    assert!(u.is_secure());
    let v = AFNSURL::parse("http://plain").unwrap();
    assert_eq!(v.path(), "/");
    assert_eq!(v.port(), None);
    assert_eq!(v.query(), None);
    assert_eq!(v.default_port(), Some(80));
    assert_eq!(AFNSURL::parse("nothing").unwrap_err(), "Invalid URL format: nothing");
}

#[test]
fn mac_addresses() {
    let m = AFNSMACAddress::from_string("01-23-45-67-89-AB").unwrap();
    assert_eq!(m.to_string(), "01:23:45:67:89:ab");
    assert!(m.is_multicast());
    assert!(!m.is_unicast());
    assert!(m.is_universally_administered());
    assert!(AFNSMACAddress::new([0xff; 6]).is_broadcast());
    assert_eq!(
        AFNSMACAddress::from_string("0123").unwrap_err(),
        "Invalid MAC address format: 0123"
    );
    assert_eq!(
        AFNSMACAddress::from_string("zz2345678900").unwrap_err(),
        "Invalid hex in MAC address: zz2345678900"
    );
}

#[test]
fn pool_reuses_freed_slots() {
    let mut p: AFNSMemoryPool<u32> = AFNSMemoryPool::new(4);
    let a = p.allocate(10).unwrap();
    let b = p.allocate(20).unwrap();
    assert_eq!(p.get(a), Some(&10));
    assert_eq!(p.size(), 2);
    p.deallocate(a).unwrap();
    assert_eq!(p.get(a), Some(&10));
    assert_eq!(p.available_count(), 1);
    assert!(p.deallocate(9).is_err());
    let c = p.allocate(30).unwrap();
    assert_eq!(c, a);
    assert_eq!(p.get(a), Some(&30));
    assert_eq!(p.get(b), Some(&20));
}

#[test]
fn shared_pointers_count_owners() {
    let r = AFNSRc::new(5);
    let r2 = r.clone();
    assert_eq!(r.strong_count(), 2);
    assert_eq!(*r2.as_ref(), 5);
    let r = r.try_unwrap().unwrap_err();
    drop(r2);
    assert_eq!(r.try_unwrap().ok(), Some(5));

    let a = AFNSArc::new("x");
    assert_eq!(a.strong_count(), 1);
    assert_eq!(a.try_unwrap().ok(), Some("x"));

    let s = AFNSSmartPointer::new(1u8);
    let s2 = s.clone();
    assert_eq!(s2.strong_count(), 2);
    let t = AFNSAtomicSmartPointer::new(2u8);
    assert_eq!(*t.as_ref(), 2);
    drop(s);
    assert_eq!(s2.try_unwrap().ok(), Some(1));
}

#[test]
fn url_fragment_without_query() {
    let u = AFNSURL::parse("http://h/p#f").unwrap();
    assert_eq!(u.path(), "/p");
    assert_eq!(u.query(), None);
    assert_eq!(u.fragment(), Some("f"));
    let v = AFNSURL::parse("http://h/p?#f").unwrap();
    assert_eq!(v.query(), Some(""));
    assert_eq!(v.fragment(), Some("f"));
    let w = AFNSURL::parse("http://h/p#f?x").unwrap();
    assert_eq!(w.path(), "/p");
    assert_eq!(w.query(), None);
    assert_eq!(w.fragment(), Some("f?x"));
}

#[test]
fn mac_text_round_trip() {
    let m = AFNSMACAddress::from_string("AA:BB:CC:DD:EE:FF").unwrap();
    assert_eq!(m.to_string(), "aa:bb:cc:dd:ee:ff");
    let again = AFNSMACAddress::from_string(&m.to_string()).unwrap();
    assert_eq!(again, m);
    assert_eq!(AFNSMACAddress::new([0xAA, 0xBB, 0xCC, 0xDD, 0xEE, 0xFF]), m);
}

#[test]
fn pool_allocates_within_a_bound() {
    let mut p: AFNSMemoryPool<u32> = AFNSMemoryPool::new(0);
    assert_eq!(p.allocate_within(7, 1), Ok(0));
    assert_eq!(p.allocate_within(8, 1), Err("Memory pool is full".to_string()));
    assert_eq!(p.size(), 1);
    assert_eq!(p.get(0), Some(&7));
    assert_eq!(p.deallocate(0), Ok(()));
    assert_eq!(p.allocate_within(9, 0), Ok(0));
    assert_eq!(p.get(0), Some(&9));
}

#[test]
fn mutable_references_write_in_place() {
    let mut a = AFNSArray::from_vec(vec![1, 2, 3]);
    if let Some(x) = a.get_mut(1) {
        *x = 20;
    }
    assert!(a.get_mut(3).is_none());
    assert_eq!(a.into_vec(), vec![1, 20, 3]);
    let mut s = AFNSStack::new();
    assert!(s.peek_mut().is_none());
    s.push(5);
    s.push(6);
    if let Some(top) = s.peek_mut() {
        *top = 60;
    }
    assert_eq!(s.pop(), Some(60));
    let mut t = AFNSTuple::new(vec![7, 8]);
    if let Some(x) = t.get_mut(0) {
        *x = 70;
    }
    assert_eq!(t.get(0), Some(&70));
    let mut p: AFNSMemoryPool<u32> = AFNSMemoryPool::new(2);
    let i = p.allocate_within(1, 2).unwrap();
    if let Some(x) = p.get_mut(i) {
        *x = 11;
    }
    assert_eq!(p.get(i), Some(&11));
    assert!(p.get_mut(5).is_none());
    let mut o = AFNSOption::some(1);
    if let AFNSOption::Just(x) = o.as_mut() {
        *x = 2;
    }
    assert_eq!(o.unwrap(), 2);
    let mut r: AFNSResult<i32, String> = AFNSResult::err("bad".to_string());
    if let AFNSResult::Failure(e) = r.as_mut() {
        e.push('!');
    }
    assert!(matches!(r, AFNSResult::Failure(ref e) if e == "bad!"));
}

#[test]
fn set_insert_and_remove_count_elements() {
    let mut s: AFNSSet<u32> = AFNSSet::new();
    assert!(s.insert(4));
    assert!(!s.insert(4));
    assert_eq!(s.len(), 1);
    assert!(s.insert(5));
    assert_eq!(s.len(), 2);
    assert!(s.remove(&4));
    assert!(!s.remove(&4));
    assert_eq!(s.len(), 1);
}

#[test]
fn arrays_sort_and_search() {
    let mut a = AFNSArray::from_vec(vec![5, 1, 4, 1, 3]);
    a.sort();
    assert_eq!(a.binary_search(&4), Ok(3));
    assert_eq!(a.binary_search(&2), Err(2));
    assert_eq!(a.binary_search(&9), Err(5));
    assert_eq!(a.into_vec(), vec![1, 1, 3, 4, 5]);
}

#[test]
fn set_relations() {
    let mut small: AFNSSet<u32> = AFNSSet::new();
    small.insert(1);
    small.insert(2);
    let mut big: AFNSSet<u32> = AFNSSet::new();
    for v in [1, 2, 3] {
        big.insert(v);
    }
    let mut other: AFNSSet<u32> = AFNSSet::new();
    other.insert(9);
    assert!(small.is_subset(&big));
    assert!(!big.is_subset(&small));
    assert!(big.is_superset(&small));
    assert!(small.is_disjoint(&other));
    assert!(!small.is_disjoint(&big));
}

fn set_of(values: &[u32]) -> AFNSSet<u32> {
    let mut s = AFNSSet::new();
    for v in values {
        s.insert(*v);
    }
    s
}

fn sorted(s: &AFNSSet<u32>) -> Vec<u32> {
    let mut out: Vec<u32> = (0..10).filter(|v| s.contains(v)).collect();
    out.sort();
    assert_eq!(out.len(), s.len());
    out
}

#[test]
fn set_algebra() {
    let a = set_of(&[1, 2, 3]);
    let b = set_of(&[3, 4]);
    assert_eq!(sorted(&a.union(&b)), vec![1, 2, 3, 4]);
    assert_eq!(sorted(&a.intersection(&b)), vec![3]);
    assert_eq!(sorted(&a.difference(&b)), vec![1, 2]);
    assert_eq!(sorted(&a.symmetric_difference(&b)), vec![1, 2, 4]);
    assert_eq!(sorted(&a.union(&set_of(&[]))), vec![1, 2, 3]);
}

#[test]
fn map_keys_and_values() {
    let mut m: AFNSMap<u32, &str> = AFNSMap::new();
    m.insert(1, "one");
    m.insert(2, "two");
    let mut keys: Vec<u32> = m.keys().into_iter().copied().collect();
    keys.sort();
    assert_eq!(keys, vec![1, 2]);
    let mut values: Vec<&str> = m.values().into_iter().copied().collect();
    values.sort();
    assert_eq!(values, vec!["one", "two"]);
}

#[test]
fn collections_hand_out_their_elements() {
    let a = AFNSArray::from_vec(vec![3, 1, 2]);
    assert_eq!(a.iter(), vec![&3, &1, &2]);
    let mut s = AFNSStack::new();
    s.push(1);
    s.push(2);
    assert_eq!(s.iter(), vec![&1, &2]);
    let mut q = AFNSQueue::new();
    q.enqueue(5);
    q.enqueue(6);
    assert_eq!(q.iter(), vec![&5, &6]);
    let mut l = AFNSLinkedList::new();
    l.push_front(2);
    l.push_front(1);
    assert_eq!(l.iter(), vec![&1, &2]);
    let t = AFNSTuple::new(vec![4, 5]);
    assert_eq!(t.iter(), vec![&4, &5]);
    let mut set: AFNSSet<u32> = AFNSSet::new();
    set.insert(8);
    set.insert(9);
    let mut elems: Vec<u32> = set.iter().into_iter().copied().collect();
    elems.sort();
    assert_eq!(elems, vec![8, 9]);
    let mut m: AFNSMap<u64, u64> = AFNSMap::new();
    m.insert(1, 10);
    m.insert(2, 20);
    let mut entries: Vec<(u64, u64)> = m.iter().into_iter().map(|(k, v)| (*k, *v)).collect();
    entries.sort();
    assert_eq!(entries, vec![(1, 10), (2, 20)]);
}
