use apexforge::apexlang::bits::{
    binary_and, binary_not, binary_or, binary_shift_left, binary_shift_right, binary_xor, bit_clear,
    bit_count, bit_set, bit_test, bit_toggle, rotate_bits,
};
use apexforge::apexlang::tables::{
    copy_append, copy_replace, tuple_concat, tuple_get, SignalTable, SmartPointerTable,
};
use apexforge::forge::math::AFNSBigInt;

fn big(v: i64) -> AFNSBigInt {
    AFNSBigInt::new(&v.to_string()).unwrap()
}

fn text(v: AFNSBigInt) -> String {
    v.to_string()
}

#[test]
fn binary_ops_work() {
    assert_eq!(text(binary_and(&big(0b1010), &big(0b1100))), "8");
    assert_eq!(text(binary_xor(&big(0b1111), &big(0b0101))), "10");
    assert_eq!(text(binary_shift_left(&big(1), 3)), "8");
    assert_eq!(text(binary_shift_right(&big(8), 2)), "2");
    assert_eq!(*tuple_get(&vec![7, 1], 0).unwrap(), 7);
}

#[test]
fn bit_operations_on_signed_values() {
    assert_eq!(text(binary_or(&big(0b1010), &big(0b0101))), "15");
    assert_eq!(text(binary_not(&big(5))), "-6");
    assert_eq!(text(binary_shift_right(&big(-7), 1)), "-4");
    assert!(bit_test(&big(5), 2));
    assert!(!bit_test(&big(5), 1));
    assert_eq!(text(bit_set(&big(5), 1)), "7");
    assert_eq!(text(bit_clear(&big(7), 0)), "6");
    assert_eq!(text(bit_toggle(&big(7), 3)), "15");
    assert_eq!(text(bit_count(&big(255))), "8");
    assert_eq!(text(bit_count(&big(-5))), "2");
    assert_eq!(text(bit_count(&big(0))), "0");
}

#[test]
fn rotations_keep_the_sign() {
    assert_eq!(text(rotate_bits(&big(0b1011), 1, true)), "23");
    assert_eq!(text(rotate_bits(&big(0b1011), 1, false)), "13");
    assert_eq!(text(rotate_bits(&big(-0b1011), 1, false)), "-13");
    assert_eq!(text(rotate_bits(&big(0b1011), 4, true)), "11");
    assert_eq!(text(rotate_bits(&big(0), 3, true)), "0");
    assert_eq!(text(rotate_bits(&big(9), 0, true)), "9");
}

#[test]
fn tracks_signals() {
    let mut table = SignalTable::new();
    assert!(table.register("USR1".to_string()));
    assert_eq!(table.emit("USR1".to_string()), 1);
    assert_eq!(table.count("USR1"), 1);
    assert_eq!(table.tracked_signals(), 1);
    assert!(table.reset("USR1"));
    assert_eq!(table.count("USR1"), 0);
}

#[test]
fn signals_register_and_emit() {
    let mut table = SignalTable::new();
    assert_eq!(table.emit("HUP".to_string()), 1);
    assert_eq!(table.emit("HUP".to_string()), 2);
    assert!(!table.register("HUP".to_string()));
    assert_eq!(table.count("HUP"), 0);
    assert!(!table.reset("TERM"));
    assert_eq!(table.count("TERM"), 0);
    assert_eq!(table.tracked_signals(), 1);
}

#[test]
fn smart_pointers_store_values() {
    let mut table = SmartPointerTable::new();
    let handle = table.insert(5);
    assert_eq!(*table.get(handle).unwrap(), 5);
    table.set(handle, 9).unwrap();
    assert_eq!(*table.get(handle).unwrap(), 9);
    assert_eq!(table.get(handle + 1).unwrap_err().message(), "Unknown smart pointer handle");
    assert!(table.set(42, 1).is_err());
    assert_eq!(table.insert(6), handle + 1);
}

#[test]
fn copy_replace_and_concat_build_new_tuples() {
    let tuple = vec![1, 2];
    let replaced = copy_replace(tuple.clone(), 1, 9).unwrap();
    assert_eq!(replaced, vec![1, 9]);
    let concat = tuple_concat(tuple.clone(), replaced);
    assert_eq!(concat.len(), 4);
    assert_eq!(
        copy_replace(tuple, 2, 0).unwrap_err().message(),
        "structs.copy_replace index out of bounds"
    );
}

#[test]
fn deep_clone_and_append_are_total() {
    let appended = copy_append(vec![1, 2], vec![9, 0]).unwrap();
    assert_eq!(appended.len(), 4);
    assert_eq!(appended[3], 0);
    assert!(copy_append(vec![1], Vec::new()).is_err());
    assert!(tuple_get(&vec![1], 1).is_err());
}
