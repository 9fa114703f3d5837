use touchhle::assoc::{assoc_find, assoc_find_i32};
use touchhle::mem::Mem;
use touchhle::text::{chars_start_with, copy_range, is_whitespace};

#[test]
fn memory_reads_what_was_written() {
    let mut mem = Mem::new(0x100, 0x10);
    assert_eq!(mem.len(), 0x100);
    assert_eq!(mem.read_u32(0x20), 0);
    mem.write_u32(0x20, 0x1234_5678);
    assert_eq!(mem.read_u32(0x20), 0x1234_5678);
    assert_eq!(mem.read_u8(0x20), 0x78);
    assert_eq!(mem.read_u8(0x23), 0x12);
    mem.write_u8(0x21, 0xff);
    assert_eq!(mem.read_u32(0x20), 0x1234_ff78);
}

#[test]
fn allocation_is_aligned_and_zeroed() {
    let mut mem = Mem::new(0x100, 0x11);
    let a = mem.allocate(3);
    assert_eq!(a, 0x20);
    let b = mem.allocate(16);
    assert_eq!(b, 0x30);
    let c = mem.allocate(17);
    assert_eq!(c, 0x40);
    assert_eq!(mem.allocate(1), 0x60);
    mem.free(a);
}

#[test]
fn memmove_handles_overlap() {
    let mut mem = Mem::new(0x100, 0x80);
    for i in 0..4u32 {
        mem.write_u8(0x10 + i, i as u8 + 1);
    }
    mem.memmove(0x12, 0x10, 4);
    let got: Vec<u8> = (0..6u32).map(|i| mem.read_u8(0x10 + i)).collect();
    assert_eq!(got, vec![1, 2, 1, 2, 3, 4]);
}

#[test]
fn c_strings() {
    let mut mem = Mem::new(0x20, 0x10);
    mem.write_u8(0x2, b'h');
    mem.write_u8(0x3, b'i');
    assert_eq!(mem.cstr_at(0x2), Some(b"hi".to_vec()));
    mem.write_u8(0x1f, b'x');
    assert_eq!(mem.cstr_at(0x1f), None);
    assert_eq!(mem.cstr_at(0x40), None);
}

#[test]
fn association_lists_find_the_first_key() {
    let v = vec![(3u32, 'a'), (5, 'b'), (3, 'c')];
    assert_eq!(assoc_find(&v, 3), Some(0));
    assert_eq!(assoc_find(&v, 5), Some(1));
    assert_eq!(assoc_find(&v, 4), None);
    let w = vec![(-1i32, 0u8), (7, 1)];
    assert_eq!(assoc_find_i32(&w, 7), Some(1));
    assert_eq!(assoc_find_i32(&w, 8), None);
}

#[test]
fn character_helpers() {
    assert!(is_whitespace(' '));
    assert!(is_whitespace('\u{a0}'));
    assert!(!is_whitespace('x'));
    let s: Vec<char> = "precision".chars().collect();
    let p: Vec<char> = "cis".chars().collect();
    assert!(chars_start_with(&s, 3, &p));
    assert!(!chars_start_with(&s, 2, &p));
    assert_eq!(copy_range(&s, 3, 6), p);
}
