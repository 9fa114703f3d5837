use touchhle::dictionary::{
    build_description, dict_from_keys_and_objects, objects_and_keys_pairs, init_with_objects_and_keys, keys_and_objects_from_memory, CFDictionaryHostObject,
    CFDictionaryKeyCallBacks, CFDictionaryValueCallBacks, Callback, DictionaryHostObject, ObjectsAndKeysStep,
};
use touchhle::mem::Mem;
use touchhle::objc::NIL;

#[test]
fn insert_lookup_remove() {
    let mut d = DictionaryHostObject::new();
    assert_eq!(d.insert(7, 0x10, 0x100, |k: u32| k == 0x10), None);
    assert_eq!(d.insert(7, 0x20, 0x200, |k: u32| k == 0x20), None);
    assert_eq!(d.count(), 2);
    assert_eq!(d.lookup(7, |k: u32| k == 0x20), 0x200);
    assert_eq!(d.lookup(8, |k: u32| k == 0x20), NIL);
    // Same key again: its value is replaced and handed back.
    assert_eq!(d.insert(7, 0x10, 0x101, |k: u32| k == 0x10), Some(0x100));
    assert_eq!(d.count(), 2);
    assert_eq!(d.lookup(7, |k: u32| k == 0x10), 0x101);
    assert_eq!(d.keys(), vec![0x10, 0x20]);
    assert_eq!(d.pairs(), vec![(0x10, 0x101), (0x20, 0x200)]);
    assert_eq!(d.remove(7, |k: u32| k == 0x10), Some((0x10, 0x101)));
    assert_eq!(d.lookup(7, |k: u32| k == 0x10), NIL);
    assert_eq!(d.count(), 1);
    assert_eq!(d.remove(7, |k: u32| k == 0x10), None);
}

#[test]
fn objects_and_keys_alternate_until_nil() {
    assert_eq!(init_with_objects_and_keys(None, 0x10), ObjectsAndKeysStep::ReadKey(0x10));
    assert_eq!(init_with_objects_and_keys(Some(0x10), 0x20), ObjectsAndKeysStep::Insert(0x20, 0x10));
    assert_eq!(init_with_objects_and_keys(Some(0x10), NIL), ObjectsAndKeysStep::Stop);
}

#[test]
fn dictionary_from_pairs_replaces_equal_keys() {
    let input = [(0x10, 0x100, 1), (0x20, 0x200, 2), (0x10, 0x300, 1)];
    let (d, replaced) = dict_from_keys_and_objects(&input, |a: u32, b: u32| a == b);
    assert_eq!(d.count(), 2);
    assert_eq!(replaced, vec![0x100]);
    assert_eq!(d.lookup(1, |k: u32| k == 0x10), 0x300);
    assert_eq!(d.lookup(2, |k: u32| k == 0x20), 0x200);
}

#[test]
fn keys_and_objects_are_read_pairwise() {
    let mut mem = Mem::new(0x1000, 0x800);
    mem.write_u32(0x100, 0xa);
    mem.write_u32(0x104, 0xb);
    mem.write_u32(0x200, 0x1a);
    mem.write_u32(0x204, 0x1b);
    assert_eq!(keys_and_objects_from_memory(&mem, 0x200, 0x100, 2), vec![(0xa, 0x1a), (0xb, 0x1b)]);
    assert!(keys_and_objects_from_memory(&mem, 0x200, 0x100, 0).is_empty());
}

#[test]
fn cf_dictionary_callbacks_decide_or_defer() {
    let plain = CFDictionaryHostObject::default();
    assert!(matches!(plain.hash(0x44), Callback::Done(0x44)));
    assert!(matches!(plain.equal_keys(1, 1), Callback::Done(true)));
    assert!(matches!(plain.equal_keys(1, 2), Callback::Done(false)));
    assert_eq!(plain.release_key(1), None);
    let kcb = CFDictionaryKeyCallBacks { version: 0, retain: 0x1000, release: 0x1004, copy_desc: 0, equal: 0x1008, hash: 0x100c };
    let vcb = CFDictionaryValueCallBacks { version: 0, retain: 0, release: 0x2004, copy_desc: 0, equal: 0 };
    let d = CFDictionaryHostObject::with_callbacks(kcb, vcb);
    assert!(matches!(d.hash(0x44), Callback::CallGuest(0x100c)));
    assert!(matches!(d.equal_keys(1, 1), Callback::CallGuest(0x1008)));
    assert!(matches!(d.retain_key(5), Callback::CallGuest(0x1000)));
    assert!(matches!(d.retain_value(5), Callback::Done(5)));
    assert_eq!(d.release_value(5), Some(0x2004));
}

#[test]
fn cf_dictionary_insert_moves_pair_to_end() {
    let mut d = CFDictionaryHostObject::default();
    assert!(d.insert(3, 0x10, 0x100, |k: u32| k == 0x10).is_none());
    assert!(d.insert(3, 0x20, 0x200, |k: u32| k == 0x20).is_none());
    assert_eq!(d.insert(3, 0x10, 0x101, |k: u32| k == 0x10), Some((0x10, 0x100)));
    assert_eq!(d.count(), 2);
    assert_eq!(d.lookup(3, |k: u32| k == 0x10), 0x101);
    assert_eq!(d.remove(3, |k: u32| k == 0x20), Some((0x20, 0x200)));
    assert_eq!(d.count(), 1);
}

#[test]
fn description_lists_each_pair_on_a_tab_indented_line() {
    let empty: Vec<(String, String)> = Vec::new();
    assert_eq!(build_description(&empty), "{\n}");
    let pairs = vec![("k".to_string(), "v".to_string()), ("a".to_string(), "b".to_string())];
    assert_eq!(build_description(&pairs), "{\n\tk = v;\n\ta = b;\n}");
}

#[test]
fn objects_and_keys_alternate_into_pairs() {
    assert_eq!(objects_and_keys_pairs(0x10, &[0x20, 0x11, 0x21, NIL]), vec![(0x20, 0x10), (0x21, 0x11)]);
    assert_eq!(objects_and_keys_pairs(0x10, &[0x20, 0x11, NIL]), vec![(0x20, 0x10)]);
    assert_eq!(objects_and_keys_pairs(0x10, &[NIL]), Vec::<(u32, u32)>::new());
    assert_eq!(objects_and_keys_pairs(0x10, &[0x20, NIL, 0x21]), vec![(0x20, 0x10)]);
}
