use touchhle::foundation::{
    cut_the_rope_skips, make_network_error, notify_delegate_failure, objc_setProperty_atomic, remove_observers_internal,
    set_property_at_offset, vDSP_create_fftsetup, vImageConvert_AnyToAny, vImageCopyBuffer, CMTimeMake,
    NSStringFromClass, NSStringFromSelector, NotificationCenter, Observer, KV_IMAGE_INVALID_PARAMETER,
    KV_IMAGE_NO_ERROR, KV_IMAGE_NULL_POINTER_ARGUMENT, NS_URL_ERROR_NOT_CONNECTED_TO_INTERNET,
};
use touchhle::mem::Mem;
use touchhle::objc::{ClassHostObject, ObjC, NIL};

fn obs(observer: u32, selector: u32, object: u32) -> Observer {
    Observer { observer, selector, object }
}

#[test]
fn class_and_selector_names() {
    let mut objc = ObjC::new();
    objc.register_class(
        0x100,
        ClassHostObject { name: "NSObject".to_string(), superclass: NIL, is_metaclass: false, methods: Vec::new(), ivars: Vec::new() },
    );
    assert_eq!(NSStringFromClass(&objc, 0x100), Some("NSObject".to_string()));
    assert_eq!(NSStringFromClass(&objc, NIL), None);
    let mut mem = Mem::new(0x1000, 0x800);
    for (i, b) in b"init\0".iter().enumerate() {
        mem.write_u8(0x200 + i as u32, *b);
    }
    assert_eq!(NSStringFromSelector(&mem, 0x200), Some("init".to_string()));
}

#[test]
fn property_setters_check_the_address() {
    let mut mem = Mem::new(0x1000, 0x800);
    assert!(set_property_at_offset(&mut mem, 0x100, 0x77, 8));
    assert_eq!(mem.read_u32(0x108), 0x77);
    assert!(!set_property_at_offset(&mut mem, 0xffe, 0x77, 8));
    assert!(objc_setProperty_atomic(&mut mem, 0x100, 0, 0x78, 12));
    assert_eq!(mem.read_u32(0x10c), 0x78);
}

#[test]
fn notifications_reach_matching_observers_in_order() {
    let mut center = NotificationCenter::new();
    center.add_observer(Some("Ping"), obs(0x10, 1, NIL));
    center.add_observer(Some("Ping"), obs(0x20, 2, 0x99));
    center.add_observer(None, obs(0x30, 3, NIL));
    center.add_observer(Some("Other"), obs(0x40, 4, NIL));
    assert_eq!(center.post_targets("Ping", 0x98), vec![obs(0x10, 1, NIL), obs(0x30, 3, NIL)]);
    assert_eq!(center.post_targets("Ping", 0x99), vec![obs(0x10, 1, NIL), obs(0x20, 2, 0x99), obs(0x30, 3, NIL)]);
    let removed = center.remove_observer(0x10, None, NIL);
    assert_eq!(removed, vec![obs(0x10, 1, NIL)]);
    assert_eq!(center.post_targets("Ping", 0x98), vec![obs(0x30, 3, NIL)]);
    let removed = center.remove_observer(0x40, Some("Ping"), NIL);
    assert!(removed.is_empty());
    assert_eq!(center.post_targets("Other", 0), vec![obs(0x40, 4, NIL), obs(0x30, 3, NIL)]);
}

#[test]
fn observers_removed_keep_everything_else() {
    let mut observers = vec![obs(1, 1, NIL), obs(2, 2, 5), obs(1, 3, 6)];
    let mut removed = Vec::new();
    remove_observers_internal(&mut observers, &mut removed, 1, 6);
    assert_eq!(removed, vec![obs(1, 3, 6)]);
    assert_eq!(observers.len(), 2);
    assert!(observers.contains(&obs(1, 1, NIL)));
    assert!(observers.contains(&obs(2, 2, 5)));
}

#[test]
fn cut_the_rope_update_observer_is_skipped() {
    assert!(cut_the_rope_skips(false, "com.chillingo.cuttherope", true));
    assert!(!cut_the_rope_skips(true, "com.chillingo.cuttherope", true));
    assert!(!cut_the_rope_skips(false, "com.example", true));
}

#[test]
fn networking_always_fails() {
    let e = make_network_error();
    assert_eq!(e.domain, "NSURLErrorDomain");
    assert_eq!(e.code, NS_URL_ERROR_NOT_CONNECTED_TO_INTERNET);
    assert!(notify_delegate_failure(NIL).is_none());
    assert_eq!(notify_delegate_failure(0x40).unwrap().code, -1009);
}

#[test]
fn cmtime_is_split_into_registers() {
    assert_eq!(CMTimeMake(1, 600), (1, 0, 600, 1));
    assert_eq!(CMTimeMake(0x1_0000_0002, 30), (2, 1, 30, 1));
    assert_eq!(CMTimeMake(-1, 1), (0xffff_ffff, 0xffff_ffff, 1, 1));
}

#[test]
fn fft_setup_holds_its_size() {
    let mut mem = Mem::new(0x1000, 0x800);
    let p = vDSP_create_fftsetup(&mut mem, 10, 0);
    assert_eq!(mem.read_u32(p), 10);
}

#[test]
fn vimage_conversion_and_copy() {
    assert_eq!(vImageConvert_AnyToAny(0, 1, 1), KV_IMAGE_NULL_POINTER_ARGUMENT);
    assert_eq!(vImageConvert_AnyToAny(1, 1, 1), KV_IMAGE_INVALID_PARAMETER);
    let mut mem = Mem::new(0x1000, 0x800);
    // Source: 2x2 pixels of 2 bytes, rows of 4 bytes at 0x200.
    for (a, v) in [(0x100u32, 0x200u32), (0x104, 2), (0x108, 2), (0x10c, 4)] {
        mem.write_u32(a, v);
    }
    for (a, v) in [(0x110u32, 0x300u32), (0x114, 2), (0x118, 2), (0x11c, 8)] {
        mem.write_u32(a, v);
    }
    for i in 0..8u32 {
        mem.write_u8(0x200 + i, (i + 1) as u8);
    }
    assert_eq!(vImageCopyBuffer(&mut mem, 0x100, 0x110, 2), KV_IMAGE_NO_ERROR);
    assert_eq!((mem.read_u8(0x300), mem.read_u8(0x303)), (1, 4));
    assert_eq!((mem.read_u8(0x308), mem.read_u8(0x30b)), (5, 8));
    assert_eq!(mem.read_u8(0x304), 0);
    assert_eq!(vImageCopyBuffer(&mut mem, 0, 0x110, 2), KV_IMAGE_NULL_POINTER_ARGUMENT);
    mem.write_u32(0x118, 3);
    assert_eq!(vImageCopyBuffer(&mut mem, 0x100, 0x110, 2), KV_IMAGE_INVALID_PARAMETER);
}
