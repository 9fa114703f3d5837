use touchhle::mem::Mem;
use touchhle::objc::{
    autorelease, dispatch_once_f, objc_getProperty, objc_retainAutorelease, objc_setProperty,
    objc_setProperty_nonatomic_copy, property_address, protocol_getName, release, retain, set_property_value,
    ClassHostObject, Imp, NewValue, ObjC, MAX_DISPATCH_DEPTH, NIL,
};

fn class(name: &str, superclass: u32, methods: Vec<(u32, Imp)>) -> ClassHostObject {
    ClassHostObject {
        name: name.to_string(),
        superclass,
        is_metaclass: false,
        methods,
        ivars: Vec::new(),
    }
}

fn read_cstr(mem: &Mem, addr: u32) -> String {
    String::from_utf8(mem.cstr_at(addr).unwrap()).unwrap()
}

/// NSObject at 0x100 (implements selectors 1 and 2), MyView at 0x200
/// (overrides 2, adds 3); an instance of MyView at 0x400.
fn runtime() -> (ObjC, Mem) {
    let mut objc = ObjC::new();
    objc.register_class(0x100, class("NSObject", NIL, vec![(1, Imp::Host(10)), (2, Imp::Host(20))]));
    objc.register_class(0x200, class("MyView", 0x100, vec![(2, Imp::Guest(0x2001)), (3, Imp::Guest(0x3001))]));
    let mut mem = Mem::new(0x2000, 0x1000);
    mem.write_u32(0x400, 0x200);
    (objc, mem)
}

#[test]
fn messages_go_to_the_nearest_implementation() {
    let (objc, mem) = runtime();
    assert_eq!(objc.resolve_message(&mem, 0x400, 2, None, 1), Some(Imp::Guest(0x2001)));
    assert_eq!(objc.resolve_message(&mem, 0x400, 1, None, 1), Some(Imp::Host(10)));
    assert_eq!(objc.resolve_message(&mem, 0x400, 9, None, 1), None);
    assert_eq!(objc.resolve_message(&mem, NIL, 1, None, 1), None);
    assert_eq!(objc.resolve_message(&mem, 0x400, 1, None, MAX_DISPATCH_DEPTH + 1), None);
}

#[test]
fn super_messages_start_at_the_superclass() {
    let (objc, mut mem) = runtime();
    assert_eq!(objc.resolve_message(&mem, 0x400, 2, Some(0x200), 1), Some(Imp::Host(20)));
    assert_eq!(objc.resolve_message(&mem, 0x400, 3, Some(0x200), 1), None);
    mem.write_u32(0x500, 0x400);
    mem.write_u32(0x504, 0x200);
    assert_eq!(objc.msg_send_super2(&mem, 0x500, 2, 1), (0x400, Some(Imp::Host(20))));
}

#[test]
fn selectors_and_class_names() {
    let (mut objc, mut mem) = runtime();
    objc.register_selector("init".to_string(), 0x10);
    assert_eq!(objc.lookup_selector("init"), Some(0x10));
    assert_eq!(objc.lookup_selector("dealloc"), None);
    assert_eq!(objc.get_selector_name(0x10), "init");
    assert_eq!(objc.class_name(0x200), "MyView");
    let p = objc.class_getName(&mut mem, 0x200);
    assert_eq!(read_cstr(&mem, p), "MyView");
    assert_eq!(objc.class_getName(&mut mem, NIL), 0);
    let q = protocol_getName(&mut mem, 0x1234);
    assert_eq!(read_cstr(&mem, q), "FakedProtocol");
}

#[test]
fn classes_are_initialized_superclasses_first_and_once() {
    let (mut objc, _mem) = runtime();
    assert_eq!(objc.ensure_class_initialized(0x200), vec![0x100, 0x200]);
    assert_eq!(objc.ensure_class_initialized(0x200), Vec::<u32>::new());
    assert_eq!(objc.ensure_class_initialized(0x100), Vec::<u32>::new());
    assert_eq!(objc.ensure_class_initialized(NIL), Vec::<u32>::new());
}

#[test]
fn ivars_from_binary_and_lookup() {
    let mut mem = Mem::new(0x2000, 0x1000);
    // ivar list at 0x600: entsize 20, count 2.
    mem.write_u32(0x600, 20);
    mem.write_u32(0x604, 2);
    let names = [(0x700u32, "_width"), (0x710u32, "_height")];
    for (addr, name) in names.iter() {
        for (i, b) in name.bytes().enumerate() {
            mem.write_u8(addr + i as u32, b);
        }
    }
    // Entry 0: offset word at 0x680 (holds 8), name "_width", alignment 2.
    mem.write_u32(0x608, 0x680);
    mem.write_u32(0x60c, 0x700);
    mem.write_u32(0x614, 2);
    // Entry 1: offset word at 0x684 (holds 12), name "_height", alignment 2.
    mem.write_u32(0x61c, 0x684);
    mem.write_u32(0x620, 0x710);
    mem.write_u32(0x628, 2);
    mem.write_u32(0x680, 8);
    mem.write_u32(0x684, 12);
    let mut c = class("Box", NIL, Vec::new());
    c.add_ivars_from_bin(0x600, &mem);
    assert_eq!(c.ivars.len(), 2);
    assert_eq!((c.ivars[0].0.as_str(), c.ivars[0].1, c.ivars[0].2), ("_width", 0x680, 2));
    assert_eq!((c.ivars[1].0.as_str(), c.ivars[1].1, c.ivars[1].2), ("_height", 0x684, 2));
    // Adding an ivar of the same name replaces it.
    c.add_ivar("_width".to_string(), 0x690, 4);
    assert_eq!(c.ivars.len(), 2);
    assert_eq!((c.ivars[0].1, c.ivars[0].2), (0x690, 4));

    let mut objc = ObjC::new();
    let mut d = class("Box", NIL, Vec::new());
    d.add_ivars_from_bin(0x600, &mem);
    objc.register_class(0x100, d);
    mem.write_u32(0x800, 0x100);
    assert_eq!(objc.object_lookup_ivar(&mem, 0x800, &"_height".to_string()), Some(0x80c));
    assert_eq!(objc.object_lookup_ivar(&mem, 0x800, &"_depth".to_string()), None);
    assert_eq!(objc.debug_all_class_ivars_as_strings(0x100), vec!["_width".to_string(), "_height".to_string()]);
}

#[test]
fn retain_release_ignore_nil() {
    assert_eq!(retain(NIL), None);
    assert_eq!(retain(0x40), Some(0x40));
    assert_eq!(release(NIL), None);
    assert_eq!(autorelease(0x40), Some(0x40));
    assert_eq!(objc_retainAutorelease(0x40), (0x40, Some(0x40), Some(0x40)));
    assert_eq!(objc_retainAutorelease(NIL), (NIL, None, None));
}

#[test]
fn properties_read_and_write_ivars() {
    let mut mem = Mem::new(0x2000, 0x1000);
    assert_eq!(set_property_value(NIL, 1), NewValue::Nil);
    assert_eq!(set_property_value(0x40, 0), NewValue::Retained);
    assert_eq!(set_property_value(0x40, 1), NewValue::Copy);
    assert_eq!(set_property_value(0x40, 2), NewValue::MutableCopy);
    assert_eq!(property_address(0x400, 8), 0x408);
    assert!(!objc_setProperty(&mut mem, 0x400, 8, 0x44));
    assert_eq!(objc_getProperty(&mem, 0x400, 8, true), (0x44, true));
    assert_eq!(objc_getProperty(&mem, 0x400, 12, true), (NIL, false));
    assert!(objc_setProperty(&mut mem, 0x400, 8, 0x48));
    assert!(objc_setProperty_nonatomic_copy(&mut mem, 0x400, 12, 0x50));
    assert_eq!(mem.read_u32(0x40c), 0x50);
    assert!(!objc_setProperty_nonatomic_copy(&mut mem, NIL, 12, 0x50));
}

#[test]
fn dispatch_once_runs_the_function_once() {
    let mut mem = Mem::new(0x2000, 0x1000);
    assert!(dispatch_once_f(&mut mem, 0x300, 0x1235));
    assert_eq!(mem.read_u32(0x300), 0xffff_ffff);
    assert!(!dispatch_once_f(&mut mem, 0x300, 0x1235));
    assert!(!dispatch_once_f(&mut mem, 0, 0x1235));
    assert!(!dispatch_once_f(&mut mem, 0x304, 0));
}

#[test]
fn dispatch_initializes_classes_before_the_first_message() {
    let (mut objc, mut mem) = runtime();
    // A metaclass for MyView; the class object MyView points to it.
    objc.register_class(
        0x300,
        ClassHostObject { name: "MyView".to_string(), superclass: NIL, is_metaclass: true, methods: vec![(5, Imp::Host(50))], ivars: Vec::new() },
    );
    mem.write_u32(0x200, 0x300);
    // A message to the class itself initializes the class (not its metaclass).
    let (inits, imp) = objc.dispatch_message(&mem, 0x200, 5, None, 1);
    assert_eq!(inits, vec![0x100, 0x200]);
    assert_eq!(imp, Some(Imp::Host(50)));
    // Later messages to an instance find the classes initialized.
    let (inits, imp) = objc.dispatch_message(&mem, 0x400, 2, None, 1);
    assert_eq!(inits, Vec::<u32>::new());
    assert_eq!(imp, Some(Imp::Guest(0x2001)));
    // Super messages and messages to nil initialize nothing.
    let (mut objc2, mem2) = runtime();
    assert_eq!(objc2.dispatch_message(&mem2, 0x400, 2, Some(0x200), 1), (Vec::new(), Some(Imp::Host(20))));
    assert_eq!(objc2.dispatch_message(&mem2, NIL, 2, None, 1), (Vec::new(), None));
    assert_eq!(objc2.dispatch_message(&mem2, 0x400, 2, None, 1), (vec![0x100, 0x200], Some(Imp::Guest(0x2001))));
}
