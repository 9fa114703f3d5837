use touchhle::dyld::{
    classify_lazy_intercept, classify_special_symbol, encode_a32_ret, encode_a32_svc, encode_a32_trap, find_in_bins,
    lazy_link_target, link_late_string, search_host_dylibs, trivial_host_result, CodeCache, Dyld, ExportKind, GuestFunction, HostConstant, HostDylib, HostFunction,
    IndirectSymbolInfo, LateConstant, LazyLinkTarget, MachO, Section, SectionType, SpecialSymbol, SVC_LINKED_FUNCTIONS_BASE,
};
use touchhle::mem::Mem;

fn dylib(path: &str, functions: &[(&str, u32)]) -> HostDylib {
    HostDylib {
        path: path.to_string(),
        aliases: Vec::new(),
        class_exports: Vec::new(),
        constant_exports: Vec::new(),
        function_exports: functions.iter().map(|(n, i)| (n.to_string(), HostFunction::Export(*i))).collect(),
    }
}

fn bin(name: &str, exports: &[(&str, u32)]) -> MachO {
    MachO {
        name: name.to_string(),
        sections: Vec::new(),
        exported_symbols: exports.iter().map(|(n, a)| (n.to_string(), *a)).collect(),
        external_relocations: Vec::new(),
    }
}

#[test]
fn instruction_encodings() {
    assert_eq!(encode_a32_svc(0), 0xef00_0000);
    assert_eq!(encode_a32_svc(5), 0xef00_0005);
    assert_eq!(encode_a32_ret(), 0xe12f_ff1e);
    assert_eq!(encode_a32_trap(), 0xe7ff_defe);
}

#[test]
fn guest_function_thumb_bit() {
    let f = GuestFunction::from_addr_with_thumb_bit(0x1001);
    assert!(f.is_thumb());
    assert_eq!(f.addr_without_thumb_bit(), 0x1000);
    let g = GuestFunction::from_addr_with_thumb_bit(0x2000);
    assert!(!g.is_thumb());
    assert_eq!(g.addr_without_thumb_bit(), 0x2000);
}

#[test]
fn lazy_intercepts_are_classified() {
    assert_eq!(classify_lazy_intercept("_CC_SHA256"), HostFunction::CcSha256);
    assert_eq!(classify_lazy_intercept("__dyld_get_image_header"), HostFunction::DyldGetImageHeader);
    assert_eq!(classify_lazy_intercept("_dyld_register_func_for_add_image"), HostFunction::DyldRegisterImageFunc);
    assert_eq!(classify_lazy_intercept("_ZN3glf7TlsNodeC2Ev"), HostFunction::BoostAndGlfConstructor);
    assert_eq!(
        classify_lazy_intercept("_ZN5boost14singleton_poolINS_22fast_pool_allocator_tagELj4EE7is_fromEPv"),
        HostFunction::BoostSingletonPoolIsFrom
    );
    assert_eq!(classify_lazy_intercept("_something_else"), HostFunction::Unimplemented);
}

#[test]
fn trivial_host_results() {
    assert_eq!(trivial_host_result(HostFunction::Unimplemented), Some(0));
    assert_eq!(trivial_host_result(HostFunction::BoostSingletonPoolIsFrom), Some(1));
    assert_eq!(trivial_host_result(HostFunction::DyldGetImageHeader), Some(0));
    assert_eq!(trivial_host_result(HostFunction::CcSha256), None);
}

#[test]
fn special_symbols_are_classified() {
    assert_eq!(classify_special_symbol("_OBJC_CLASS_$_NSObject"), SpecialSymbol::ObjcClass);
    assert_eq!(classify_special_symbol("_OBJC_METACLASS_$_NSObject"), SpecialSymbol::ObjcMetaclass);
    assert_eq!(classify_special_symbol("___CFConstantStringClassReference"), SpecialSymbol::CFConstantStringClass);
    assert_eq!(classify_special_symbol("_dyld_stub_binder"), SpecialSymbol::StubBinder);
    assert_eq!(classify_special_symbol("__dispatch_main_q"), SpecialSymbol::NullCell);
    assert_eq!(classify_special_symbol("_in6addr_loopback"), SpecialSymbol::In6Addr(true));
    assert_eq!(classify_special_symbol("_in6addr_any"), SpecialSymbol::In6Addr(false));
    assert_eq!(classify_special_symbol("_printf"), SpecialSymbol::Ordinary);
}

#[test]
fn host_dylib_search_finds_first_export() {
    let dylibs = vec![dylib("/usr/lib/libA.dylib", &[("_f", 0), ("_g", 1)]), dylib("/usr/lib/libB.dylib", &[("_g", 7)])];
    assert_eq!(search_host_dylibs(&dylibs, ExportKind::Functions, "_g"), Some((0, 1)));
    assert_eq!(search_host_dylibs(&dylibs, ExportKind::Functions, "_h"), None);
    assert_eq!(search_host_dylibs(&dylibs, ExportKind::Classes, "_f"), None);
}

#[test]
fn exports_of_binaries() {
    let bins = vec![bin("app", &[("_main", 0x1000)]), bin("lib", &[("_main", 0x2000), ("_helper", 0x2101)])];
    assert_eq!(bins[0].exported_symbol("_main"), Some(0x1000));
    assert_eq!(find_in_bins(&bins, "_main"), Some(0x1000));
    assert_eq!(find_in_bins(&bins, "_helper"), Some(0x2101));
    assert_eq!(find_in_bins(&bins, "_missing"), None);
}

#[test]
fn proc_address_is_created_once() {
    let dylibs = vec![dylib("/usr/lib/libA.dylib", &[("_f", 3)])];
    let mut dyld = Dyld::new();
    let mut mem = Mem::new(0x10000, 0x1000);
    let mut cpu = CodeCache::new();
    let f = dyld.create_proc_address(&dylibs, &mut mem, &mut cpu, "_f").unwrap();
    assert_eq!(f.addr_with_thumb_bit() % 16, 0);
    assert_eq!(mem.read_u32(f.addr_with_thumb_bit()), encode_a32_svc(SVC_LINKED_FUNCTIONS_BASE));
    assert_eq!(mem.read_u32(f.addr_with_thumb_bit() + 4), encode_a32_ret());
    let g = dyld.create_proc_address(&dylibs, &mut mem, &mut cpu, "_f").unwrap();
    assert_eq!(f, g);
    assert!(dyld.create_proc_address(&dylibs, &mut mem, &mut cpu, "_nope").is_err());
    assert_eq!(cpu.invalidated.len(), 2);
    let h = dyld.get_svc_handler(&[], &dylibs, &mut mem, &mut cpu, f.addr_with_thumb_bit(), SVC_LINKED_FUNCTIONS_BASE);
    assert_eq!(h, Some(HostFunction::Export(3)));
    let none = dyld.get_svc_handler(&[], &dylibs, &mut mem, &mut cpu, 0, SVC_LINKED_FUNCTIONS_BASE + 5);
    assert_eq!(none, None);
}

#[test]
fn non_lazy_pointers_are_linked_to_exports() {
    let mut mem = Mem::new(0x10000, 0x1000);
    let other = bin("lib", &[("_value", 0x3456)]);
    let app = MachO {
        name: "app".to_string(),
        sections: vec![Section {
            section_type: SectionType::NonLazySymbolPointers,
            addr: 0x800,
            size: 8,
            dyld_indirect_symbol_info: Some(IndirectSymbolInfo {
                entry_size: 4,
                indirect_undef_symbols: vec![Some("_value".to_string()), None],
            }),
        }],
        exported_symbols: Vec::new(),
        external_relocations: vec![(0x900, "_value".to_string())],
    };
    mem.write_u32(0x900, 0x10);
    let bins = vec![app, other];
    let mut dyld = Dyld::new();
    let classes = dyld.do_non_lazy_linking(&bins[0], &bins, &[], &mut mem);
    assert!(classes.is_empty());
    assert_eq!(mem.read_u32(0x800), 0x3456);
    assert_eq!(mem.read_u32(0x804), 0);
    assert_eq!(mem.read_u32(0x900), 0x3466);
}

#[test]
fn lazy_symbols_are_linked_to_host_then_dylibs() {
    let dylibs = vec![dylib("/usr/lib/libSystem.dylib", &[("_malloc", 1)])];
    let bins = vec![bin("App", &[("_main", 0x1000)]), bin("libfoo.dylib", &[("_foo", 0x2000), ("_malloc", 0x2100)])];
    assert_eq!(lazy_link_target(&bins, &dylibs, "_malloc"), LazyLinkTarget::Host);
    assert_eq!(lazy_link_target(&bins, &dylibs, "_foo"), LazyLinkTarget::Dylib(1));
    assert_eq!(lazy_link_target(&bins, &dylibs, "_main"), LazyLinkTarget::Dylib(0));
    assert_eq!(lazy_link_target(&bins, &dylibs, "_bar"), LazyLinkTarget::Unlinked);
}

#[test]
fn late_string_is_stored_behind_its_pointer() {
    let mut mem = Mem::new(0x1000, 0x200);
    let c = LateConstant { symbol_ptr_ptr: 0x40, template: HostConstant::NullPtr };
    let a = link_late_string(&mut mem, &c, 0xabcd);
    assert_eq!(a, 0x200);
    assert_eq!(mem.read_u32(0x40), 0x200);
    assert_eq!(mem.read_u32(0x200), 0xabcd);
}
