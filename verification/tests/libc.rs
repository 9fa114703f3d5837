use touchhle::dyld::{CodeCache, Dyld, HostDylib, HostFunction};
use touchhle::libc::{
    boost_singleton_pool_is_from_80, dlclose, dlopen, dlsym, glf_tls_node_ctor_1, if_nametoindex, is_known_library,
    read_guest_string, Libc, EINVAL, MAP_ANON, RTLD_DEFAULT, SIG_DFL,
};
use touchhle::mem::Mem;

fn dylibs() -> Vec<HostDylib> {
    vec![HostDylib {
        path: "/usr/lib/libSystem.B.dylib".to_string(),
        aliases: vec!["/usr/lib/libc.dylib".to_string()],
        class_exports: Vec::new(),
        constant_exports: Vec::new(),
        function_exports: vec![
            ("_printf".to_string(), HostFunction::Export(1)),
            ("_dispatch_dummy_zero_stub".to_string(), HostFunction::Export(2)),
        ],
    }]
}

fn put_str(mem: &mut Mem, addr: u32, s: &str) {
    for (i, b) in s.bytes().enumerate() {
        mem.write_u8(addr + i as u32, b);
    }
    mem.write_u8(addr + s.len() as u32, 0);
}

#[test]
fn known_libraries_by_path_or_alias() {
    let d = dylibs();
    assert!(is_known_library(&d, "/usr/lib/libSystem.B.dylib"));
    assert!(is_known_library(&d, "/usr/lib/libc.dylib"));
    assert!(!is_known_library(&d, "/usr/lib/libz.dylib"));
}

#[test]
fn dlopen_and_dlclose() {
    let d = dylibs();
    let mut mem = Mem::new(0x4000, 0x1000);
    put_str(&mut mem, 0x100, "/usr/lib/libc.dylib");
    put_str(&mut mem, 0x200, "/usr/lib/libz.dylib");
    assert_eq!(dlopen(&d, &mem, 0, 0), RTLD_DEFAULT);
    assert_eq!(dlopen(&d, &mem, 0x100, 0), 0x100);
    assert_eq!(dlopen(&d, &mem, 0x200, 0), 0);
    assert_eq!(dlclose(&d, &mem, RTLD_DEFAULT), 0);
    assert_eq!(dlclose(&d, &mem, 0x100), 0);
    assert_eq!(dlclose(&d, &mem, 0x200), -1);
    assert_eq!(read_guest_string(&mem, 0x100), Some("/usr/lib/libc.dylib".to_string()));
}

#[test]
fn dlsym_finds_mangled_symbol_or_plugin_stub() {
    let d = dylibs();
    let mut mem = Mem::new(0x4000, 0x1000);
    let mut dyld = Dyld::new();
    let mut cpu = CodeCache::new();
    put_str(&mut mem, 0x100, "printf");
    put_str(&mut mem, 0x200, "FlurryAnalyticsStart");
    put_str(&mut mem, 0x300, "nothing_here");
    let a = dlsym(&d, &mut dyld, &mut mem, &mut cpu, RTLD_DEFAULT, 0x100);
    assert_ne!(a, 0);
    assert_eq!(dlsym(&d, &mut dyld, &mut mem, &mut cpu, RTLD_DEFAULT, 0x100), a);
    let b = dlsym(&d, &mut dyld, &mut mem, &mut cpu, RTLD_DEFAULT, 0x200);
    assert_ne!(b, 0);
    assert_ne!(b, a);
    assert_eq!(dlsym(&d, &mut dyld, &mut mem, &mut cpu, RTLD_DEFAULT, 0x300), 0);
}

#[test]
fn thread_specific_data() {
    let mut libc = Libc::new();
    let mut mem = Mem::new(0x4000, 0x1000);
    assert_eq!(libc.pthread_key_create(&mut mem, 0x100, 0), 0);
    let key = mem.read_u32(0x100);
    assert_eq!(key, 1);
    assert_eq!(libc.pthread_getspecific(7, key), 0);
    assert_eq!(libc.pthread_setspecific(7, key, 0x55), 0);
    assert_eq!(libc.pthread_getspecific(7, key), 0x55);
    assert_eq!(libc.pthread_getspecific(8, key), 0);
    assert_eq!(libc.pthread_setspecific(7, 9, 1), EINVAL);
    assert_eq!(libc.pthread_setspecific(7, 0, 1), 0);
    assert_eq!(libc.pthread_key_delete(key), 0);
}

#[test]
fn signal_returns_previous_handler() {
    let mut libc = Libc::new();
    assert_eq!(libc.signal(11, 0x1000), SIG_DFL);
    assert_eq!(libc.signal(11, 0x2000), 0x1000);
    assert_eq!(libc.signal(6, 0x3000), SIG_DFL);
    assert_eq!(libc.get_errno(), 0);
}

#[test]
fn sigaction_clears_old_action() {
    let mut libc = Libc::new();
    let mut mem = Mem::new(0x4000, 0x1000);
    for i in 0..16u32 {
        mem.write_u8(0x200 + i, 0xaa);
    }
    assert_eq!(libc.sigaction(&mut mem, 11, 0, 0x200), 0);
    for i in 0..16u32 {
        assert_eq!(mem.read_u8(0x200 + i), 0);
    }
    assert_eq!(libc.sigprocmask(0, 0, 0), 0);
    assert_eq!(libc.sigaltstack(0, 0), 0);
}

#[test]
fn mmap_and_munmap() {
    let mut libc = Libc::new();
    let mut mem = Mem::new(0x10000, 0x1000);
    let a = libc.mmap(&mut mem, 0, 0x100, MAP_ANON);
    assert_eq!(a, 0x1000);
    let b = libc.mmap(&mut mem, 0x8000, 0x40, MAP_ANON);
    assert_eq!(b, 0x8000);
    assert_eq!(libc.munmap(a, 0), -1);
    assert_eq!(libc.get_errno(), EINVAL);
    assert_eq!(libc.munmap(a, 0x100), 0);
    assert_eq!(libc.get_errno(), 0);
    assert_eq!(libc.madvise(b, 0x40, 0), -1);
}

#[test]
fn stubs_answer_constants() {
    assert_eq!(boost_singleton_pool_is_from_80(0x1234), 1);
    assert_eq!(glf_tls_node_ctor_1(0x40, 0), 0x40);
    assert_eq!(if_nametoindex(0x100), 0);
}
