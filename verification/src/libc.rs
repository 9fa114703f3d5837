//! Parts of the C library the emulated apps call: dynamic loading, signal
//! handlers, thread-specific data, memory mappings, network interfaces, and
//! stand-ins for a few C++ library routines.
//!
//! Guest pointers are 32-bit addresses; NULL is 0. Functions that set
//! `errno` do it in [Libc::errno].
use vstd::prelude::*;
use crate::dyld::{CodeCache, Dyld, HostDylib, SVC_LAZY_LINK_RET_FLAG, SVC_LINKED_FUNCTIONS_BASE, proc_address_target};
use crate::mem::{Mem, cstr_spec};
use crate::text::{seq_contains_seq, str_contains, str_eq};
use crate::assoc::{assoc, assoc_find, assoc_find_i32, keys_unique, lemma_assoc_push, lemma_assoc_update, lemma_assoc_remove};

verus! {

pub const EINVAL: i32 = 22;
pub const ENXIO: i32 = 6;
pub const ENOTSUP: i32 = 45;

/// `RTLD_DEFAULT`, the handle for the global symbol scope: `(void *)-2`.
pub const RTLD_DEFAULT: u32 = 0xffff_fffe;

/// `SIG_DFL`, the default signal action.
pub const SIG_DFL: u32 = 0;

/// `MAP_ANON`: a mapping that no file backs.
pub const MAP_ANON: i32 = 0x1000;

/// What `boost::singleton_pool<...>::is_from` answers: every pointer is
/// taken to come from the pool.
pub fn boost_singleton_pool_is_from_80(_ptr: u32) -> (r: i32)
    ensures
        r == 1,
{
    1
}

/// See [boost_singleton_pool_is_from_80].
pub fn boost_singleton_pool_is_from_208(_ptr: u32) -> (r: i32)
    ensures
        r == 1,
{
    1
}

/// Constructor of boost's random UUID generator; it does nothing and returns
/// the object.
pub fn boost_uuid_generator_ctor(this_ptr: u32) -> (r: u32)
    ensures
        r == this_ptr,
{
    this_ptr
}

/// Constructor of `boost::gregorian::date`; it does nothing and returns the
/// object.
pub fn boost_gregorian_date_ctor(this_ptr: u32, _y: u32, _m: u32, _d: u32) -> (r: u32)
    ensures
        r == this_ptr,
{
    this_ptr
}

/// Constructor of boost's counted time representation; it does nothing and
/// returns the object.
pub fn boost_posix_time_rep_ctor(this_ptr: u32, _date_ptr: u32, _duration_ptr: u32) -> (r: u32)
    ensures
        r == this_ptr,
{
    this_ptr
}

/// Constructor of `glf::TlsNode` for thread pointers; it does nothing and
/// returns the object.
pub fn glf_tls_node_ctor_1(this_ptr: u32, _arg_ptr: u32) -> (r: u32)
    ensures
        r == this_ptr,
{
    this_ptr
}

/// Constructor of `glf::TlsNode` for native thread-local storage.
pub fn glf_tls_node_ctor_2(this_ptr: u32, _arg_ptr: u32) -> (r: u32)
    ensures
        r == this_ptr,
{
    this_ptr
}

/// Constructor of `glf::TlsNode` for task groups.
pub fn glf_tls_node_ctor_3(this_ptr: u32, _arg_ptr: u32) -> (r: u32)
    ensures
        r == this_ptr,
{
    this_ptr
}

/// `path` is the path or one of the aliases of `d`.
pub open spec fn dylib_named(d: HostDylib, path: Seq<char>) -> bool {
    d.path@ == path || exists|j: int| 0 <= j < d.aliases@.len() && #[trigger] d.aliases@[j]@ == path
}

/// `path` is the path or an alias of one of the host dylibs.
pub open spec fn known_library(dylibs: Seq<HostDylib>, path: Seq<char>) -> bool {
    exists|i: int| 0 <= i < dylibs.len() && #[trigger] dylib_named(dylibs[i], path)
}

/// Whether `path` names one of the host dylibs, by its path or an alias.
pub fn is_known_library(dylibs: &[HostDylib], path: &str) -> (r: bool)
    ensures
        r == known_library(dylibs@, path@),
{
    let mut i: usize = 0;
    while i < dylibs.len()
        invariant
            i <= dylibs@.len(),
            forall|k: int| 0 <= k < i ==> !#[trigger] dylib_named(dylibs@[k], path@),
        decreases dylibs@.len() - i,
    {
        if str_eq(dylibs[i].path.as_str(), path) {
            assert(dylib_named(dylibs@[i as int], path@));
            return true;
        }
        let mut j: usize = 0;
        while j < dylibs[i].aliases.len()
            invariant
                i < dylibs@.len(),
                j <= dylibs@[i as int].aliases@.len(),
                forall|m: int| 0 <= m < j ==> #[trigger] dylibs@[i as int].aliases@[m]@ != path@,
            decreases dylibs@[i as int].aliases@.len() - j,
        {
            if str_eq(dylibs[i].aliases[j].as_str(), path) {
                assert(dylib_named(dylibs@[i as int], path@));
                return true;
            }
            j = j + 1;
        }
        assert(!dylib_named(dylibs@[i as int], path@));
        i = i + 1;
    }
    false
}

/// What UTF-8 decoding makes of `bytes`: the characters, or nothing if the
/// bytes are not UTF-8.
pub open spec fn utf8_decode(bytes: Seq<u8>) -> Option<Seq<char>> {
    if vstd::utf8::valid_utf8(bytes) {
        Some(vstd::utf8::decode_utf8(bytes))
    } else {
        None
    }
}

/// The characters of an ASCII byte string.
pub open spec fn ascii_chars(bytes: Seq<u8>) -> Seq<char> {
    bytes.map_values(|b: u8| b as char)
}

/// The characters of an optional string.
pub open spec fn string_opt_view(s: Option<String>) -> Option<Seq<char>> {
    match s {
        Some(s) => Some(s@),
        None => None,
    }
}

/// The string the bytes encode in UTF-8, if they do.
///
/// Trusted: wraps `std::str::from_utf8` and copies the result into a
/// `String`. Claims that `from_utf8` accepts exactly the bytes that vstd's
/// `valid_utf8` accepts (the UTF-8 encodings of Unicode scalar values, as
/// std documents) and decodes them as vstd's `decode_utf8`, i.e. the result
/// is [utf8_decode] of the bytes; and that bytes that are all ASCII decode
/// to the same characters (UTF-8 encodes ASCII as itself).
#[verifier::external_body]
fn utf8_string(bytes: &[u8]) -> (r: Option<String>)
    ensures
        string_opt_view(r) == utf8_decode(bytes@),
        (forall|i: int| 0 <= i < bytes@.len() ==> bytes@[i] < 0x80) ==> string_opt_view(r) == Some(ascii_chars(bytes@)),
{
    match std::str::from_utf8(bytes) {
        Ok(s) => Some(s.to_owned()),
        Err(_) => None,
    }
}

/// The NUL-terminated UTF-8 string at `addr`, if memory holds one there.
pub open spec fn guest_str(m: Seq<u8>, addr: int) -> Option<Seq<char>> {
    match cstr_spec(m, addr) {
        Some(bytes) => utf8_decode(bytes),
        None => None,
    }
}

/// Read the NUL-terminated UTF-8 string at `addr`.
pub fn read_guest_string(mem: &Mem, addr: u32) -> (r: Option<String>)
    requires
        mem.wf(),
    ensures
        r matches Some(s) ==> guest_str(mem@, addr as int) == Some(s@),
        r is None ==> guest_str(mem@, addr as int) is None,
{
    match mem.cstr_at(addr) {
        Some(bytes) => utf8_string(bytes.as_slice()),
        None => None,
    }
}

/// `dlopen`: the handle of a known library is the address of its path; an
/// unknown or unreadable path gives NULL, and no path the default handle.
pub fn dlopen(dylibs: &[HostDylib], mem: &Mem, path: u32, _mode: i32) -> (r: u32)
    requires
        mem.wf(),
    ensures
        path == 0 ==> r == RTLD_DEFAULT,
        path != 0 ==> r == match guest_str(mem@, path as int) {
            Some(p) => if known_library(dylibs@, p) { path } else { 0 },
            None => 0,
        },
{
    if path == 0 {
        return RTLD_DEFAULT;
    }
    match read_guest_string(mem, path) {
        Some(p) => if is_known_library(dylibs, p.as_str()) {
            path
        } else {
            0
        },
        None => 0,
    }
}

/// `dlclose`: 0 for the default handle and for a known library, -1
/// otherwise.
pub fn dlclose(dylibs: &[HostDylib], mem: &Mem, handle: u32) -> (r: i32)
    requires
        mem.wf(),
    ensures
        handle == RTLD_DEFAULT ==> r == 0,
        handle != RTLD_DEFAULT ==> r == match guest_str(mem@, handle as int) {
            Some(p) => if known_library(dylibs@, p) { 0i32 } else { -1i32 },
            None => -1i32,
        },
{
    if handle == RTLD_DEFAULT {
        return 0;
    }
    match read_guest_string(mem, handle) {
        Some(p) => if is_known_library(dylibs, p.as_str()) {
            0
        } else {
            -1
        },
        None => -1,
    }
}

/// What lower-casing makes of `s`.
pub uninterp spec fn lowercase(s: Seq<char>) -> Seq<char>;

/// `s` in lower case.
///
/// Trusted: wraps `str::to_lowercase`; claims the result is the name
/// [lowercase] applied to `s`.
#[verifier::external_body]
pub(crate) fn to_lowercase(s: &str) -> (r: String)
    ensures
        r@ == lowercase(s@),
{
    s.to_lowercase()
}

/// Symbols of native plugins (in-app purchases, analytics) that `dlsym`
/// routes to a function that returns 0 when nothing implements them.
pub open spec fn is_plugin_symbol(s: Seq<char>) -> bool {
    let l = lowercase(s);
    ||| seq_contains_seq(l, "iap"@)
    ||| seq_contains_seq(l, "kontagent"@)
    ||| seq_contains_seq(l, "playhaven"@)
    ||| seq_contains_seq(l, "flurry"@)
    ||| seq_contains_seq(l, "analytics"@)
}

/// `s` with a leading underscore, as C symbols are named in Mach-O.
pub open spec fn mangled(s: Seq<char>) -> Seq<char> {
    seq!['_'] + s
}

/// The symbol `dlsym` ends up looking for, and whether it is found: the
/// mangled symbol, else, for plugin symbols, the function that returns 0.
pub open spec fn dlsym_target(dylibs: Seq<HostDylib>, symbol: Seq<char>) -> Option<Seq<char>> {
    if proc_address_target(dylibs, mangled(symbol)) is Some {
        Some(mangled(symbol))
    } else if is_plugin_symbol(symbol) && proc_address_target(dylibs, "_dispatch_dummy_zero_stub"@) is Some {
        Some("_dispatch_dummy_zero_stub"@)
    } else {
        None
    }
}

/// `dlsym`: check the handle (the default handle or a known library), read
/// the symbol and return a guest function for the host function of that
/// name; NULL if any step fails.
pub fn dlsym(dylibs: &[HostDylib], dyld: &mut Dyld, mem: &mut Mem, cpu: &mut CodeCache, handle: u32, symbol: u32) -> (r: u32)
    requires
        old(mem).wf(),
        old(mem).free_space() >= 32,
        old(dyld).linked().len() + 2 + SVC_LINKED_FUNCTIONS_BASE < SVC_LAZY_LINK_RET_FLAG,
    ensures
        final(mem).wf(),
        ({
            let handle_ok = handle == RTLD_DEFAULT || (guest_str(old(mem)@, handle as int) matches Some(p)
                && known_library(dylibs@, p));
            let sym = guest_str(old(mem)@, symbol as int);
            if !handle_ok || symbol == 0 || sym is None {
                r == 0 && *final(dyld) == *old(dyld) && *final(mem) == *old(mem)
            } else {
                match dlsym_target(dylibs@, sym->0) {
                    None => r == 0,
                    Some(name) => crate::dyld::cache_lookup(final(dyld).cache(), crate::dyld::proc_target_name(dylibs@, name))
                        == Some(crate::dyld::GuestFunction { addr_with_thumb_bit: r }),
                }
            }
        }),
{
    if handle != RTLD_DEFAULT {
        match read_guest_string(mem, handle) {
            Some(p) => {
                if !is_known_library(dylibs, p.as_str()) {
                    return 0;
                }
            },
            None => {
                return 0;
            },
        }
    }
    if symbol == 0 {
        return 0;
    }
    let sym = match read_guest_string(mem, symbol) {
        Some(s) => s,
        None => {
            return 0;
        },
    };
    let formatted = crate::text::concat("_", sym.as_str());
    proof {
        reveal_strlit("_");
        assert("_"@ =~= seq!['_']);
    }
    match dyld.create_proc_address(dylibs, mem, cpu, formatted.as_str()) {
        Ok(f) => f.addr_with_thumb_bit,
        Err(()) => {
            let lower = to_lowercase(sym.as_str());
            if str_contains(lower.as_str(), "iap") || str_contains(lower.as_str(), "kontagent")
                || str_contains(lower.as_str(), "playhaven") || str_contains(lower.as_str(), "flurry")
                || str_contains(lower.as_str(), "analytics") {
                match dyld.create_proc_address(dylibs, mem, cpu, "_dispatch_dummy_zero_stub") {
                    Ok(f) => {
                        return f.addr_with_thumb_bit;
                    },
                    Err(()) => {},
                }
            }
            0
        },
    }
}

/// A `pthread_key_t`: one more than the index of the key's table.
pub type PthreadKey = u32;

/// The state of the C library: `errno`, thread-specific data, signal
/// handlers and memory mappings.
pub struct Libc {
    errno: i32,
    /// For each key, the value of each thread that set one, and the
    /// destructor.
    keys: Vec<(Vec<(u32, u32)>, u32)>,
    /// Signal handlers by signal number.
    handlers: Vec<(i32, u32)>,
    /// Memory mappings: address and length.
    mappings: Vec<(u32, u32)>,
}

impl Libc {
    /// The number of thread-specific data keys created.
    pub closed spec fn key_count(&self) -> nat {
        self.keys@.len()
    }

    /// The value `thread` set for the key with index `idx`.
    pub closed spec fn specific(&self, idx: int, thread: u32) -> Option<u32> {
        assoc(self.keys@[idx].0@, thread)
    }

    /// What `pthread_getspecific` reads for `key` on `thread`: the value set,
    /// NULL if none was or the key does not exist.
    pub open spec fn specific_value(&self, key: u32, thread: u32) -> u32 {
        if 1 <= key <= self.key_count() {
            match self.specific(key - 1, thread) {
                Some(v) => v,
                None => 0u32,
            }
        } else {
            0u32
        }
    }

    /// The destructor of the key with index `idx`.
    pub closed spec fn destructor(&self, idx: int) -> u32 {
        self.keys@[idx].1
    }

    /// The handler installed for `signum`.
    pub closed spec fn handler(&self, signum: i32) -> Option<u32> {
        assoc(self.handlers@, signum)
    }

    /// The length of the mapping at `addr`.
    pub closed spec fn mapping(&self, addr: u32) -> Option<u32> {
        assoc(self.mappings@, addr)
    }

    pub closed spec fn wf(&self) -> bool {
        keys_unique(self.mappings@)
    }

    /// The value of `errno`.
    pub closed spec fn errno(&self) -> i32 {
        self.errno
    }

    /// `self` and `other` have the same keys, handlers and mappings.
    pub closed spec fn same_tables(&self, other: &Libc) -> bool {
        self.keys@ == other.keys@ && self.handlers@ == other.handlers@ && self.mappings@ == other.mappings@
    }

    /// Two states with the same tables answer every lookup alike.
    pub proof fn lemma_same_tables(&self, other: &Libc)
        requires
            self.same_tables(other),
        ensures
            self.key_count() == other.key_count(),
            self.wf() == other.wf(),
            forall|i: int, t: u32| #[trigger] self.specific(i, t) == other.specific(i, t),
            forall|i: int| #[trigger] self.destructor(i) == other.destructor(i),
            forall|s: i32| #[trigger] self.handler(s) == other.handler(s),
            forall|a: u32| #[trigger] self.mapping(a) == other.mapping(a),
    {
    }

    /// The value of `errno`.
    pub fn get_errno(&self) -> (r: i32)
        ensures
            r == self.errno(),
    {
        self.errno
    }

    /// `errno` 0, no keys, no handlers, no mappings.
    pub fn new() -> (l: Libc)
        ensures
            l.wf(),
            l.errno() == 0,
            l.key_count() == 0,
            forall|s: i32| #[trigger] l.handler(s) is None,
            forall|a: u32| #[trigger] l.mapping(a) is None,
    {
        Libc { errno: 0, keys: Vec::new(), handlers: Vec::new(), mappings: Vec::new() }
    }

    /// `pthread_key_create`: make a key with no values and the given
    /// destructor (0 for none) and store it at `key_ptr`. Returns 0.
    pub fn pthread_key_create(&mut self, mem: &mut Mem, key_ptr: u32, destructor: u32) -> (r: i32)
        requires
            old(mem).wf(),
            key_ptr + 4 <= old(mem)@.len(),
            old(self).key_count() + 1 <= u32::MAX,
        ensures
            r == 0,
            final(self).wf() == old(self).wf(),
            final(self).errno() == old(self).errno(),
            final(self).key_count() == old(self).key_count() + 1,
            forall|i: int, t: u32| 0 <= i < old(self).key_count() ==> #[trigger] final(self).specific(i, t) == old(self).specific(i, t),
            forall|i: int| 0 <= i < old(self).key_count() ==> #[trigger] final(self).destructor(i) == old(self).destructor(i),
            forall|t: u32| #[trigger] final(self).specific(old(self).key_count() as int, t) is None,
            final(self).destructor(old(self).key_count() as int) == destructor,
            forall|s: i32| #[trigger] final(self).handler(s) == old(self).handler(s),
            forall|a: u32| #[trigger] final(self).mapping(a) == old(self).mapping(a),
            final(mem)@ == crate::mem::write_u32_spec(old(mem)@, key_ptr as int, (old(self).key_count() + 1) as u32),
            final(mem).wf(),
            final(mem).next_free_spec() == old(mem).next_free_spec(),
    {
        let key = (self.keys.len() + 1) as u32;
        self.keys.push((Vec::new(), destructor));
        proof {
            assert(self.keys@[old(self).key_count() as int].0@.len() == 0);
        }
        mem.write_u32(key_ptr, key);
        0
    }

    /// `pthread_getspecific`: the value `thread` set for `key`, NULL if it
    /// set none or the key does not exist.
    pub fn pthread_getspecific(&self, thread: u32, key: PthreadKey) -> (r: u32)
        ensures
            r == self.specific_value(key, thread),
    {
        if key == 0 {
            return 0;
        }
        let idx = (key - 1) as usize;
        if idx >= self.keys.len() {
            return 0;
        }
        match assoc_find(&self.keys[idx].0, thread) {
            Some(i) => self.keys[idx].0[i].1,
            None => 0,
        }
    }

    /// `pthread_setspecific`: set the value of `thread` for `key`. A key of
    /// 0 is ignored (returns 0), any other key that does not exist is
    /// `EINVAL`.
    pub fn pthread_setspecific(&mut self, thread: u32, key: PthreadKey, value: u32) -> (r: i32)
        ensures
            key == 0 ==> r == 0 && *final(self) == *old(self),
            key > old(self).key_count() ==> r == EINVAL && *final(self) == *old(self),
            1 <= key <= old(self).key_count() ==> {
                &&& r == 0
                &&& final(self).specific(key - 1, thread) == Some(value)
                &&& forall|t: u32| t != thread ==> #[trigger] final(self).specific(key - 1, t) == old(self).specific(key - 1, t)
            },
            final(self).key_count() == old(self).key_count(),
            final(self).errno() == old(self).errno(),
            final(self).wf() == old(self).wf(),
            forall|i: int, t: u32| 0 <= i < old(self).key_count() && i != key - 1
                ==> #[trigger] final(self).specific(i, t) == old(self).specific(i, t),
            forall|i: int| 0 <= i < old(self).key_count() ==> #[trigger] final(self).destructor(i) == old(self).destructor(i),
            forall|s: i32| #[trigger] final(self).handler(s) == old(self).handler(s),
            forall|a: u32| #[trigger] final(self).mapping(a) == old(self).mapping(a),
    {
        if key == 0 {
            return 0;
        }
        let idx = (key - 1) as usize;
        if idx >= self.keys.len() {
            return EINVAL;
        }
        let ghost before = self.keys@[idx as int].0@;
        let (mut values, d) = self.keys.remove(idx);
        match assoc_find(&values, thread) {
            Some(i) => {
                values.set(i, (thread, value));
                proof {
                    assert forall|t: u32| #[trigger] assoc(values@, t) == if t == thread { Some(value) } else { assoc(before, t) } by {
                        lemma_assoc_update(before, i as int, thread, value, t);
                    }
                }
            },
            None => {
                values.push((thread, value));
                proof {
                    assert forall|t: u32| #[trigger] assoc(values@, t) == if t == thread { Some(value) } else { assoc(before, t) } by {
                        lemma_assoc_push(before, thread, value, t);
                    }
                }
            },
        }
        self.keys.insert(idx, (values, d));
        proof {
            assert forall|i: int| 0 <= i < old(self).key_count() && i != idx implies #[trigger] self.keys@[i] == old(self).keys@[i] by {
                if i < idx {
                } else {
                }
            }
        }
        0
    }

    /// `pthread_key_delete`: keys are never deleted; returns 0.
    pub fn pthread_key_delete(&self, _key: PthreadKey) -> (r: i32)
        ensures
            r == 0,
    {
        0
    }

    /// `signal`: install `handler` for `signum` and return the handler it
    /// had (`SIG_DFL` if none was installed). Sets `errno` to 0.
    pub fn signal(&mut self, signum: i32, handler: u32) -> (r: u32)
        ensures
            r == match old(self).handler(signum) {
                Some(h) => h,
                None => SIG_DFL,
            },
            final(self).handler(signum) == Some(handler),
            forall|s: i32| s != signum ==> #[trigger] final(self).handler(s) == old(self).handler(s),
            final(self).errno() == 0,
            final(self).key_count() == old(self).key_count(),
            forall|i: int, t: u32| #[trigger] final(self).specific(i, t) == old(self).specific(i, t),
            forall|a: u32| #[trigger] final(self).mapping(a) == old(self).mapping(a),
            final(self).wf() == old(self).wf(),
    {
        self.errno = 0;
        let ghost before = self.handlers@;
        match assoc_find_i32(&self.handlers, signum) {
            Some(i) => {
                let old_handler = self.handlers[i].1;
                self.handlers.set(i, (signum, handler));
                proof {
                    assert forall|s: i32| #[trigger] assoc(self.handlers@, s) == if s == signum { Some(handler) } else { assoc(before, s) } by {
                        lemma_assoc_update(before, i as int, signum, handler, s);
                    }
                }
                old_handler
            },
            None => {
                self.handlers.push((signum, handler));
                proof {
                    assert forall|s: i32| #[trigger] assoc(self.handlers@, s) == if s == signum { Some(handler) } else { assoc(before, s) } by {
                        lemma_assoc_push(before, signum, handler, s);
                    }
                }
                SIG_DFL
            },
        }
    }

    /// `sigaction`: actions are not kept; the old action, if asked for,
    /// reads as sixteen zero bytes. Sets `errno` to 0 and returns 0.
    pub fn sigaction(&mut self, mem: &mut Mem, _signum: i32, _act: u32, old_act: u32) -> (r: i32)
        requires
            old(mem).wf(),
            old_act != 0 ==> old_act + 16 <= old(mem)@.len(),
        ensures
            r == 0,
            final(self).errno() == 0,
            final(mem).wf(),
            final(mem).next_free_spec() == old(mem).next_free_spec(),
            old_act == 0 ==> final(mem)@ == old(mem)@,
            old_act != 0 ==> crate::mem::same_outside(old(mem)@, final(mem)@, old_act as int, old_act + 16)
                && forall|i: int| old_act <= i < old_act + 16 ==> #[trigger] final(mem)@[i] == 0,
            final(self).key_count() == old(self).key_count(),
            forall|i: int, t: u32| #[trigger] final(self).specific(i, t) == old(self).specific(i, t),
            forall|s: i32| #[trigger] final(self).handler(s) == old(self).handler(s),
            forall|a: u32| #[trigger] final(self).mapping(a) == old(self).mapping(a),
            final(self).wf() == old(self).wf(),
    {
        self.errno = 0;
        if old_act != 0 {
            proof {
                mem.lemma_wf();
            }
            let mut i: u32 = 0;
            while i < 16
                invariant
                    mem.wf(),
                    mem@.len() <= u32::MAX,
                    old_act + 16 <= mem@.len(),
                    i <= 16,
                    mem@.len() == old(mem)@.len(),
                    mem.next_free_spec() == old(mem).next_free_spec(),
                    crate::mem::same_outside(old(mem)@, mem@, old_act as int, old_act + 16),
                    forall|j: int| old_act <= j < old_act + i ==> #[trigger] mem@[j] == 0,
                decreases 16 - i,
            {
                mem.write_u8(old_act + i, 0);
                i = i + 1;
            }
        }
        0
    }

    /// `sigprocmask`: masks are not kept. Sets `errno` to 0 and returns 0.
    pub fn sigprocmask(&mut self, _how: i32, _set: u32, _old_set: u32) -> (r: i32)
        ensures
            r == 0,
            final(self).errno() == 0,
            final(self).same_tables(&*old(self)),
    {
        self.errno = 0;
        0
    }

    /// `sigaltstack`: alternate stacks are not kept. Sets `errno` to 0 and
    /// returns 0.
    pub fn sigaltstack(&mut self, _ss: u32, _old_ss: u32) -> (r: i32)
        ensures
            r == 0,
            final(self).errno() == 0,
            final(self).same_tables(&*old(self)),
    {
        self.errno = 0;
        0
    }

    /// `mmap`: a zero-filled block of `len` bytes, registered as a mapping.
    /// An anonymous mapping with an address hint that is not mapped yet is
    /// placed at the hint; the block allocated is then left unused. For a
    /// file mapping (never with a hint) the caller reads the file into the
    /// block returned. Sets `errno` to 0. The block allocated must not be
    /// registered already where it is the mapping returned.
    pub fn mmap(&mut self, mem: &mut Mem, addr: u32, len: u32, flags: i32) -> (r: u32)
        requires
            old(mem).wf(),
            old(self).wf(),
            crate::mem::alloc_size(len) <= old(mem).free_space(),
            flags & MAP_ANON == 0 ==> addr == 0,
            !(flags & MAP_ANON != 0 && addr != 0 && old(self).mapping(addr) is None)
                ==> old(self).mapping(old(mem).next_free_spec() as u32) is None,
        ensures
            final(self).wf(),
            final(self).errno() == 0,
            final(mem).wf(),
            final(mem).next_free_spec() == old(mem).next_free_spec() + crate::mem::alloc_size(len),
            r == if flags & MAP_ANON != 0 && addr != 0 && old(self).mapping(addr) is None {
                addr
            } else {
                old(mem).next_free_spec() as u32
            },
            final(self).mapping(r) == Some(len),
            forall|a: u32| a != r ==> #[trigger] final(self).mapping(a) == old(self).mapping(a),
            forall|i: int| old(mem).next_free_spec() <= i < old(mem).next_free_spec() + crate::mem::alloc_size(len)
                ==> #[trigger] final(mem)@[i] == 0,
            crate::mem::same_outside(old(mem)@, final(mem)@, old(mem).next_free_spec(),
                old(mem).next_free_spec() + crate::mem::alloc_size(len)),
            final(self).key_count() == old(self).key_count(),
            forall|i: int, t: u32| #[trigger] final(self).specific(i, t) == old(self).specific(i, t),
            forall|s: i32| #[trigger] final(self).handler(s) == old(self).handler(s),
    {
        self.errno = 0;
        let block = mem.allocate(len);
        let mut ptr = block;
        if flags & MAP_ANON != 0 && addr != 0 {
            if assoc_find(&self.mappings, addr).is_none() {
                ptr = addr;
            }
        }
        let ghost before = self.mappings@;
        let found = assoc_find(&self.mappings, ptr);
        proof {
            assert(found is None);
            assert forall|j: int| 0 <= j < before.len() implies before[j].0 != ptr by {}
        }
        self.mappings.push((ptr, len));
        proof {
            assert forall|a: u32| #[trigger] assoc(self.mappings@, a) == if a == ptr { Some(len) } else { assoc(before, a) } by {
                lemma_assoc_push(before, ptr, len, a);
            }
            assert(keys_unique(self.mappings@)) by {
                assert forall|i: int, j: int| 0 <= i < j < self.mappings@.len() implies #[trigger] self.mappings@[i].0 != #[trigger] self.mappings@[j].0 by {
                    if j == before.len() {
                        assert(before[i].0 != ptr);
                    }
                }
            }
        }
        ptr
    }

    /// `munmap`: a length of 0 fails with `EINVAL` and -1; otherwise the
    /// mapping at `addr`, which must have this length, is removed and 0
    /// returned (`errno` 0). The block's memory is not reused.
    pub fn munmap(&mut self, addr: u32, len: u32) -> (r: i32)
        requires
            old(self).wf(),
            len != 0 ==> old(self).mapping(addr) == Some(len),
        ensures
            final(self).wf(),
            len == 0 ==> r == -1 && final(self).errno() == EINVAL && forall|a: u32| #[trigger] final(self).mapping(a) == old(self).mapping(a),
            len != 0 ==> r == 0 && final(self).errno() == 0 && final(self).mapping(addr) is None
                && forall|a: u32| a != addr ==> #[trigger] final(self).mapping(a) == old(self).mapping(a),
            final(self).key_count() == old(self).key_count(),
            forall|i: int, t: u32| #[trigger] final(self).specific(i, t) == old(self).specific(i, t),
            forall|s: i32| #[trigger] final(self).handler(s) == old(self).handler(s),
    {
        self.errno = 0;
        if len == 0 {
            self.errno = EINVAL;
            return -1;
        }
        let ghost before = self.mappings@;
        match assoc_find(&self.mappings, addr) {
            Some(i) => {
                self.mappings.remove(i);
                proof {
                    assert forall|a: u32| #[trigger] assoc(self.mappings@, a) == if a == addr { None } else { assoc(before, a) } by {
                        lemma_assoc_remove(before, i as int, a);
                    }
                    lemma_assoc_remove(before, i as int, addr);
                }
            },
            None => {},
        }
        0
    }

    /// `madvise`: not supported; `errno` is `ENOTSUP` and the result -1.
    pub fn madvise(&mut self, _addr: u32, _len: u32, _advice: i32) -> (r: i32)
        ensures
            r == -1,
            final(self).errno() == ENOTSUP,
            final(self).same_tables(&*old(self)),
    {
        self.errno = ENOTSUP;
        -1
    }

    /// `getifaddrs`: the device has no network interfaces; fails with -1,
    /// `errno` `EINVAL` for a NULL result pointer and `ENXIO` otherwise.
    pub fn getifaddrs(&mut self, ifap: u32) -> (r: i32)
        ensures
            r == -1,
            final(self).errno() == if ifap == 0 { EINVAL } else { ENXIO },
            final(self).same_tables(&*old(self)),
    {
        if ifap == 0 {
            self.errno = EINVAL;
            return -1;
        }
        self.errno = ENXIO;
        -1
    }

    /// `if_indextoname`: no interface has an index; NULL, `errno` `ENXIO`.
    pub fn if_indextoname(&mut self, _ifindex: u32, _ifname: u32) -> (r: u32)
        ensures
            r == 0,
            final(self).errno() == ENXIO,
            final(self).same_tables(&*old(self)),
    {
        self.errno = ENXIO;
        0
    }
}

/// `freeifaddrs`: there is nothing to free.
pub fn freeifaddrs(_ifa: u32) {
}

/// `if_nametoindex`: no interface has a name; 0.
pub fn if_nametoindex(_ifname: u32) -> (r: u32)
    ensures
        r == 0,
{
    0
}

/// `if_nameindex`: the list of interfaces is empty; NULL.
pub fn if_nameindex() -> (r: u32)
    ensures
        r == 0,
{
    0
}

/// `if_freenameindex`: there is nothing to free.
pub fn if_freenameindex(_ptr: u32) {
}

/// The layout of `struct ifaddrs` as 32-bit guests see it; pointers are
/// guest addresses.
#[allow(non_camel_case_types)]
pub struct ifaddrs {
    pub ifa_next: u32,
    pub ifa_name: u32,
    pub ifa_flags: u32,
    pub ifa_addr: u32,
    pub ifa_netmask: u32,
    pub ifa_broadaddr: u32,
    pub ifa_data: u32,
}

/// The layout of `struct if_nameindex` as 32-bit guests see it.
#[allow(non_camel_case_types)]
pub struct if_nameindex {
    pub if_index: u32,
    pub if_name: u32,
}

} // verus!

verus! {

/// What is read back of a write: after `pthread_setspecific` of `value` for
/// an existing `key` on `thread` (taking `before` to `after`), the thread
/// reads `value` for the key, and every other thread reads what it read
/// before; a key just created reads NULL on every thread.
pub proof fn lemma_specific_read_back(before: Libc, after: Libc, key: u32, thread: u32, value: u32, other: u32)
    requires
        1 <= key <= before.key_count(),
        after.key_count() == before.key_count(),
        after.specific(key - 1, thread) == Some(value),
        forall|t: u32| t != thread ==> #[trigger] after.specific(key - 1, t) == before.specific(key - 1, t),
    ensures
        after.specific_value(key, thread) == value,
        other != thread ==> after.specific_value(key, other) == before.specific_value(key, other),
{
    if other != thread {
        assert(after.specific(key - 1, other) == before.specific(key - 1, other));
    }
}

/// A key just created reads NULL on every thread, and the keys made before
/// it read as they did.
pub proof fn lemma_new_key_reads_null(before: Libc, after: Libc, thread: u32, key: u32)
    requires
        before.key_count() + 1 <= u32::MAX,
        after.key_count() == before.key_count() + 1,
        forall|t: u32| #[trigger] after.specific(before.key_count() as int, t) is None,
        forall|i: int, t: u32| 0 <= i < before.key_count() ==> #[trigger] after.specific(i, t) == before.specific(i, t),
    ensures
        after.specific_value((before.key_count() + 1) as u32, thread) == 0,
        key <= before.key_count() ==> after.specific_value(key, thread) == before.specific_value(key, thread),
{
    assert(after.specific(before.key_count() as int, thread) is None);
    if 1 <= key <= before.key_count() {
        assert(after.specific(key - 1, thread) == before.specific(key - 1, thread));
    }
}

} // verus!
