//! Dynamic linker.
//!
//! The guest app references functions, constants and classes of the system
//! frameworks. Instead of loading the framework binaries, the linker points
//! those references at stubs that call into the emulator's own host
//! implementations, and links symbols exported by the app's own dylibs the
//! ordinary way.
//!
//! Host implementations are reached through `svc` instructions: the immediate
//! of the `svc` is an index into the table of linked host functions, offset by
//! [SVC_LINKED_FUNCTIONS_BASE]; [SVC_LAZY_LINK] asks for a lazy symbol to be
//! resolved, and [SVC_LAZY_LINK_RET_FLAG] marks stubs of one instruction, after
//! which the host returns to the caller itself.
use vstd::prelude::*;
use crate::mem::{Mem, alloc_size, read_u32_spec};
use crate::text::{str_eq, str_contains, str_starts_with, str_strip_prefix, seq_starts_with, seq_contains_seq};

verus! {

pub const SVC_LAZY_LINK: u32 = 0;
pub const SVC_THREAD_EXIT: u32 = 1;
pub const SVC_RETURN_TO_HOST: u32 = 2;
pub const SVC_LINKED_FUNCTIONS_BASE: u32 = 3;
pub const SVC_LAZY_LINK_RET_FLAG: u32 = 0x80_0000;

/// Encodes an A32 `svc #imm` instruction.
pub fn encode_a32_svc(imm: u32) -> (r: u32)
    requires
        imm < 0x0100_0000,
    ensures
        r == imm + 0xef00_0000,
{
    imm + 0xef00_0000
}

/// Encodes an A32 `bx lr` instruction.
pub fn encode_a32_ret() -> (r: u32)
    ensures
        r == 0xe12f_ff1e,
{
    0xe12f_ff1e
}

/// Encodes an A32 undefined instruction, used as a trap.
pub fn encode_a32_trap() -> (r: u32)
    ensures
        r == 0xe7ff_defe,
{
    0xe7ff_defe
}

/// A guest function address; bit 0 set means Thumb code.
#[derive(Clone, Copy, PartialEq, Eq, Structural, Debug)]
pub struct GuestFunction {
    pub addr_with_thumb_bit: u32,
}

impl GuestFunction {
    pub fn from_addr_with_thumb_bit(addr: u32) -> (f: GuestFunction)
        ensures
            f.addr_with_thumb_bit == addr,
    {
        GuestFunction { addr_with_thumb_bit: addr }
    }

    pub fn addr_with_thumb_bit(&self) -> (r: u32)
        ensures
            r == self.addr_with_thumb_bit,
    {
        self.addr_with_thumb_bit
    }

    pub fn addr_without_thumb_bit(&self) -> (r: u32)
        ensures
            r == self.addr_with_thumb_bit - self.addr_with_thumb_bit % 2,
    {
        self.addr_with_thumb_bit - self.addr_with_thumb_bit % 2
    }

    pub fn is_thumb(&self) -> (r: bool)
        ensures
            r == (self.addr_with_thumb_bit % 2 == 1),
    {
        self.addr_with_thumb_bit % 2 == 1
    }
}

/// A host implementation that a guest call can be routed to.
#[derive(Clone, Copy, PartialEq, Eq, Structural, Debug)]
pub enum HostFunction {
    /// An entry of a host dylib's function table, by its index there.
    Export(u32),
    /// `dyld_stub_binder`, which does nothing.
    DyldStubBinder,
    /// Stand-in for a function with no implementation; returns 0.
    Unimplemented,
    /// `boost::singleton_pool<...>::is_from`, answered with 1.
    BoostSingletonPoolIsFrom,
    /// Constructors of boost and glf objects that need no work.
    BoostAndGlfConstructor,
    /// `std::__1::basic_string` destructor.
    LibcxxStringDestructor,
    /// `std::__1::basic_string` assignment.
    LibcxxStringAssign,
    /// `std::__1::basic_string` copy constructors.
    LibcxxStringInit,
    /// `_dyld_get_image_header`, answered with NULL.
    DyldGetImageHeader,
    /// `_dyld_register_func_for_add/remove_image`, which does nothing.
    DyldRegisterImageFunc,
    /// CommonCrypto `CC_SHA256`.
    CcSha256,
}

/// A constant that the linker creates on the guest's behalf.
#[derive(Debug)]
pub enum HostConstant {
    /// A pointer to a constant `NSString` with this content.
    NSString(String),
    /// A pointer to a NULL pointer.
    NullPtr,
    /// A value produced by one of the routines below.
    Custom(CustomConstant),
}

/// Routines that make the guest data behind a [HostConstant::Custom].
#[derive(Clone, Copy, PartialEq, Eq, Structural, Debug)]
pub enum CustomConstant {
    /// `UIBackgroundTaskInvalid`: the word `0xffffffff`.
    UIBackgroundTaskInvalid,
    /// `UIWindowLevelNormal`: the single-precision float 0.
    UIWindowLevelNormal,
    /// `UIWindowLevelStatusBar`: the single-precision float 1000.
    UIWindowLevelStatusBar,
    /// `UIWindowLevelAlert`: the single-precision float 2000.
    UIWindowLevelAlert,
    /// `GLKMatrix4Identity`: sixteen single-precision floats, the identity.
    GLKMatrix4Identity,
}

impl HostConstant {
    /// A copy of this constant description.
    pub fn duplicate(&self) -> (r: HostConstant)
        ensures
            r == *self,
    {
        match self {
            HostConstant::NSString(s) => HostConstant::NSString(s.clone()),
            HostConstant::NullPtr => HostConstant::NullPtr,
            HostConstant::Custom(id) => HostConstant::Custom(*id),
        }
    }
}

/// A host implementation of a dynamic library, as the linker sees it.
pub struct HostDylib {
    pub path: String,
    pub aliases: Vec<String>,
    pub class_exports: Vec<String>,
    pub constant_exports: Vec<(String, HostConstant)>,
    pub function_exports: Vec<(String, HostFunction)>,
}

/// Which table of a [HostDylib] to search.
#[derive(Clone, Copy, PartialEq, Eq, Structural, Debug)]
pub enum ExportKind {
    Classes,
    Constants,
    Functions,
}

/// The symbol names of one table of a dylib.
pub open spec fn export_names(d: HostDylib, kind: ExportKind) -> Seq<Seq<char>> {
    match kind {
        ExportKind::Classes => d.class_exports@.map_values(|s: String| s@),
        ExportKind::Constants => d.constant_exports@.map_values(|e: (String, HostConstant)| e.0@),
        ExportKind::Functions => d.function_exports@.map_values(|e: (String, HostFunction)| e.0@),
    }
}

/// `(i, j)` is the first place where `symbol` occurs, dylib by dylib and entry
/// by entry.
pub open spec fn is_first_export(dylibs: Seq<HostDylib>, kind: ExportKind, symbol: Seq<char>, i: int, j: int) -> bool {
    &&& 0 <= i < dylibs.len()
    &&& 0 <= j < export_names(dylibs[i], kind).len()
    &&& export_names(dylibs[i], kind)[j] == symbol
    &&& forall|i2: int, j2: int|
        0 <= i2 < dylibs.len() && 0 <= j2 < export_names(dylibs[i2], kind).len() && (i2 < i || (
        i2 == i && j2 < j)) ==> export_names(dylibs[i2], kind)[j2] != symbol
}

pub open spec fn exported_nowhere(dylibs: Seq<HostDylib>, kind: ExportKind, symbol: Seq<char>) -> bool {
    forall|i: int, j: int|
        0 <= i < dylibs.len() && 0 <= j < export_names(dylibs[i], kind).len()
            ==> export_names(dylibs[i], kind)[j] != symbol
}

/// Index of the first entry of `list` named `symbol`.
fn search_lists<T>(list: &Vec<(String, T)>, symbol: &str) -> (r: Option<usize>)
    ensures
        r matches Some(j) ==> j < list@.len() && list@[j as int].0@ == symbol@ && forall|k: int|
            0 <= k < j ==> list@[k].0@ != symbol@,
        r is None ==> forall|k: int| 0 <= k < list@.len() ==> list@[k].0@ != symbol@,
{
    let mut j: usize = 0;
    while j < list.len()
        invariant
            j <= list@.len(),
            forall|k: int| 0 <= k < j ==> list@[k].0@ != symbol@,
        decreases list@.len() - j,
    {
        if str_eq(list[j].0.as_str(), symbol) {
            return Some(j);
        }
        j = j + 1;
    }
    None
}

fn search_names(list: &Vec<String>, symbol: &str) -> (r: Option<usize>)
    ensures
        r matches Some(j) ==> j < list@.len() && list@[j as int]@ == symbol@ && forall|k: int|
            0 <= k < j ==> list@[k]@ != symbol@,
        r is None ==> forall|k: int| 0 <= k < list@.len() ==> list@[k]@ != symbol@,
{
    let mut j: usize = 0;
    while j < list.len()
        invariant
            j <= list@.len(),
            forall|k: int| 0 <= k < j ==> list@[k]@ != symbol@,
        decreases list@.len() - j,
    {
        if str_eq(list[j].as_str(), symbol) {
            return Some(j);
        }
        j = j + 1;
    }
    None
}

/// Search the host dylibs for a class, constant or function by its symbol:
/// the position (dylib, entry) of its first occurrence.
pub fn search_host_dylibs(dylibs: &[HostDylib], kind: ExportKind, symbol: &str) -> (r: Option<(usize, usize)>)
    ensures
        r matches Some((i, j)) ==> is_first_export(dylibs@, kind, symbol@, i as int, j as int),
        r is None ==> exported_nowhere(dylibs@, kind, symbol@),
{
    let mut i: usize = 0;
    while i < dylibs.len()
        invariant
            i <= dylibs@.len(),
            forall|i2: int, j2: int|
                0 <= i2 < i && 0 <= j2 < export_names(dylibs@[i2], kind).len()
                    ==> export_names(dylibs@[i2], kind)[j2] != symbol@,
        decreases dylibs@.len() - i,
    {
        let d = &dylibs[i];
        let found = match kind {
            ExportKind::Classes => search_names(&d.class_exports, symbol),
            ExportKind::Constants => search_lists(&d.constant_exports, symbol),
            ExportKind::Functions => search_lists(&d.function_exports, symbol),
        };
        if let Some(j) = found {
            return Some((i, j));
        }
        i = i + 1;
    }
    None
}

} // verus!

verus! {

/// Kinds of Mach-O sections the linker works with.
#[derive(Clone, Copy, PartialEq, Eq, Structural, Debug)]
pub enum SectionType {
    SymbolStubs,
    LazySymbolPointers,
    NonLazySymbolPointers,
    Other,
}

/// Indirect symbol information of a stub or pointer section.
pub struct IndirectSymbolInfo {
    pub entry_size: u32,
    /// For each entry, the undefined symbol it refers to, if any.
    pub indirect_undef_symbols: Vec<Option<String>>,
}

pub struct Section {
    pub section_type: SectionType,
    pub addr: u32,
    pub size: u32,
    pub dyld_indirect_symbol_info: Option<IndirectSymbolInfo>,
}

/// What the linker needs to know of a loaded Mach-O binary.
pub struct MachO {
    pub name: String,
    pub sections: Vec<Section>,
    /// Exported symbols and their addresses (bit 0 set for Thumb code).
    pub exported_symbols: Vec<(String, u32)>,
    /// External relocations: the address of a pointer to relocate and the
    /// symbol it refers to.
    pub external_relocations: Vec<(u32, String)>,
}

/// Index of the first section of the given type at or after `i`.
pub open spec fn first_section_from(sections: Seq<Section>, t: SectionType, i: int) -> Option<int>
    decreases sections.len() - i,
{
    if i < 0 || i >= sections.len() {
        None
    } else if sections[i].section_type == t {
        Some(i)
    } else {
        first_section_from(sections, t, i + 1)
    }
}

/// Index of the first section of the given type.
pub open spec fn first_section(sections: Seq<Section>, t: SectionType) -> Option<int> {
    first_section_from(sections, t, 0)
}

/// The section found for a type is within the list and has that type.
pub proof fn lemma_first_section_from_bounds(sections: Seq<Section>, t: SectionType, i: int)
    ensures
        first_section_from(sections, t, i) matches Some(k) ==> 0 <= k < sections.len() && sections[k].section_type == t,
    decreases sections.len() - i,
{
    if i < 0 || i >= sections.len() {
    } else if sections[i].section_type == t {
    } else {
        lemma_first_section_from_bounds(sections, t, i + 1);
    }
}

impl MachO {
    /// The first section of the given type.
    pub fn get_section(&self, t: SectionType) -> (r: Option<usize>)
        ensures
            r matches Some(i) ==> first_section(self.sections@, t) == Some(i as int) && i
                < self.sections@.len() && self.sections@[i as int].section_type == t,
            r is None ==> first_section(self.sections@, t) is None,
    {
        let mut i: usize = 0;
        while i < self.sections.len()
            invariant
                i <= self.sections@.len(),
                first_section(self.sections@, t) == first_section_from(self.sections@, t, i as int),
            decreases self.sections@.len() - i,
        {
            if self.sections[i].section_type == t {
                return Some(i);
            }
            i = i + 1;
        }
        None
    }

    /// The address of an exported symbol.
    pub fn exported_symbol(&self, symbol: &str) -> (r: Option<u32>)
        ensures
            r == first_export_addr(self.exported_symbols@, symbol@),
    {
        let mut j: usize = 0;
        assert(self.exported_symbols@.subrange(0, self.exported_symbols@.len() as int) =~= self.exported_symbols@);
        while j < self.exported_symbols.len()
            invariant
                j <= self.exported_symbols@.len(),
                first_export_addr(self.exported_symbols@, symbol@) == first_export_addr(
                    self.exported_symbols@.subrange(j as int, self.exported_symbols@.len() as int),
                    symbol@,
                ),
            decreases self.exported_symbols@.len() - j,
        {
            let ghost rest = self.exported_symbols@.subrange(j as int, self.exported_symbols@.len() as int);
            assert(rest.drop_first() =~= self.exported_symbols@.subrange(j + 1, self.exported_symbols@.len() as int));
            if str_eq(self.exported_symbols[j].0.as_str(), symbol) {
                return Some(self.exported_symbols[j].1);
            }
            j = j + 1;
        }
        None
    }
}

/// The address of the first export named `symbol`.
pub open spec fn first_export_addr(exports: Seq<(String, u32)>, symbol: Seq<char>) -> Option<u32>
    decreases exports.len(),
{
    if exports.len() == 0 {
        None
    } else if exports[0].0@ == symbol {
        Some(exports[0].1)
    } else {
        first_export_addr(exports.drop_first(), symbol)
    }
}

/// The address of `symbol` in the first of `bins` that exports it.
pub open spec fn bins_export_addr(bins: Seq<MachO>, symbol: Seq<char>) -> Option<u32>
    decreases bins.len(),
{
    if bins.len() == 0 {
        None
    } else if first_export_addr(bins[0].exported_symbols@, symbol) is Some {
        first_export_addr(bins[0].exported_symbols@, symbol)
    } else {
        bins_export_addr(bins.drop_first(), symbol)
    }
}

/// The address of `symbol` in the first binary that exports it.
pub fn find_in_bins(bins: &[MachO], symbol: &str) -> (r: Option<u32>)
    ensures
        r == bins_export_addr(bins@, symbol@),
{
    let mut i: usize = 0;
    assert(bins@.subrange(0, bins@.len() as int) =~= bins@);
    while i < bins.len()
        invariant
            i <= bins@.len(),
            bins_export_addr(bins@, symbol@) == bins_export_addr(
                bins@.subrange(i as int, bins@.len() as int),
                symbol@,
            ),
        decreases bins@.len() - i,
    {
        let ghost rest = bins@.subrange(i as int, bins@.len() as int);
        assert(rest.drop_first() =~= bins@.subrange(i + 1, bins@.len() as int));
        let found = bins[i].exported_symbol(symbol);
        if found.is_some() {
            return found;
        }
        i = i + 1;
    }
    None
}

/// Records instruction-cache ranges that the CPU has to drop, because the
/// linker rewrote the code in them.
pub struct CodeCache {
    pub invalidated: Vec<(u32, u32)>,
}

impl CodeCache {
    pub fn new() -> (c: CodeCache)
        ensures
            c.invalidated@ == Seq::<(u32, u32)>::empty(),
    {
        CodeCache { invalidated: Vec::new() }
    }

    pub fn invalidate_cache_range(&mut self, addr: u32, size: u32)
        ensures
            final(self).invalidated@ == old(self).invalidated@.push((addr, size)),
    {
        self.invalidated.push((addr, size));
    }
}

/// Write a routine of two instructions, `svc #svc` and a trap, and return it.
pub fn write_return_to_host_routine(mem: &mut Mem, svc: u32) -> (f: GuestFunction)
    requires
        old(mem).wf(),
        old(mem).free_space() >= 16,
        svc < 0x0100_0000,
    ensures
        final(mem).wf(),
        f.addr_with_thumb_bit == old(mem).next_free_spec(),
        f.addr_with_thumb_bit % 2 == 0,
        final(mem).next_free_spec() == old(mem).next_free_spec() + 16,
        read_u32_spec(final(mem)@, f.addr_with_thumb_bit as int) == svc + 0xef00_0000,
        read_u32_spec(final(mem)@, f.addr_with_thumb_bit + 4) == 0xe7ff_defe,
        crate::mem::same_outside(old(mem)@, final(mem)@, f.addr_with_thumb_bit as int, f.addr_with_thumb_bit + 16),
{
    let ptr = mem.allocate(8);
    assert(alloc_size(8) == 16);
    let ghost m1 = mem@;
    mem.write_u32(ptr, encode_a32_svc(svc));
    let ghost m2 = mem@;
    mem.write_u32(ptr + 4, encode_a32_trap());
    proof {
        crate::mem::lemma_write_read_u32(m1, ptr as int, (svc + 0xef00_0000) as u32);
        crate::mem::lemma_write_read_u32(m2, ptr + 4, 0xe7ff_defe);
    }
    let f = GuestFunction::from_addr_with_thumb_bit(ptr);
    f
}

} // verus!

verus! {

/// The linker's state.
pub struct Dyld {
    linked_host_functions: Vec<(String, HostFunction)>,
    return_to_host_routine: Option<GuestFunction>,
    thread_exit_routine: Option<GuestFunction>,
    constants_to_link_later: Vec<(u32, HostConstant)>,
    non_lazy_host_functions: Vec<(String, GuestFunction)>,
}

/// The cached guest function for `name`, if any.
pub open spec fn cache_lookup(cache: Seq<(String, GuestFunction)>, name: Seq<char>) -> Option<GuestFunction>
    decreases cache.len(),
{
    if cache.len() == 0 {
        None
    } else if cache[0].0@ == name {
        Some(cache[0].1)
    } else {
        cache_lookup(cache.drop_first(), name)
    }
}

/// The guest code of a linked function: `svc` and a return.
pub open spec fn guest_function_code_at(m: Seq<u8>, addr: int, svc: int) -> bool {
    &&& read_u32_spec(m, addr) == svc + 0xef00_0000
    &&& read_u32_spec(m, addr + 4) == 0xe12f_ff1e
}

impl Dyld {
    /// The table of linked host functions: symbol and implementation, in the
    /// order of their `svc` numbers.
    pub closed spec fn linked(&self) -> Seq<(String, HostFunction)> {
        self.linked_host_functions@
    }

    /// Guest functions already created for host functions, by symbol.
    pub closed spec fn cache(&self) -> Seq<(String, GuestFunction)> {
        self.non_lazy_host_functions@
    }

    /// Pointers still to be filled with host constants.
    pub closed spec fn pending_constants(&self) -> Seq<(u32, HostConstant)> {
        self.constants_to_link_later@
    }

    pub closed spec fn return_routine(&self) -> Option<GuestFunction> {
        self.return_to_host_routine
    }

    pub closed spec fn exit_routine(&self) -> Option<GuestFunction> {
        self.thread_exit_routine
    }

    pub fn new() -> (d: Dyld)
        ensures
            d.linked().len() == 0,
            d.cache().len() == 0,
            d.pending_constants().len() == 0,
            d.return_routine() is None,
            d.exit_routine() is None,
    {
        Dyld {
            linked_host_functions: Vec::new(),
            return_to_host_routine: None,
            thread_exit_routine: None,
            constants_to_link_later: Vec::new(),
            non_lazy_host_functions: Vec::new(),
        }
    }

    pub fn return_to_host_routine(&self) -> (f: GuestFunction)
        requires
            self.return_routine() is Some,
        ensures
            Some(f) == self.return_routine(),
    {
        self.return_to_host_routine.unwrap()
    }

    pub fn thread_exit_routine(&self) -> (f: GuestFunction)
        requires
            self.exit_routine() is Some,
        ensures
            Some(f) == self.exit_routine(),
    {
        self.thread_exit_routine.unwrap()
    }

    /// Write the routines that return to the host and that end a thread.
    /// Both must not have been written before.
    pub fn do_initial_linking_with_no_bins(&mut self, mem: &mut Mem)
        requires
            old(self).return_routine() is None,
            old(self).exit_routine() is None,
            old(mem).wf(),
            old(mem).free_space() >= 32,
        ensures
            final(mem).wf(),
            final(mem)@.len() == old(mem)@.len(),
            final(mem).next_free_spec() == old(mem).next_free_spec() + 32,
            final(self).return_routine() == Some(GuestFunction { addr_with_thumb_bit: old(mem).next_free_spec() as u32 }),
            final(self).exit_routine() == Some(GuestFunction { addr_with_thumb_bit: (old(mem).next_free_spec() + 16) as u32 }),
            read_u32_spec(final(mem)@, old(mem).next_free_spec()) == SVC_RETURN_TO_HOST + 0xef00_0000,
            read_u32_spec(final(mem)@, old(mem).next_free_spec() + 16) == SVC_THREAD_EXIT + 0xef00_0000,
            read_u32_spec(final(mem)@, old(mem).next_free_spec() + 4) == 0xe7ff_defe,
            read_u32_spec(final(mem)@, old(mem).next_free_spec() + 20) == 0xe7ff_defe,
            crate::mem::same_outside(old(mem)@, final(mem)@, old(mem).next_free_spec(), old(mem).next_free_spec() + 32),
            final(self).linked() == old(self).linked(),
            final(self).cache() == old(self).cache(),
            final(self).pending_constants() == old(self).pending_constants(),
    {
        let r = write_return_to_host_routine(mem, SVC_RETURN_TO_HOST);
        let ghost m1 = mem@;
        let t = write_return_to_host_routine(mem, SVC_THREAD_EXIT);
        assert(read_u32_spec(mem@, r.addr_with_thumb_bit as int) == read_u32_spec(m1, r.addr_with_thumb_bit as int));
        assert(read_u32_spec(mem@, r.addr_with_thumb_bit + 4) == read_u32_spec(m1, r.addr_with_thumb_bit + 4));
        self.return_to_host_routine = Some(r);
        self.thread_exit_routine = Some(t);
    }

    /// Link a host function under `symbol` and write a guest function that
    /// calls it: `svc` with the function's number, then a return.
    pub fn create_guest_function(&mut self, mem: &mut Mem, symbol: String, f: HostFunction) -> (r: GuestFunction)
        requires
            old(mem).wf(),
            old(mem).free_space() >= 16,
            old(self).linked().len() + SVC_LINKED_FUNCTIONS_BASE < SVC_LAZY_LINK_RET_FLAG,
        ensures
            final(self).linked() == old(self).linked().push((symbol, f)),
            final(self).cache() == old(self).cache(),
            final(self).pending_constants() == old(self).pending_constants(),
            final(self).return_routine() == old(self).return_routine(),
            final(self).exit_routine() == old(self).exit_routine(),
            final(mem).wf(),
            r.addr_with_thumb_bit == old(mem).next_free_spec(),
            final(mem).next_free_spec() == old(mem).next_free_spec() + 16,
            guest_function_code_at(final(mem)@, r.addr_with_thumb_bit as int, old(self).linked().len() + SVC_LINKED_FUNCTIONS_BASE),
            crate::mem::same_outside(old(mem)@, final(mem)@, r.addr_with_thumb_bit as int, r.addr_with_thumb_bit + 16),
    {
        let idx = self.linked_host_functions.len() as u32;
        let svc = idx + SVC_LINKED_FUNCTIONS_BASE;
        self.linked_host_functions.push((symbol, f));
        let ptr = mem.allocate(8);
        assert(alloc_size(8) == 16);
        let ghost m1 = mem@;
        mem.write_u32(ptr, encode_a32_svc(svc));
        let ghost m2 = mem@;
        mem.write_u32(ptr + 4, encode_a32_ret());
        proof {
            crate::mem::lemma_write_read_u32(m1, ptr as int, (svc + 0xef00_0000) as u32);
            crate::mem::lemma_write_read_u32(m2, ptr + 4, 0xe12f_ff1e);
        }
        GuestFunction::from_addr_with_thumb_bit(ptr)
    }

    /// The guest function cached for `name`.
    fn cached_function(&self, name: &str) -> (r: Option<GuestFunction>)
        ensures
            r == cache_lookup(self.cache(), name@),
    {
        let mut j: usize = 0;
        assert(self.non_lazy_host_functions@.subrange(0, self.non_lazy_host_functions@.len() as int) =~= self.non_lazy_host_functions@);
        while j < self.non_lazy_host_functions.len()
            invariant
                j <= self.non_lazy_host_functions@.len(),
                cache_lookup(self.non_lazy_host_functions@, name@) == cache_lookup(
                    self.non_lazy_host_functions@.subrange(j as int, self.non_lazy_host_functions@.len() as int),
                    name@,
                ),
            decreases self.non_lazy_host_functions@.len() - j,
        {
            let ghost rest = self.non_lazy_host_functions@.subrange(j as int, self.non_lazy_host_functions@.len() as int);
            assert(rest.drop_first() =~= self.non_lazy_host_functions@.subrange(j + 1, self.non_lazy_host_functions@.len() as int));
            if str_eq(self.non_lazy_host_functions[j].0.as_str(), name) {
                return Some(self.non_lazy_host_functions[j].1);
            }
            j = j + 1;
        }
        None
    }
}

/// `symbol` names the stub binder, with or without the leading underscore.
pub open spec fn is_stub_binder_symbol(symbol: Seq<char>) -> bool {
    symbol == "dyld_stub_binder"@ || symbol == "_dyld_stub_binder"@
}

/// What [Dyld::create_proc_address] resolves `symbol` to: the name the guest
/// function is cached under and the host function, or nothing.
pub open spec fn proc_address_target(dylibs: Seq<HostDylib>, symbol: Seq<char>) -> Option<(Seq<char>, HostFunction)> {
    if is_stub_binder_symbol(symbol) {
        Some(("dyld_stub_binder"@, HostFunction::DyldStubBinder))
    } else if exported_nowhere(dylibs, ExportKind::Functions, symbol) {
        None
    } else {
        let (i, j) = choose|i: int, j: int| is_first_export(dylibs, ExportKind::Functions, symbol, i, j);
        Some((symbol, dylibs[i].function_exports@[j].1))
    }
}

/// The name the guest function for `symbol` is cached under.
pub open spec fn proc_target_name(dylibs: Seq<HostDylib>, symbol: Seq<char>) -> Seq<char> {
    match proc_address_target(dylibs, symbol) {
        Some((name, _)) => name,
        None => symbol,
    }
}

/// The first export of a symbol is one place only.
pub proof fn lemma_first_export_unique(dylibs: Seq<HostDylib>, kind: ExportKind, symbol: Seq<char>, i: int, j: int, i2: int, j2: int)
    requires
        is_first_export(dylibs, kind, symbol, i, j),
        is_first_export(dylibs, kind, symbol, i2, j2),
    ensures
        i == i2 && j == j2,
{
}

impl Dyld {
    /// Make a guest function for a host function (or return the one made
    /// before), without telling the CPU about the new code.
    fn create_proc_address_no_inval(&mut self, dylibs: &[HostDylib], mem: &mut Mem, symbol: &str) -> (r: Result<GuestFunction, ()>)
        requires
            old(mem).wf(),
            old(mem).free_space() >= 16,
            old(self).linked().len() + SVC_LINKED_FUNCTIONS_BASE < SVC_LAZY_LINK_RET_FLAG,
        ensures
            final(mem).wf(),
            final(self).pending_constants() == old(self).pending_constants(),
            final(self).return_routine() == old(self).return_routine(),
            final(self).exit_routine() == old(self).exit_routine(),
            r is Err <==> proc_address_target(dylibs@, symbol@) is None,
            r is Err ==> *final(self) == *old(self) && *final(mem) == *old(mem),
            r matches Ok(f) ==> {
                let (name, host) = proc_address_target(dylibs@, symbol@)->0;
                cache_lookup(final(self).cache(), name) == Some(f) && if cache_lookup(old(self).cache(), name) is Some {
                    *final(self) == *old(self) && *final(mem) == *old(mem)
                } else {
                    &&& final(self).linked() =~~= old(self).linked().push((final(self).linked().last().0, host))
                    &&& final(self).linked().last().0@ == name
                    &&& final(self).cache().len() == old(self).cache().len() + 1
                    &&& f.addr_with_thumb_bit == old(mem).next_free_spec()
                    &&& final(mem).next_free_spec() == old(mem).next_free_spec() + 16
                    &&& guest_function_code_at(final(mem)@, f.addr_with_thumb_bit as int, old(self).linked().len() + SVC_LINKED_FUNCTIONS_BASE)
                    &&& crate::mem::same_outside(old(mem)@, final(mem)@, f.addr_with_thumb_bit as int, f.addr_with_thumb_bit + 16)
                }
            },
            r is Ok ==> final(self).linked().len() <= old(self).linked().len() + 1,
    {
        let binder1 = "dyld_stub_binder";
        let binder2 = "_dyld_stub_binder";
        if str_eq(symbol, binder1) || str_eq(symbol, binder2) {
            let name = binder1;
            if let Some(cached_fn) = self.cached_function(name) {
                return Ok(cached_fn);
            }
            let function_ptr = self.create_guest_function(mem, name.to_owned(), HostFunction::DyldStubBinder);
            self.non_lazy_host_functions.insert(0, (name.to_owned(), function_ptr));
            proof {
                assert(self.non_lazy_host_functions@[0].0@ == name@);
            }
            return Ok(function_ptr);
        }
        let found = search_host_dylibs(dylibs, ExportKind::Functions, symbol);
        let (i, j) = match found {
            Some(p) => p,
            None => return Err(()),
        };
        proof {
            let (ci, cj) = choose|ci: int, cj: int| is_first_export(dylibs@, ExportKind::Functions, symbol@, ci, cj);
            lemma_first_export_unique(dylibs@, ExportKind::Functions, symbol@, i as int, j as int, ci, cj);
        }
        let f = dylibs[i].function_exports[j].1;
        if let Some(cached_fn) = self.cached_function(symbol) {
            return Ok(cached_fn);
        }
        let function_ptr = self.create_guest_function(mem, symbol.to_owned(), f);
        self.non_lazy_host_functions.insert(0, (symbol.to_owned(), function_ptr));
        Ok(function_ptr)
    }

    /// Make a guest function for the host function `symbol` (or return the
    /// one made before) and tell the CPU about its code.
    pub fn create_proc_address(&mut self, dylibs: &[HostDylib], mem: &mut Mem, cpu: &mut CodeCache, symbol: &str) -> (r: Result<GuestFunction, ()>)
        requires
            old(mem).wf(),
            old(mem).free_space() >= 16,
            old(self).linked().len() + SVC_LINKED_FUNCTIONS_BASE < SVC_LAZY_LINK_RET_FLAG,
        ensures
            final(mem).wf(),
            r is Err <==> proc_address_target(dylibs@, symbol@) is None,
            r is Err ==> *final(self) == *old(self) && *final(mem) == *old(mem) && final(cpu).invalidated@ == old(cpu).invalidated@,
            r matches Ok(f) ==> {
                &&& cache_lookup(final(self).cache(), proc_target_name(dylibs@, symbol@)) == Some(f)
                &&& final(cpu).invalidated@ == old(cpu).invalidated@.push(((f.addr_with_thumb_bit - f.addr_with_thumb_bit % 2) as u32, 8u32))
                &&& if cache_lookup(old(self).cache(), proc_target_name(dylibs@, symbol@)) is Some {
                    *final(self) == *old(self) && *final(mem) == *old(mem)
                } else {
                    &&& final(self).linked().len() == old(self).linked().len() + 1
                    &&& final(self).linked().last().0@ == proc_target_name(dylibs@, symbol@)
                    &&& final(self).linked().last().1 == (proc_address_target(dylibs@, symbol@)->0).1
                    &&& f.addr_with_thumb_bit == old(mem).next_free_spec()
                    &&& final(mem).next_free_spec() == old(mem).next_free_spec() + 16
                    &&& guest_function_code_at(final(mem)@, f.addr_with_thumb_bit as int, old(self).linked().len() + SVC_LINKED_FUNCTIONS_BASE)
                    &&& crate::mem::same_outside(old(mem)@, final(mem)@, f.addr_with_thumb_bit as int, f.addr_with_thumb_bit + 16)
                }
            },
            r is Ok ==> final(self).linked().len() <= old(self).linked().len() + 1,
    {
        let function_ptr = self.create_proc_address_no_inval(dylibs, mem, symbol)?;
        cpu.invalidate_cache_range(function_ptr.addr_without_thumb_bit(), 8);
        Ok(function_ptr)
    }
}

} // verus!

verus! {

/// The host function a lazily linked symbol without any implementation is
/// routed to: a few known C++ and system symbols get dedicated stand-ins,
/// everything else the stub that returns 0.
pub open spec fn lazy_intercept(symbol: Seq<char>) -> HostFunction {
    if seq_starts_with(symbol, "_ZN5boost14singleton_pool"@) && seq_contains_seq(symbol, "is_from"@) {
        HostFunction::BoostSingletonPoolIsFrom
    } else if symbol == "_ZN5boost5uuids22basic_random_generatorINS_6random23mersenne_twister_engineIjLm32ELm624ELm397ELm31ELj2567483615ELm11ELj4294967295ELm7ELj2636928640ELm15ELj4022730752ELm18ELj1812433253EEEEC2Ev"@
        || symbol == "_ZN5boost9gregorian4dateC2ENS0_9greg_yearENS0_10greg_monthENS0_8greg_dayE"@
        || symbol == "_ZN5boost9date_time16counted_time_repINS_10posix_time33millisec_posix_time_system_configEEC2ERKNS_9gregorian4dateERKNS2_13time_durationE"@
        || seq_starts_with(symbol, "_ZN3glf7TlsNodeC2"@) {
        HostFunction::BoostAndGlfConstructor
    } else if symbol == "__ZNSt3__112basic_stringIcNS_11char_traitsIcEENS_9allocatorIcEEED1Ev"@ {
        HostFunction::LibcxxStringDestructor
    } else if symbol == "__ZNSt3__112basic_stringIcNS_11char_traitsIcEENS_9allocatorIcEEEaSERKS5_"@ {
        HostFunction::LibcxxStringAssign
    } else if symbol == "__ZNSt3__112basic_stringIcNS_11char_traitsIcEENS_9allocatorIcEEEC1ERKS5_"@
        || symbol == "__ZNSt3__112basic_stringIcNS_11char_traitsIcEENS_9allocatorIcEEEC1ERKS5_mmRKS4_"@ {
        HostFunction::LibcxxStringInit
    } else if symbol == "__ZN9talk_base15CriticalSectionC2Ev"@
        || symbol == "__ZNSt3__119__shared_weak_count12__add_sharedEv"@
        || symbol == "__ZNSt3__119__shared_weak_count16__release_sharedEv"@ {
        HostFunction::BoostAndGlfConstructor
    } else if symbol == "_dyld_get_image_header"@ || symbol == "__dyld_get_image_header"@ {
        HostFunction::DyldGetImageHeader
    } else if symbol == "_dyld_register_func_for_add_image"@
        || symbol == "__dyld_register_func_for_add_image"@
        || symbol == "_dyld_register_func_for_remove_image"@
        || symbol == "__dyld_register_func_for_remove_image"@ {
        HostFunction::DyldRegisterImageFunc
    } else if symbol == "_CC_SHA256"@ || symbol == "__CC_SHA256"@ {
        HostFunction::CcSha256
    } else {
        HostFunction::Unimplemented
    }
}

/// The host function a lazily linked symbol without any implementation is
/// routed to.
pub fn classify_lazy_intercept(symbol: &str) -> (r: HostFunction)
    ensures
        r == lazy_intercept(symbol@),
{
    if str_starts_with(symbol, "_ZN5boost14singleton_pool") && str_contains(symbol, "is_from") {
        HostFunction::BoostSingletonPoolIsFrom
    } else if str_eq(symbol, "_ZN5boost5uuids22basic_random_generatorINS_6random23mersenne_twister_engineIjLm32ELm624ELm397ELm31ELj2567483615ELm11ELj4294967295ELm7ELj2636928640ELm15ELj4022730752ELm18ELj1812433253EEEEC2Ev")
        || str_eq(symbol, "_ZN5boost9gregorian4dateC2ENS0_9greg_yearENS0_10greg_monthENS0_8greg_dayE")
        || str_eq(symbol, "_ZN5boost9date_time16counted_time_repINS_10posix_time33millisec_posix_time_system_configEEC2ERKNS_9gregorian4dateERKNS2_13time_durationE")
        || str_starts_with(symbol, "_ZN3glf7TlsNodeC2") {
        HostFunction::BoostAndGlfConstructor
    } else if str_eq(symbol, "__ZNSt3__112basic_stringIcNS_11char_traitsIcEENS_9allocatorIcEEED1Ev") {
        HostFunction::LibcxxStringDestructor
    } else if str_eq(symbol, "__ZNSt3__112basic_stringIcNS_11char_traitsIcEENS_9allocatorIcEEEaSERKS5_") {
        HostFunction::LibcxxStringAssign
    } else if str_eq(symbol, "__ZNSt3__112basic_stringIcNS_11char_traitsIcEENS_9allocatorIcEEEC1ERKS5_")
        || str_eq(symbol, "__ZNSt3__112basic_stringIcNS_11char_traitsIcEENS_9allocatorIcEEEC1ERKS5_mmRKS4_") {
        HostFunction::LibcxxStringInit
    } else if str_eq(symbol, "__ZN9talk_base15CriticalSectionC2Ev")
        || str_eq(symbol, "__ZNSt3__119__shared_weak_count12__add_sharedEv")
        || str_eq(symbol, "__ZNSt3__119__shared_weak_count16__release_sharedEv") {
        HostFunction::BoostAndGlfConstructor
    } else if str_eq(symbol, "_dyld_get_image_header") || str_eq(symbol, "__dyld_get_image_header") {
        HostFunction::DyldGetImageHeader
    } else if str_eq(symbol, "_dyld_register_func_for_add_image")
        || str_eq(symbol, "__dyld_register_func_for_add_image")
        || str_eq(symbol, "_dyld_register_func_for_remove_image")
        || str_eq(symbol, "__dyld_register_func_for_remove_image") {
        HostFunction::DyldRegisterImageFunc
    } else if str_eq(symbol, "_CC_SHA256") || str_eq(symbol, "__CC_SHA256") {
        HostFunction::CcSha256
    } else {
        HostFunction::Unimplemented
    }
}

/// The return value, if any, of the host functions that have nothing to do
/// but answer: `Some(v)` for those that return `v` (NULL is 0), `None` for
/// those that return nothing or need more than their arguments.
pub fn trivial_host_result(f: HostFunction) -> (r: Option<u32>)
    ensures
        r == match f {
            HostFunction::Unimplemented => Some(0u32),
            HostFunction::BoostSingletonPoolIsFrom => Some(1u32),
            HostFunction::DyldGetImageHeader => Some(0u32),
            _ => None,
        },
{
    match f {
        HostFunction::Unimplemented => Some(0),
        HostFunction::BoostSingletonPoolIsFrom => Some(1),
        HostFunction::DyldGetImageHeader => Some(0),
        _ => None,
    }
}

} // verus!

verus! {

/// The instructions of an unlinked symbol stub, by stub size.
pub open spec fn stub_instructions(entry_size: u32) -> Seq<u32> {
    if entry_size == 4 {
        seq![0xe59f_f000u32]
    } else if entry_size == 16 {
        seq![0xe59f_c004u32, 0xe08f_c00cu32, 0xe59c_f000u32]
    } else {
        seq![0xe59f_c000u32, 0xe59c_f000u32]
    }
}

/// `m` with the words `ws` stored one after another from `a` on.
pub open spec fn write_words(m: Seq<u8>, a: int, ws: Seq<u32>) -> Seq<u8>
    decreases ws.len(),
{
    if ws.len() == 0 {
        m
    } else {
        write_words(crate::mem::write_u32_spec(m, a, ws[0]), a + 4, ws.drop_first())
    }
}

/// Memory after the stub at `pc` got its original instructions back.
pub open spec fn restored_stub(m: Seq<u8>, pc: int, entry_size: u32, pic_offset: u32) -> Seq<u8> {
    if entry_size == 4 {
        crate::mem::write_u32_spec(m, pc, 0xe59f_f000u32 | pic_offset)
    } else {
        write_words(m, pc, stub_instructions(entry_size))
    }
}

/// The lazy symbol pointer that the restored stub at `pc` loads from.
pub open spec fn la_symbol_ptr(m: Seq<u8>, pc: int, entry_size: u32) -> int {
    let n = stub_instructions(entry_size).len();
    if entry_size == 12 {
        read_u32_spec(m, pc + 4 * n) as int
    } else if entry_size == 4 {
        pc + (read_u32_spec(m, pc) & 0xfffu32) + 8
    } else {
        pc + read_u32_spec(m, pc + 4 * n) + 12
    }
}

/// Writing words changes no byte outside the words written.
pub proof fn lemma_write_words(m: Seq<u8>, a: int, ws: Seq<u32>)
    requires
        0 <= a,
        a + 4 * ws.len() <= m.len(),
    ensures
        crate::mem::same_outside(m, write_words(m, a, ws), a, a + 4 * ws.len()),
    decreases ws.len(),
{
    if ws.len() > 0 {
        crate::mem::lemma_write_read_u32(m, a, ws[0]);
        lemma_write_words(crate::mem::write_u32_spec(m, a, ws[0]), a + 4, ws.drop_first());
    }
}

/// Put the original instructions back into the stub at `pc` and point its
/// lazy symbol pointer at `linked_function`. Returns the stub's and the
/// pointer's addresses.
fn link_by_restoring_stub(mem: &mut Mem, cpu: &mut CodeCache, linked_function: u32, pc: u32, entry_size: u32, pic_offset: u32) -> (r: (u32, u32))
    requires
        old(mem).wf(),
        pc + 4 * stub_instructions(entry_size).len() + 4 <= old(mem)@.len(),
        ({
            let m2 = restored_stub(old(mem)@, pc as int, entry_size, pic_offset);
            0 <= la_symbol_ptr(m2, pc as int, entry_size) && la_symbol_ptr(m2, pc as int, entry_size) + 4 <= old(mem)@.len()
        }),
    ensures
        final(mem).wf(),
        final(mem).next_free_spec() == old(mem).next_free_spec(),
        ({
            let m2 = restored_stub(old(mem)@, pc as int, entry_size, pic_offset);
            let la = la_symbol_ptr(m2, pc as int, entry_size);
            &&& final(mem)@ == crate::mem::write_u32_spec(m2, la, linked_function)
            &&& r == (pc, la as u32)
        }),
        final(cpu).invalidated@ == old(cpu).invalidated@.push((pc, (4 * stub_instructions(entry_size).len()) as u32)),
{
    let ghost m0 = mem@;
    let instrs: Vec<u32> = if entry_size == 4 {
        vec![0xe59f_f000u32]
    } else if entry_size == 16 {
        vec![0xe59f_c004u32, 0xe08f_c00cu32, 0xe59c_f000u32]
    } else {
        vec![0xe59f_c000u32, 0xe59c_f000u32]
    };
    assert(instrs@ =~= stub_instructions(entry_size));
    let count = instrs.len() as u32;
    assert(count as int == stub_instructions(entry_size).len());
    proof {
        mem.lemma_wf();
    }
    if entry_size == 4 {
        mem.write_u32(pc, instrs[0] | pic_offset);
    } else {
        let mut i: u32 = 0;
        assert(instrs@.subrange(0, count as int) =~= instrs@);
        while i < count
            invariant
                mem.wf(),
                m0.len() <= u32::MAX,
                mem.next_free_spec() == old(mem).next_free_spec(),
                count == instrs@.len(),
                instrs@ == stub_instructions(entry_size),
                entry_size != 4,
                i <= count,
                pc + 4 * count + 4 <= m0.len(),
                write_words(m0, pc as int, instrs@) == write_words(mem@, pc + 4 * i, instrs@.subrange(i as int, count as int)),
                mem@.len() == m0.len(),
            decreases count - i,
        {
            let ghost rest = instrs@.subrange(i as int, count as int);
            assert(rest.drop_first() =~= instrs@.subrange(i + 1, count as int));
            mem.write_u32(pc + 4 * i, instrs[i as usize]);
            i = i + 1;
        }
        assert(instrs@.subrange(count as int, count as int) =~= Seq::<u32>::empty());
    }
    assert(mem@ == restored_stub(m0, pc as int, entry_size, pic_offset));
    cpu.invalidate_cache_range(pc, count * 4);
    let la: u32 = if entry_size == 12 {
        mem.read_u32(pc + 4 * count)
    } else if entry_size == 4 {
        let offset = mem.read_u32(pc) & 0xfff;
        pc + offset + 8
    } else {
        let offset = mem.read_u32(pc + 4 * count);
        pc + offset + 12
    };
    mem.write_u32(la, linked_function);
    (pc, la)
}

} // verus!

verus! {

/// Index of the symbol-stub section of `bin`.
pub open spec fn stub_section_index(bin: MachO) -> Option<int> {
    first_section(bin.sections@, SectionType::SymbolStubs)
}

/// The symbol stubs of `bin` hold `pc`.
pub open spec fn bin_covers(bin: MachO, pc: u32) -> bool {
    match stub_section_index(bin) {
        Some(i) => bin.sections@[i].addr <= pc < bin.sections@[i].addr + bin.sections@[i].size,
        None => false,
    }
}

/// The stub sections of all binaries end within the address space.
pub open spec fn stub_ranges_fit(bins: Seq<MachO>) -> bool {
    forall|b: int| 0 <= b < bins.len() ==> match #[trigger] stub_section_index(bins[b]) {
        Some(i) => bins[b].sections@[i].addr + bins[b].sections@[i].size <= u32::MAX,
        None => true,
    }
}

/// The first binary at or after `b` whose symbol stubs hold `pc`.
pub open spec fn first_covering_bin_from(bins: Seq<MachO>, pc: u32, b: int) -> Option<int>
    decreases bins.len() - b,
{
    if b < 0 || b >= bins.len() {
        None
    } else if bin_covers(bins[b], pc) {
        Some(b)
    } else {
        first_covering_bin_from(bins, pc, b + 1)
    }
}

/// The first binary whose symbol stubs hold `pc`.
pub open spec fn first_covering_bin(bins: Seq<MachO>, pc: u32) -> Option<int> {
    first_covering_bin_from(bins, pc, 0)
}

/// The binary found for an address is within the list and covers it.
pub proof fn lemma_first_covering_bin_bounds(bins: Seq<MachO>, pc: u32, b: int)
    ensures
        first_covering_bin_from(bins, pc, b) matches Some(k) ==> 0 <= k < bins.len() && bin_covers(bins[k], pc),
    decreases bins.len() - b,
{
    if b < 0 || b >= bins.len() {
    } else if bin_covers(bins[b], pc) {
    } else {
        lemma_first_covering_bin_bounds(bins, pc, b + 1);
    }
}

/// Distance from the stubs of `bin` to its lazy symbol pointers (0 without
/// such a section).
pub open spec fn pic_offset_of(bin: MachO) -> int {
    let s = bin.sections@[stub_section_index(bin)->0];
    match first_section(bin.sections@, SectionType::LazySymbolPointers) {
        Some(l) => bin.sections@[l].addr - s.addr,
        None => 0,
    }
}

/// The stub section that holds `pc`.
pub open spec fn site_section(bins: Seq<MachO>, pc: u32) -> Section {
    let b = first_covering_bin(bins, pc)->0;
    bins[b].sections@[stub_section_index(bins[b])->0]
}

pub open spec fn site_entry_size(bins: Seq<MachO>, pc: u32) -> u32 {
    site_section(bins, pc).dyld_indirect_symbol_info->0.entry_size
}

pub open spec fn site_index(bins: Seq<MachO>, pc: u32) -> int {
    (pc - site_section(bins, pc).addr) / (site_entry_size(bins, pc) as int)
}

/// The undefined symbol the stub at `pc` stands for.
pub open spec fn site_symbol(bins: Seq<MachO>, pc: u32) -> Seq<char> {
    site_section(bins, pc).dyld_indirect_symbol_info->0.indirect_undef_symbols@[site_index(bins, pc)]->0@
}

pub open spec fn site_pic_offset(bins: Seq<MachO>, pc: u32) -> int {
    pic_offset_of(bins[first_covering_bin(bins, pc)->0])
}

/// `pc` is the address of a symbol stub whose symbol the linker can look up.
pub open spec fn lazy_site_ok(bins: Seq<MachO>, pc: u32) -> bool {
    &&& stub_ranges_fit(bins)
    &&& first_covering_bin(bins, pc) is Some
    &&& site_section(bins, pc).dyld_indirect_symbol_info is Some
    &&& site_entry_size(bins, pc) > 0
    &&& (pc - site_section(bins, pc).addr) % (site_entry_size(bins, pc) as int) == 0
    &&& site_index(bins, pc) < site_section(bins, pc).dyld_indirect_symbol_info->0.indirect_undef_symbols@.len()
    &&& site_section(bins, pc).dyld_indirect_symbol_info->0.indirect_undef_symbols@[site_index(bins, pc)] is Some
    &&& 0 <= site_pic_offset(bins, pc) <= u32::MAX
}

/// How a lazily linked symbol is resolved.
pub enum LazyResolution {
    /// The stub gets its original code back and its pointer this address.
    Restore(u32),
    /// The stub calls this host function.
    Link(HostFunction),
}

/// The resolution of `symbol`: a guest function made before, then the app's
/// own binaries, then the host dylibs, then the stand-ins.
pub open spec fn lazy_resolution(cache: Seq<(String, GuestFunction)>, bins: Seq<MachO>, dylibs: Seq<HostDylib>, symbol: Seq<char>) -> LazyResolution {
    if cache_lookup(cache, symbol) is Some {
        LazyResolution::Restore(cache_lookup(cache, symbol)->0.addr_with_thumb_bit)
    } else if bins_export_addr(bins, symbol) is Some {
        LazyResolution::Restore(bins_export_addr(bins, symbol)->0)
    } else if !exported_nowhere(dylibs, ExportKind::Functions, symbol) {
        let (i, j) = choose|i: int, j: int| is_first_export(dylibs, ExportKind::Functions, symbol, i, j);
        LazyResolution::Link(dylibs[i].function_exports@[j].1)
    } else {
        LazyResolution::Link(lazy_intercept(symbol))
    }
}

/// Linking checks that a stub of more than one instruction still returns
/// after its `svc` when the symbol goes to a host dylib or to the stub that
/// returns 0.
pub open spec fn lazy_link_checks_ret(cache: Seq<(String, GuestFunction)>, bins: Seq<MachO>, dylibs: Seq<HostDylib>, symbol: Seq<char>) -> bool {
    cache_lookup(cache, symbol) is None && bins_export_addr(bins, symbol) is None && (
    !exported_nowhere(dylibs, ExportKind::Functions, symbol) || lazy_intercept(symbol)
        == HostFunction::Unimplemented)
}

/// The `svc` number a stub of the given size gets for the host function at
/// index `idx`.
pub open spec fn linked_svc(idx: int, entry_size: u32) -> int {
    if entry_size == 4 {
        idx + SVC_LINKED_FUNCTIONS_BASE + SVC_LAZY_LINK_RET_FLAG
    } else {
        idx + SVC_LINKED_FUNCTIONS_BASE
    }
}

/// The first binary whose stubs hold `pc`, the index of that stub section,
/// and the distance to the lazy pointers.
fn find_stub_site(bins: &[MachO], pc: u32) -> (r: (usize, usize, u32))
    requires
        stub_ranges_fit(bins@),
        first_covering_bin(bins@, pc) is Some,
        0 <= site_pic_offset(bins@, pc) <= u32::MAX,
    ensures
        Some(r.0 as int) == first_covering_bin(bins@, pc),
        r.0 < bins@.len(),
        Some(r.1 as int) == stub_section_index(bins@[r.0 as int]),
        r.1 < bins@[r.0 as int].sections@.len(),
        r.2 == site_pic_offset(bins@, pc),
{
    let mut b: usize = 0;
    proof {
        lemma_first_covering_bin_bounds(bins@, pc, 0);
    }
    while b < bins.len()
        invariant
            b <= bins@.len(),
            stub_ranges_fit(bins@),
            first_covering_bin(bins@, pc) == first_covering_bin_from(bins@, pc, b as int),
            first_covering_bin(bins@, pc) is Some,
            0 <= site_pic_offset(bins@, pc) <= u32::MAX,
        decreases bins@.len() - b,
    {
        let bin = &bins[b];
        let covered = match bin.get_section(SectionType::SymbolStubs) {
            Some(s) => {
                assert(stub_ranges_fit(bins@) ==> match stub_section_index(bins@[b as int]) {
                    Some(i) => bins@[b as int].sections@[i].addr + bins@[b as int].sections@[i].size <= u32::MAX,
                    None => true,
                });
                let stubs = &bin.sections[s];
                stubs.addr <= pc && pc < stubs.addr + stubs.size
            },
            None => false,
        };
        assert(covered == bin_covers(bins@[b as int], pc));
        if covered {
            assert(first_covering_bin(bins@, pc) == Some(b as int));
            let s = bin.get_section(SectionType::SymbolStubs).unwrap();
            let stubs = &bin.sections[s];
            assert(site_pic_offset(bins@, pc) == pic_offset_of(bins@[b as int]));
            assert(stub_section_index(bins@[b as int]) == Some(s as int));
            let pic = match bin.get_section(SectionType::LazySymbolPointers) {
                Some(l) => {
                    assert(pic_offset_of(bins@[b as int]) == bin.sections@[l as int].addr - stubs.addr);
                    bin.sections[l].addr - stubs.addr
                },
                None => 0,
            };
            return (b, s, pic);
        }
        b = b + 1;
    }
    (0, 0, 0)
}

impl Dyld {
    /// Resolve the symbol of the lazy stub at `pc` that the guest just called.
    /// Returns the host function to call now, if the stub was routed to one;
    /// `None` when the stub was pointed back at guest code.
    fn do_lazy_link(&mut self, bins: &[MachO], dylibs: &[HostDylib], mem: &mut Mem, cpu: &mut CodeCache, pc: u32) -> (r: Option<HostFunction>)
        requires
            old(mem).wf(),
            lazy_site_ok(bins@, pc),
            old(self).linked().len() + SVC_LINKED_FUNCTIONS_BASE < SVC_LAZY_LINK_RET_FLAG,
            pc + 4 * stub_instructions(site_entry_size(bins@, pc)).len() + 4 <= old(mem)@.len(),
            ({
                let m2 = restored_stub(old(mem)@, pc as int, site_entry_size(bins@, pc), site_pic_offset(bins@, pc) as u32);
                let la = la_symbol_ptr(m2, pc as int, site_entry_size(bins@, pc));
                lazy_resolution(old(self).cache(), bins@, dylibs@, site_symbol(bins@, pc)) is Restore ==> 0 <= la && la + 4 <= old(mem)@.len()
            }),
            lazy_link_checks_ret(old(self).cache(), bins@, dylibs@, site_symbol(bins@, pc)) && site_entry_size(bins@, pc) != 4
                ==> read_u32_spec(old(mem)@, pc + 4) == 0xe12f_ff1e,
        ensures
            final(mem).wf(),
            final(mem).next_free_spec() == old(mem).next_free_spec(),
            final(self).cache() == old(self).cache(),
            final(self).pending_constants() == old(self).pending_constants(),
            final(self).return_routine() == old(self).return_routine(),
            final(self).exit_routine() == old(self).exit_routine(),
            ({
                let es = site_entry_size(bins@, pc);
                let symbol = site_symbol(bins@, pc);
                match lazy_resolution(old(self).cache(), bins@, dylibs@, symbol) {
                    LazyResolution::Restore(addr) => {
                        let m2 = restored_stub(old(mem)@, pc as int, es, site_pic_offset(bins@, pc) as u32);
                        &&& r is None
                        &&& final(self).linked() == old(self).linked()
                        &&& final(mem)@ == crate::mem::write_u32_spec(m2, la_symbol_ptr(m2, pc as int, es), addr)
                        &&& final(cpu).invalidated@ == old(cpu).invalidated@.push((pc, (4 * stub_instructions(es).len()) as u32))
                    },
                    LazyResolution::Link(f) => {
                        &&& r == Some(f)
                        &&& final(self).linked().len() == old(self).linked().len() + 1
                        &&& final(self).linked().subrange(0, old(self).linked().len() as int) == old(self).linked()
                        &&& final(self).linked().last().0@ == symbol
                        &&& final(self).linked().last().1 == f
                        &&& final(mem)@ == crate::mem::write_u32_spec(old(mem)@, pc as int, (linked_svc(old(self).linked().len() as int, es) + 0xef00_0000) as u32)
                        &&& final(cpu).invalidated@ == old(cpu).invalidated@.push((pc, 4u32))
                    },
                }
            }),
    {
        let (b, s, pic_offset) = find_stub_site(bins, pc);
        let stubs = &bins[b].sections[s];
        let info = stubs.dyld_indirect_symbol_info.as_ref().unwrap();
        let entry_size = info.entry_size;
        proof {
            lemma_first_covering_bin_bounds(bins@, pc, 0);
            assert(bin_covers(bins@[b as int], pc));
        }
        let offset = pc - stubs.addr;
        let idx = (offset / entry_size) as usize;
        let symbol: &String = info.indirect_undef_symbols[idx].as_ref().unwrap();
        let symbol = symbol.as_str();
        assert(symbol@ == site_symbol(bins@, pc));
        proof {
            mem.lemma_wf();
        }

        if let Some(addr) = self.cached_function(symbol) {
            link_by_restoring_stub(mem, cpu, addr.addr_with_thumb_bit(), pc, entry_size, pic_offset);
            return None;
        }
        if let Some(addr) = find_in_bins(bins, symbol) {
            link_by_restoring_stub(mem, cpu, addr, pc, entry_size, pic_offset);
            return None;
        }
        let (f, checks) = match search_host_dylibs(dylibs, ExportKind::Functions, symbol) {
            Some((i, j)) => {
                proof {
                    let (ci, cj) = choose|ci: int, cj: int| is_first_export(dylibs@, ExportKind::Functions, symbol@, ci, cj);
                    lemma_first_export_unique(dylibs@, ExportKind::Functions, symbol@, i as int, j as int, ci, cj);
                }
                (dylibs[i].function_exports[j].1, true)
            },
            None => {
                let f = classify_lazy_intercept(symbol);
                (f, f == HostFunction::Unimplemented)
            },
        };
        let idx2 = self.linked_host_functions.len() as u32;
        let mut svc = idx2 + SVC_LINKED_FUNCTIONS_BASE;
        if entry_size == 4 {
            svc = svc + SVC_LAZY_LINK_RET_FLAG;
        }
        self.linked_host_functions.push((symbol.to_owned(), f));
        mem.write_u32(pc, encode_a32_svc(svc));
        if checks && entry_size != 4 {
            assert(read_u32_spec(mem@, pc + 4) == 0xe12f_ff1e) by {
                crate::mem::lemma_write_read_u32(old(mem)@, pc as int, (svc + 0xef00_0000) as u32);
            }
        }
        cpu.invalidate_cache_range(pc, 4);
        Some(f)
    }
}

} // verus!

verus! {

/// `svc` without the one-instruction-stub flag.
pub open spec fn svc_without_ret_flag(svc: u32) -> int {
    if (svc / SVC_LAZY_LINK_RET_FLAG) % 2 == 1 {
        svc - SVC_LAZY_LINK_RET_FLAG
    } else {
        svc as int
    }
}

/// The stub at `pc` can be lazily linked (see [Dyld::get_svc_handler]).
pub open spec fn lazy_link_allowed(d: Dyld, bins: Seq<MachO>, dylibs: Seq<HostDylib>, m: Seq<u8>, pc: u32) -> bool {
    &&& lazy_site_ok(bins, pc)
    &&& d.linked().len() + SVC_LINKED_FUNCTIONS_BASE < SVC_LAZY_LINK_RET_FLAG
    &&& pc + 4 * stub_instructions(site_entry_size(bins, pc)).len() + 4 <= m.len()
    &&& ({
        let m2 = restored_stub(m, pc as int, site_entry_size(bins, pc), site_pic_offset(bins, pc) as u32);
        let la = la_symbol_ptr(m2, pc as int, site_entry_size(bins, pc));
        lazy_resolution(d.cache(), bins, dylibs, site_symbol(bins, pc)) is Restore ==> 0 <= la && la + 4 <= m.len()
    })
    &&& (lazy_link_checks_ret(d.cache(), bins, dylibs, site_symbol(bins, pc)) && site_entry_size(bins, pc) != 4
        ==> read_u32_spec(m, pc + 4) == 0xe12f_ff1e)
}

impl Dyld {
    /// The host function that the `svc` at `svc_pc` calls, if any. A lazy
    /// stub is resolved first (see [Dyld::do_lazy_link]); the routines that
    /// return to the host or end a thread have no handler.
    pub fn get_svc_handler(&mut self, bins: &[MachO], dylibs: &[HostDylib], mem: &mut Mem, cpu: &mut CodeCache, svc_pc: u32, svc: u32) -> (r: Option<HostFunction>)
        requires
            old(mem).wf(),
            svc == SVC_LAZY_LINK || svc == SVC_LAZY_LINK_RET_FLAG ==> lazy_link_allowed(*old(self), bins@, dylibs@, old(mem)@, svc_pc),
            svc >= SVC_LINKED_FUNCTIONS_BASE && svc != SVC_LAZY_LINK_RET_FLAG ==> svc_without_ret_flag(svc) >= SVC_LINKED_FUNCTIONS_BASE,
        ensures
            final(mem).wf(),
            svc != SVC_LAZY_LINK && svc != SVC_LAZY_LINK_RET_FLAG ==> *final(self) == *old(self) && *final(mem) == *old(mem) && final(cpu).invalidated@ == old(cpu).invalidated@,
            svc == SVC_THREAD_EXIT || svc == SVC_RETURN_TO_HOST ==> r is None,
            svc >= SVC_LINKED_FUNCTIONS_BASE && svc != SVC_LAZY_LINK_RET_FLAG ==> {
                let idx = svc_without_ret_flag(svc) - SVC_LINKED_FUNCTIONS_BASE;
                r == if idx < old(self).linked().len() { Some(old(self).linked()[idx].1) } else { None }
            },
            svc == SVC_LAZY_LINK || svc == SVC_LAZY_LINK_RET_FLAG ==> {
                let es = site_entry_size(bins@, svc_pc);
                let symbol = site_symbol(bins@, svc_pc);
                &&& final(self).cache() == old(self).cache()
                &&& final(self).pending_constants() == old(self).pending_constants()
                &&& final(self).return_routine() == old(self).return_routine()
                &&& final(self).exit_routine() == old(self).exit_routine()
                &&& final(mem).next_free_spec() == old(mem).next_free_spec()
                &&& match lazy_resolution(old(self).cache(), bins@, dylibs@, symbol) {
                    LazyResolution::Restore(addr) => {
                        let m2 = restored_stub(old(mem)@, svc_pc as int, es, site_pic_offset(bins@, svc_pc) as u32);
                        &&& r is None
                        &&& final(self).linked() == old(self).linked()
                        &&& final(mem)@ == crate::mem::write_u32_spec(m2, la_symbol_ptr(m2, svc_pc as int, es), addr)
                        &&& final(cpu).invalidated@ == old(cpu).invalidated@.push((svc_pc, (4 * stub_instructions(es).len()) as u32))
                    },
                    LazyResolution::Link(f) => {
                        &&& r == Some(f)
                        &&& final(self).linked().len() == old(self).linked().len() + 1
                        &&& final(self).linked().subrange(0, old(self).linked().len() as int) == old(self).linked()
                        &&& final(self).linked().last().0@ == symbol
                        &&& final(self).linked().last().1 == f
                        &&& final(mem)@ == crate::mem::write_u32_spec(old(mem)@, svc_pc as int,
                            (linked_svc(old(self).linked().len() as int, es) + 0xef00_0000) as u32)
                        &&& final(cpu).invalidated@ == old(cpu).invalidated@.push((svc_pc, 4u32))
                    },
                }
            },
    {
        if svc == SVC_LAZY_LINK || svc == SVC_LAZY_LINK_RET_FLAG {
            self.do_lazy_link(bins, dylibs, mem, cpu, svc_pc)
        } else if svc == SVC_THREAD_EXIT || svc == SVC_RETURN_TO_HOST {
            None
        } else {
            let cleared = if (svc / SVC_LAZY_LINK_RET_FLAG) % 2 == 1 {
                svc - SVC_LAZY_LINK_RET_FLAG
            } else {
                svc
            };
            let idx = (cleared - SVC_LINKED_FUNCTIONS_BASE) as usize;
            if idx < self.linked_host_functions.len() {
                Some(self.linked_host_functions[idx].1)
            } else {
                None
            }
        }
    }
}

} // verus!

verus! {

/// Instructions a stub of the given size must hold to be set up for lazy
/// linking (a stub of one instruction is always set up).
pub open spec fn expected_stub_instructions(entry_size: u32) -> Seq<u32> {
    if entry_size == 4 {
        Seq::empty()
    } else if entry_size == 12 {
        seq![0xe59f_c000u32, 0xe59c_f000u32]
    } else {
        seq![0xe59f_c004u32, 0xe08f_c00cu32, 0xe59c_f000u32]
    }
}

/// The words at `a` are `ws`.
pub open spec fn words_at(m: Seq<u8>, a: int, ws: Seq<u32>) -> bool {
    forall|j: int| 0 <= j < ws.len() ==> #[trigger] read_u32_spec(m, a + 4 * j) == ws[j]
}

/// The stub at `a` after setting it up: an `svc` that asks for lazy linking,
/// then (for stubs of more than one instruction) a return, then (for stubs
/// of four) a trap.
pub open spec fn set_up_stub(m: Seq<u8>, a: int, entry_size: u32) -> Seq<u8> {
    if !words_at(m, a, expected_stub_instructions(entry_size)) {
        m
    } else if entry_size == 4 {
        crate::mem::write_u32_spec(m, a, (SVC_LAZY_LINK_RET_FLAG + 0xef00_0000) as u32)
    } else {
        let m1 = crate::mem::write_u32_spec(m, a, 0xef00_0000u32);
        let m2 = crate::mem::write_u32_spec(m1, a + 4, 0xe12f_ff1eu32);
        if entry_size == 16 {
            crate::mem::write_u32_spec(m2, a + 8, 0xe7ff_defeu32)
        } else {
            m2
        }
    }
}

/// Memory after setting up the first `n` stubs from `addr` on.
pub open spec fn set_up_stubs(m: Seq<u8>, addr: int, entry_size: u32, n: int) -> Seq<u8>
    decreases n,
{
    if n <= 0 {
        m
    } else {
        set_up_stub(set_up_stubs(m, addr, entry_size, n - 1), addr + (n - 1) * entry_size, entry_size)
    }
}

/// The lazy stubs of `bin` can be set up: they lie in memory and are a
/// whole number of entries.
pub open spec fn lazy_stubs_ok(bin: MachO, mem_len: int) -> bool {
    match first_section(bin.sections@, SectionType::SymbolStubs) {
        None => true,
        Some(i) => {
            let s = bin.sections@[i];
            match s.dyld_indirect_symbol_info {
                None => true,
                Some(info) => {
                    let es = info.entry_size;
                    (es == 4 || es == 12 || es == 16) ==> s.size % es == 0 && s.addr + s.size <= mem_len
                },
            }
        },
    }
}

/// The memory after [Dyld::setup_lazy_linking] of `bin`.
pub open spec fn lazy_linking_set_up(bin: MachO, m: Seq<u8>) -> Seq<u8> {
    match first_section(bin.sections@, SectionType::SymbolStubs) {
        None => m,
        Some(i) => {
            let s = bin.sections@[i];
            match s.dyld_indirect_symbol_info {
                None => m,
                Some(info) => {
                    let es = info.entry_size;
                    if es == 4 || es == 12 || es == 16 {
                        set_up_stubs(m, s.addr as int, es, (s.size / es) as int)
                    } else {
                        m
                    }
                },
            }
        },
    }
}

/// The stubs of `bin` that lazy linking sets up: their address, their size
/// and their number.
pub open spec fn stub_info(bin: MachO) -> Option<(int, u32, int)> {
    match first_section(bin.sections@, SectionType::SymbolStubs) {
        None => None,
        Some(i) => {
            let s = bin.sections@[i];
            match s.dyld_indirect_symbol_info {
                None => None,
                Some(info) => {
                    let es = info.entry_size;
                    if es == 4 || es == 12 || es == 16 {
                        Some((s.addr as int, es, (s.size / es) as int))
                    } else {
                        None
                    }
                },
            }
        },
    }
}

/// The byte at `idx` belongs to a stub of `bin` that lazy linking sets up.
pub open spec fn in_stub_region(bin: MachO, idx: int) -> bool {
    match stub_info(bin) {
        None => false,
        Some((a, es, n)) => a <= idx < a + n * es,
    }
}

/// The words a stub of the given size starts with once set up.
pub open spec fn set_up_words(entry_size: u32) -> Seq<u32> {
    if entry_size == 4 {
        seq![(SVC_LAZY_LINK_RET_FLAG + 0xef00_0000) as u32]
    } else if entry_size == 12 {
        seq![0xef00_0000u32, 0xe12f_ff1eu32]
    } else {
        seq![0xef00_0000u32, 0xe12f_ff1eu32, 0xe7ff_defeu32]
    }
}

/// Every stub of `bin` that held its original instructions in `m0` holds
/// the set-up words in `m`.
pub open spec fn stubs_set_up(bin: MachO, m0: Seq<u8>, m: Seq<u8>) -> bool {
    match stub_info(bin) {
        None => true,
        Some((a, es, n)) => forall|i: int| 0 <= i < n && #[trigger] words_at(m0, a + i * es, expected_stub_instructions(es))
            ==> words_at(m, a + i * es, set_up_words(es)),
    }
}

proof fn lemma_set_up_stub(m: Seq<u8>, a: int, es: u32)
    requires
        es == 4 || es == 12 || es == 16,
        0 <= a,
        a + es <= m.len(),
    ensures
        set_up_stub(m, a, es).len() == m.len(),
        forall|idx: int| 0 <= idx < m.len() && !(a <= idx < a + es) ==> #[trigger] set_up_stub(m, a, es)[idx] == m[idx],
        words_at(m, a, expected_stub_instructions(es)) ==> words_at(set_up_stub(m, a, es), a, set_up_words(es)),
{
    if words_at(m, a, expected_stub_instructions(es)) {
        if es == 4 {
            crate::mem::lemma_write_read_u32(m, a, (SVC_LAZY_LINK_RET_FLAG + 0xef00_0000) as u32);
            let r = set_up_stub(m, a, es);
            assert(read_u32_spec(r, a + 4 * 0) == set_up_words(es)[0]);
        } else {
            let m1 = crate::mem::write_u32_spec(m, a, 0xef00_0000u32);
            let m2 = crate::mem::write_u32_spec(m1, a + 4, 0xe12f_ff1eu32);
            crate::mem::lemma_write_read_u32(m, a, 0xef00_0000u32);
            crate::mem::lemma_write_read_u32(m1, a + 4, 0xe12f_ff1eu32);
            crate::mem::lemma_write_u32_other(m1, a + 4, 0xe12f_ff1eu32, a);
            if es == 16 {
                let m3 = crate::mem::write_u32_spec(m2, a + 8, 0xe7ff_defeu32);
                crate::mem::lemma_write_read_u32(m2, a + 8, 0xe7ff_defeu32);
                crate::mem::lemma_write_u32_other(m2, a + 8, 0xe7ff_defeu32, a);
                crate::mem::lemma_write_u32_other(m2, a + 8, 0xe7ff_defeu32, a + 4);
                assert(read_u32_spec(m3, a + 4 * 0) == set_up_words(es)[0]);
                assert(read_u32_spec(m3, a + 4 * 1) == set_up_words(es)[1]);
                assert(read_u32_spec(m3, a + 4 * 2) == set_up_words(es)[2]);
            } else {
                assert(read_u32_spec(m2, a + 4 * 0) == set_up_words(es)[0]);
                assert(read_u32_spec(m2, a + 4 * 1) == set_up_words(es)[1]);
            }
        }
    }
}

proof fn lemma_set_up_stubs(m: Seq<u8>, addr: int, es: u32, n: int)
    requires
        es == 4 || es == 12 || es == 16,
        0 <= addr,
        0 <= n,
        addr + n * es <= m.len(),
    ensures
        set_up_stubs(m, addr, es, n).len() == m.len(),
        forall|idx: int| 0 <= idx < m.len() && !(addr <= idx < addr + n * es) ==> #[trigger] set_up_stubs(m, addr, es, n)[idx] == m[idx],
        forall|i: int| 0 <= i < n && #[trigger] words_at(m, addr + i * es, expected_stub_instructions(es))
            ==> words_at(set_up_stubs(m, addr, es, n), addr + i * es, set_up_words(es)),
    decreases n,
{
    if n > 0 {
        lemma_set_up_stubs(m, addr, es, n - 1);
        let m1 = set_up_stubs(m, addr, es, n - 1);
        let a = addr + (n - 1) * es;
        assert(addr + (n - 1) * es + es == addr + n * es) by (nonlinear_arith);
        assert((n - 1) * es >= 0) by (nonlinear_arith) requires n >= 1;
        lemma_set_up_stub(m1, a, es);
        let m2 = set_up_stubs(m, addr, es, n);
        assert(m2 == set_up_stub(m1, a, es));
        assert forall|i: int| 0 <= i < n && #[trigger] words_at(m, addr + i * es, expected_stub_instructions(es))
            implies words_at(m2, addr + i * es, set_up_words(es)) by {
            let b = addr + i * es;
            assert(i * es >= 0 && i * es + es <= n * es) by (nonlinear_arith) requires 0 <= i < n, es > 0;
            if i == n - 1 {
                assert forall|q: int| b <= q < b + 4 * expected_stub_instructions(es).len() implies #[trigger] m1[q] == m[q] by {}
                lemma_words_kept(m, m1, b, expected_stub_instructions(es));
            } else {
                assert(i * es + es <= (n - 1) * es) by (nonlinear_arith) requires 0 <= i < n - 1, es > 0;
                assert forall|q: int| b <= q < b + 4 * set_up_words(es).len() implies #[trigger] m2[q] == m1[q] by {}
                lemma_words_kept(m1, m2, b, set_up_words(es));
            }
        }
    }
}

/// Stubs that are set up stay so while the bytes of the stubs stay.
proof fn lemma_stubs_set_up_kept(bin: MachO, m0: Seq<u8>, m1: Seq<u8>, m2: Seq<u8>)
    requires
        stubs_set_up(bin, m0, m1),
        forall|idx: int| #[trigger] in_stub_region(bin, idx) ==> m2[idx] == m1[idx],
    ensures
        stubs_set_up(bin, m0, m2),
{
    match stub_info(bin) {
        None => {},
        Some((a, es, n)) => {
            assert forall|i: int| 0 <= i < n && #[trigger] words_at(m0, a + i * es, expected_stub_instructions(es))
                implies words_at(m2, a + i * es, set_up_words(es)) by {
                assert(i * es + es <= n * es) by (nonlinear_arith) requires 0 <= i < n, es > 0;
                assert(i * es >= 0) by (nonlinear_arith) requires 0 <= i, es > 0;
                assert forall|q: int| a + i * es <= q < a + i * es + 4 * set_up_words(es).len() implies #[trigger] m2[q] == m1[q] by {
                    assert(in_stub_region(bin, q));
                }
                lemma_words_kept(m1, m2, a + i * es, set_up_words(es));
            }
        },
    }
}

/// Whether a stub held its original instructions depends only on its bytes.
proof fn lemma_stubs_set_up_from(bin: MachO, m0: Seq<u8>, m0b: Seq<u8>, m: Seq<u8>)
    requires
        stubs_set_up(bin, m0b, m),
        forall|idx: int| #[trigger] in_stub_region(bin, idx) ==> m0[idx] == m0b[idx],
    ensures
        stubs_set_up(bin, m0, m),
{
    match stub_info(bin) {
        None => {},
        Some((a, es, n)) => {
            assert forall|i: int| 0 <= i < n && #[trigger] words_at(m0, a + i * es, expected_stub_instructions(es))
                implies words_at(m, a + i * es, set_up_words(es)) by {
                assert(i * es + es <= n * es) by (nonlinear_arith) requires 0 <= i < n, es > 0;
                assert(i * es >= 0) by (nonlinear_arith) requires 0 <= i, es > 0;
                assert forall|q: int| a + i * es <= q < a + i * es + 4 * expected_stub_instructions(es).len() implies #[trigger] m0b[q] == m0[q] by {
                    assert(in_stub_region(bin, q));
                }
                lemma_words_kept(m0, m0b, a + i * es, expected_stub_instructions(es));
            }
        },
    }
}

/// Setting up the stubs of `bin` changes no byte outside them, and sets up
/// every stub that held its original instructions.
proof fn lemma_lazy_linking_set_up(bin: MachO, m: Seq<u8>)
    requires
        lazy_stubs_ok(bin, m.len() as int),
    ensures
        lazy_linking_set_up(bin, m).len() == m.len(),
        forall|idx: int| 0 <= idx < m.len() && !in_stub_region(bin, idx) ==> #[trigger] lazy_linking_set_up(bin, m)[idx] == m[idx],
        stubs_set_up(bin, m, lazy_linking_set_up(bin, m)),
{
    match stub_info(bin) {
        None => {},
        Some((a, es, n)) => {
            let s = bin.sections@[first_section(bin.sections@, SectionType::SymbolStubs)->0];
            assert(s.size % es == 0);
            assert(n * es == s.size) by (nonlinear_arith) requires n == s.size / es, s.size % es == 0, es > 0;
            lemma_set_up_stubs(m, a, es, n);
        },
    }
}

/// Whether the words at `a` are `ws`.
fn words_match(mem: &Mem, a: u32, ws: &Vec<u32>) -> (r: bool)
    requires
        mem.wf(),
        a + 4 * ws@.len() <= mem@.len(),
    ensures
        r == words_at(mem@, a as int, ws@),
{
    let mut j: usize = 0;
    proof {
        mem.lemma_wf();
    }
    while j < ws.len()
        invariant
            mem.wf(),
            mem@.len() <= u32::MAX,
            a + 4 * ws@.len() <= mem@.len(),
            j <= ws@.len(),
            forall|k: int| 0 <= k < j ==> #[trigger] read_u32_spec(mem@, a + 4 * k) == ws@[k],
        decreases ws@.len() - j,
    {
        if mem.read_u32(a + 4 * (j as u32)) != ws[j] {
            return false;
        }
        j = j + 1;
    }
    true
}

impl Dyld {
    /// Make every lazy symbol stub of `bin` that still holds its original
    /// instructions ask the linker for its symbol on first call. Stubs of an
    /// unknown size are left alone.
    pub fn setup_lazy_linking(&self, bin: &MachO, mem: &mut Mem)
        requires
            old(mem).wf(),
            lazy_stubs_ok(*bin, old(mem)@.len() as int),
        ensures
            final(mem).wf(),
            final(mem).next_free_spec() == old(mem).next_free_spec(),
            final(mem)@ == lazy_linking_set_up(*bin, old(mem)@),
            final(mem)@.len() == old(mem)@.len(),
    {
        let Some(si) = bin.get_section(SectionType::SymbolStubs) else {
            return;
        };
        let stubs = &bin.sections[si];
        let Some(indirect_info) = stubs.dyld_indirect_symbol_info.as_ref() else {
            return;
        };
        let entry_size = indirect_info.entry_size;
        let expected: Vec<u32> = if entry_size == 4 {
            Vec::new()
        } else if entry_size == 12 {
            vec![0xe59f_c000u32, 0xe59c_f000u32]
        } else if entry_size == 16 {
            vec![0xe59f_c004u32, 0xe08f_c00cu32, 0xe59c_f000u32]
        } else {
            return;
        };
        assert(expected@ =~= expected_stub_instructions(entry_size));
        let stub_count = stubs.size / entry_size;
        let ghost m0 = mem@;
        proof {
            mem.lemma_wf();
            assert(stub_count * entry_size <= stubs.size) by (nonlinear_arith)
                requires stub_count == stubs.size / entry_size, entry_size > 0;
        }
        let mut i: u32 = 0;
        while i < stub_count
            invariant
                mem.wf(),
                mem.next_free_spec() == old(mem).next_free_spec(),
                mem@.len() == m0.len(),
                m0.len() <= u32::MAX,
                entry_size == 4 || entry_size == 12 || entry_size == 16,
                expected@ == expected_stub_instructions(entry_size),
                stubs.addr + stubs.size <= m0.len(),
                stub_count * entry_size <= stubs.size,
                i <= stub_count,
                mem@ == set_up_stubs(m0, stubs.addr as int, entry_size, i as int),
            decreases stub_count - i,
        {
            proof {
                assert(i * entry_size + entry_size <= stub_count * entry_size) by (nonlinear_arith)
                    requires i < stub_count, entry_size > 0;
            }
            let ptr = stubs.addr + i * entry_size;
            assert(ptr + 4 * expected@.len() <= mem@.len());
            if words_match(mem, ptr, &expected) {
                if entry_size == 4 {
                    mem.write_u32(ptr, encode_a32_svc(SVC_LAZY_LINK_RET_FLAG));
                } else {
                    mem.write_u32(ptr, encode_a32_svc(SVC_LAZY_LINK));
                    mem.write_u32(ptr + 4, encode_a32_ret());
                    if entry_size == 16 {
                        mem.write_u32(ptr + 8, encode_a32_trap());
                    }
                }
            }
            i = i + 1;
        }
    }
}

} // verus!

verus! {

/// The words a custom constant consists of.
pub open spec fn custom_constant_words(c: CustomConstant) -> Seq<u32> {
    match c {
        CustomConstant::UIBackgroundTaskInvalid => seq![0xffff_ffffu32],
        CustomConstant::UIWindowLevelNormal => seq![0u32],
        CustomConstant::UIWindowLevelStatusBar => seq![0x447a_0000u32],
        CustomConstant::UIWindowLevelAlert => seq![0x44fa_0000u32],
        CustomConstant::GLKMatrix4Identity => seq![
            0x3f80_0000u32, 0, 0, 0,
            0, 0x3f80_0000u32, 0, 0,
            0, 0, 0x3f80_0000u32, 0,
            0, 0, 0, 0x3f80_0000u32,
        ],
    }
}

/// Allocate the data of a custom constant and return its address: the
/// block holds the constant's words and zeros after them.
pub fn make_custom_constant(mem: &mut Mem, c: CustomConstant) -> (addr: u32)
    requires
        old(mem).wf(),
        old(mem).free_space() >= 64,
    ensures
        final(mem).wf(),
        addr == old(mem).next_free_spec(),
        final(mem).next_free_spec() == old(mem).next_free_spec() + constant_block_size(HostConstant::Custom(c)),
        words_at(final(mem)@, addr as int, custom_constant_words(c)),
        crate::mem::same_outside(old(mem)@, final(mem)@, addr as int, addr + constant_block_size(HostConstant::Custom(c))),
        forall|i: int| addr + 4 * custom_constant_words(c).len() <= i < addr + constant_block_size(HostConstant::Custom(c))
            ==> #[trigger] final(mem)@[i] == 0,
{
    let words: Vec<u32> = match c {
        CustomConstant::UIBackgroundTaskInvalid => vec![0xffff_ffffu32],
        CustomConstant::UIWindowLevelNormal => vec![0u32],
        CustomConstant::UIWindowLevelStatusBar => vec![0x447a_0000u32],
        CustomConstant::UIWindowLevelAlert => vec![0x44fa_0000u32],
        CustomConstant::GLKMatrix4Identity => vec![
            0x3f80_0000u32, 0, 0, 0,
            0, 0x3f80_0000u32, 0, 0,
            0, 0, 0x3f80_0000u32, 0,
            0, 0, 0, 0x3f80_0000u32,
        ],
    };
    assert(words@ =~= custom_constant_words(c));
    let n = words.len() as u32;
    assert(alloc_size(4) == 16 && alloc_size(64) == 64);
    let addr = mem.allocate(4 * n);
    proof {
        mem.lemma_wf();
    }
    let ghost m1 = mem@;
    let ghost size = alloc_size((4 * n) as u32);
    let mut i: u32 = 0;
    while i < n
        invariant
            mem.wf(),
            mem@.len() <= u32::MAX,
            n == words@.len(),
            n == 1 || n == 16,
            size == alloc_size((4 * n) as u32),
            size == 16 || size == 64,
            addr + size <= mem@.len(),
            i <= n,
            mem.next_free_spec() == addr + size,
            forall|j: int| 0 <= j < i ==> #[trigger] read_u32_spec(mem@, addr + 4 * j) == words@[j],
            crate::mem::same_outside(m1, mem@, addr + 0, addr + 4 * i),
            forall|j: int| addr <= j < addr + size ==> #[trigger] m1[j] == 0,
        decreases n - i,
    {
        let ghost before = mem@;
        mem.write_u32(addr + 4 * i, words[i as usize]);
        proof {
            crate::mem::lemma_write_read_u32(before, addr + 4 * i, words@[i as int]);
            assert forall|j: int| 0 <= j < i + 1 implies #[trigger] read_u32_spec(mem@, addr + 4 * j) == words@[j] by {
                if j < i {
                    crate::mem::lemma_write_u32_other(before, addr + 4 * i, words@[i as int], addr + 4 * j);
                }
            }
        }
        i = i + 1;
    }
    addr
}

/// The words of a constant that gets a block of its own.
pub open spec fn constant_words(c: HostConstant) -> Seq<u32> {
    match c {
        HostConstant::NSString(_) => Seq::empty(),
        HostConstant::NullPtr => seq![0u32],
        HostConstant::Custom(cc) => custom_constant_words(cc),
    }
}

/// The bytes allocated for a constant's block.
pub open spec fn constant_block_size(c: HostConstant) -> int {
    match c {
        HostConstant::NSString(_) => 0,
        HostConstant::NullPtr => 16,
        HostConstant::Custom(cc) => alloc_size((4 * custom_constant_words(cc).len()) as u32),
    }
}

/// The bytes allocated for the blocks of the first `k` pending constants.
pub open spec fn blocks_size(pend: Seq<(u32, HostConstant)>, k: int) -> int
    decreases k,
{
    if k <= 0 {
        0
    } else {
        blocks_size(pend, k - 1) + constant_block_size(pend[k - 1].1)
    }
}

/// The NSString constants among the first `k` pending ones, in order.
pub open spec fn late_strings(pend: Seq<(u32, HostConstant)>, k: int) -> Seq<LateConstant>
    decreases k,
{
    if k <= 0 {
        Seq::empty()
    } else if pend[k - 1].1 is NSString {
        late_strings(pend, k - 1).push(LateConstant { symbol_ptr_ptr: pend[k - 1].0, template: pend[k - 1].1 })
    } else {
        late_strings(pend, k - 1)
    }
}

/// No pending pointer after the `k`th one overlaps it.
pub open spec fn slot_kept(pend: Seq<(u32, HostConstant)>, k: int, upto: int) -> bool {
    forall|j: int| k < j < upto ==> #[trigger] pend[j].0 + 4 <= pend[k].0 || pend[k].0 + 4 <= pend[j].0
}

/// The space that pending constants take grows with their number, by at
/// most 64 bytes each.
pub proof fn lemma_blocks_size_mono(pend: Seq<(u32, HostConstant)>, a: int, b: int)
    requires
        0 <= a <= b,
    ensures
        blocks_size(pend, a) <= blocks_size(pend, b),
        blocks_size(pend, b) <= blocks_size(pend, a) + 64 * (b - a),
    decreases b - a,
{
    if a < b {
        lemma_blocks_size_mono(pend, a, b - 1);
        lemma_custom_size(pend[b - 1].1);
    }
}

proof fn lemma_custom_size(c: HostConstant)
    ensures
        0 <= constant_block_size(c) <= 64,
        constant_block_size(c) >= 4 * constant_words(c).len(),
        constant_block_size(c) % 16 == 0,
{
    assert(alloc_size(4) == 16 && alloc_size(64) == 64);
}

/// After late linking the first `upto` pending constants, the `k`th one (if
/// it is not a string) has its block, and its pointer points there unless a
/// later pointer overlaps it.
pub open spec fn late_linked(m: Seq<u8>, nf0: int, pend: Seq<(u32, HostConstant)>, k: int, upto: int) -> bool {
    let block = nf0 + blocks_size(pend, k);
    pend[k].1 !is NSString ==> {
        &&& (slot_kept(pend, k, upto) ==> read_u32_spec(m, pend[k].0 as int) == block)
        &&& words_at(m, block, constant_words(pend[k].1))
    }
}

/// Host constants whose guest data the caller still has to make.
pub struct LateConstant {
    pub symbol_ptr_ptr: u32,
    pub template: HostConstant,
}

impl Dyld {
    /// Fill the pointers waiting for host constants: a NULL pointer and the
    /// custom constants get a block of their own, allocated one after
    /// another, and the pointer is set to it; `NSString` constants need the
    /// string runtime and are handed back, in order, for the caller to make
    /// and store.
    pub fn do_late_linking(&mut self, mem: &mut Mem) -> (rest: Vec<LateConstant>)
        requires
            old(mem).wf(),
            old(mem).free_space() >= 64 * old(self).pending_constants().len(),
            forall|k: int| 0 <= k < old(self).pending_constants().len()
                ==> #[trigger] old(self).pending_constants()[k].0 + 4 <= old(mem).next_free_spec(),
        ensures
            final(mem).wf(),
            final(self).pending_constants().len() == 0,
            final(self).linked() == old(self).linked(),
            final(self).cache() == old(self).cache(),
            final(self).return_routine() == old(self).return_routine(),
            final(self).exit_routine() == old(self).exit_routine(),
            rest@ == late_strings(old(self).pending_constants(), old(self).pending_constants().len() as int),
            final(mem).next_free_spec() == old(mem).next_free_spec()
                + blocks_size(old(self).pending_constants(), old(self).pending_constants().len() as int),
            final(mem)@.len() == old(mem)@.len(),
            forall|k: int| 0 <= k < old(self).pending_constants().len() ==> #[trigger] late_linked(
                final(mem)@,
                old(mem).next_free_spec(),
                old(self).pending_constants(),
                k,
                old(self).pending_constants().len() as int,
            ),
    {
        let mut to_link: Vec<(u32, HostConstant)> = Vec::new();
        std::mem::swap(&mut to_link, &mut self.constants_to_link_later);
        let ghost pend = to_link@;
        let ghost nf0 = mem.next_free_spec();
        let ghost len0 = mem@.len();
        let mut rest: Vec<LateConstant> = Vec::new();
        let mut k: usize = 0;
        proof {
            mem.lemma_wf();
        }
        while k < to_link.len()
            invariant
                pend == to_link@,
                mem.wf(),
                mem@.len() <= u32::MAX,
                k <= pend.len(),
                mem@.len() == len0,
                mem.next_free_spec() == nf0 + blocks_size(pend, k as int),
                mem.free_space() >= 64 * (pend.len() - k),
                forall|i: int| 0 <= i < pend.len() ==> #[trigger] pend[i].0 + 4 <= nf0,
                0 <= nf0,
                rest@ == late_strings(pend, k as int),
                forall|i: int| 0 <= i < k ==> #[trigger] late_linked(mem@, nf0, pend, i, k as int),
            decreases pend.len() - k,
        {
            let ghost before = mem@;
            let ptr_ptr = to_link[k].0;
            let ghost block = mem.next_free_spec();
            proof {
                assert(pend[k as int].0 + 4 <= nf0);
                lemma_blocks_size_mono(pend, 0, k as int);
                lemma_custom_size(pend[k as int].1);
                assert forall|i: int| 0 <= i < k implies nf0 + blocks_size(pend, i) + constant_block_size(pend[i].1) <= block by {
                    lemma_blocks_size_mono(pend, i + 1, k as int);
                }
            }
            match &to_link[k].1 {
                HostConstant::NSString(s) => {
                    rest.push(LateConstant { symbol_ptr_ptr: ptr_ptr, template: HostConstant::NSString(s.clone()) });
                },
                HostConstant::NullPtr => {
                    assert(alloc_size(4) == 16);
                    let p = mem.allocate(4);
                    mem.write_u32(p, 0);
                    let ghost mid = mem@;
                    mem.write_u32(ptr_ptr, p);
                    proof {
                        crate::mem::lemma_write_read_u32(mid, ptr_ptr as int, p);
                        crate::mem::lemma_write_u32_other(mid, ptr_ptr as int, p, p as int);
                        assert(words_at(mem@, block, constant_words(pend[k as int].1)));
                    }
                },
                HostConstant::Custom(c) => {
                    let p = make_custom_constant(mem, *c);
                    let ghost mid = mem@;
                    mem.write_u32(ptr_ptr, p);
                    proof {
                        crate::mem::lemma_write_read_u32(mid, ptr_ptr as int, p);
                        assert forall|j: int| 0 <= j < constant_words(pend[k as int].1).len() implies
                            #[trigger] read_u32_spec(mem@, block + 4 * j) == constant_words(pend[k as int].1)[j] by {
                            crate::mem::lemma_write_u32_other(mid, ptr_ptr as int, p, block + 4 * j);
                        }
                    }
                },
            }
            proof {
                assert(same_outside_two(before, mem@, block, block + constant_block_size(pend[k as int].1), pend[k as int].0 as int, pend[k as int].0 + 4));
                assert(rest@ =~= late_strings(pend, k + 1));
                assert forall|i: int| 0 <= i < k + 1 implies #[trigger] late_linked(mem@, nf0, pend, i, k + 1) by {
                    if i < k {
                        lemma_late_step_keeps(before, mem@, pend, nf0, i, k as int, block);
                    }
                    if i == k && pend[i].1 !is NSString {
                        assert(blocks_size(pend, i) + nf0 == block);
                    }
                }
            }
            k = k + 1;
        }
        rest
    }
}

/// `a` and `b` have the same length and the same bytes outside `[lo1, hi1)`
/// and `[lo2, hi2)`.
pub open spec fn same_outside_two(a: Seq<u8>, b: Seq<u8>, lo1: int, hi1: int, lo2: int, hi2: int) -> bool {
    &&& a.len() == b.len()
    &&& forall|i: int| 0 <= i < a.len() && !(lo1 <= i < hi1) && !(lo2 <= i < hi2) ==> #[trigger] b[i] == a[i]
}

/// One step of late linking keeps what the earlier steps made.
proof fn lemma_late_step_keeps(before: Seq<u8>, after: Seq<u8>, pend: Seq<(u32, HostConstant)>, nf0: int, i: int, k: int, block: int)
    requires
        0 <= i < k < pend.len(),
        0 <= nf0,
        block + constant_block_size(pend[k].1) <= before.len(),
        nf0 + blocks_size(pend, i) + constant_block_size(pend[i].1) <= block,
        forall|j: int| 0 <= j < pend.len() ==> #[trigger] pend[j].0 + 4 <= nf0,
        late_linked(before, nf0, pend, i, k),
        same_outside_two(before, after, block, block + constant_block_size(pend[k].1), pend[k].0 as int, pend[k].0 + 4),
    ensures
        late_linked(after, nf0, pend, i, k + 1),
{
    if pend[i].1 is NSString {
        return;
    }
    lemma_custom_size(pend[i].1);
    lemma_blocks_size_mono(pend, 0, i);
    let q = pend[i].0 as int;
    let pk = pend[k].0 as int;
    assert(pend[i].0 + 4 <= nf0);
    assert(pend[k].0 + 4 <= nf0);
    if slot_kept(pend, i, k + 1) {
        assert(pend[k].0 + 4 <= pend[i].0 || pend[i].0 + 4 <= pend[k].0);
        assert(slot_kept(pend, i, k));
        crate::mem::lemma_read_u32_same(after, before, q);
    }
    let blk = nf0 + blocks_size(pend, i);
    let ws = constant_words(pend[i].1);
    assert forall|j: int| 0 <= j < ws.len() implies #[trigger] read_u32_spec(after, blk + 4 * j) == ws[j] by {
        assert(read_u32_spec(before, blk + 4 * j) == ws[j]);
        crate::mem::lemma_read_u32_same(after, before, blk + 4 * j);
    }
}

} // verus!

verus! {

/// The code of a guest function that returns at once: a return, then a trap.
pub open spec fn ret_stub_words() -> Seq<u32> {
    seq![0xe12f_ff1eu32, 0xe7ff_defeu32]
}

/// A C++ ABI type-info vtable: two NULL words, then eight entries pointing
/// at `stub`.
pub open spec fn vtable_words(stub: u32) -> Seq<u32> {
    seq![0u32, 0u32, stub, stub, stub, stub, stub, stub, stub, stub]
}

/// The sixteen bytes of an IPv6 address at `a`: all zero, but for the last
/// one, which is 1 for the loopback address.
pub open spec fn in6addr_at(m: Seq<u8>, a: int, loopback: bool) -> bool {
    forall|i: int| 0 <= i < 16 ==> #[trigger] m[a + i] == (if loopback && i == 15 { 1u8 } else { 0u8 })
}

/// The `n` bytes at `a` are zero.
pub open spec fn zeros_at(m: Seq<u8>, a: int, n: int) -> bool {
    forall|i: int| a <= i < a + n ==> #[trigger] m[i] == 0
}

/// Store the words `ws` one after another from `a` on.
fn write_word_list(mem: &mut Mem, a: u32, ws: &Vec<u32>)
    requires
        old(mem).wf(),
        a + 4 * ws@.len() <= old(mem)@.len(),
    ensures
        final(mem).wf(),
        final(mem).next_free_spec() == old(mem).next_free_spec(),
        words_at(final(mem)@, a as int, ws@),
        crate::mem::same_outside(old(mem)@, final(mem)@, a as int, a + 4 * ws@.len()),
{
    proof {
        mem.lemma_wf();
    }
    let n = ws.len();
    let mut i: usize = 0;
    while i < n
        invariant
            mem.wf(),
            mem@.len() == old(mem)@.len(),
            mem@.len() <= u32::MAX,
            n == ws@.len(),
            a + 4 * n <= mem@.len(),
            i <= n,
            mem.next_free_spec() == old(mem).next_free_spec(),
            forall|j: int| 0 <= j < i ==> #[trigger] read_u32_spec(mem@, a + 4 * j) == ws@[j],
            crate::mem::same_outside(old(mem)@, mem@, a as int, a + 4 * i),
        decreases n - i,
    {
        let ghost before = mem@;
        let at = a + 4 * (i as u32);
        mem.write_u32(at, ws[i]);
        proof {
            crate::mem::lemma_write_read_u32(before, at as int, ws@[i as int]);
            assert forall|j: int| 0 <= j < i + 1 implies #[trigger] read_u32_spec(mem@, a + 4 * j) == ws@[j] by {
                if j < i {
                    crate::mem::lemma_write_u32_other(before, at as int, ws@[i as int], a + 4 * j);
                }
            }
        }
        i = i + 1;
    }
}

/// Allocate a block holding the words `ws` (at most four) and return it.
fn make_words(mem: &mut Mem, ws: &Vec<u32>) -> (a: u32)
    requires
        old(mem).wf(),
        ws@.len() <= 4,
        old(mem).free_space() >= 16,
    ensures
        final(mem).wf(),
        a == old(mem).next_free_spec(),
        final(mem).next_free_spec() == old(mem).next_free_spec() + 16,
        words_at(final(mem)@, a as int, ws@),
        zeros_at(final(mem)@, a + 4 * ws@.len(), 16 - 4 * ws@.len()),
        crate::mem::same_outside(old(mem)@, final(mem)@, a as int, a + 16),
{
    assert(alloc_size(16) == 16);
    let a = mem.allocate(16);
    proof {
        mem.lemma_wf();
    }
    write_word_list(mem, a, ws);
    a
}

/// Allocate a function that returns at once and return its address.
fn make_ret_stub(mem: &mut Mem) -> (a: u32)
    requires
        old(mem).wf(),
        old(mem).free_space() >= 16,
    ensures
        final(mem).wf(),
        a == old(mem).next_free_spec(),
        final(mem).next_free_spec() == old(mem).next_free_spec() + 16,
        words_at(final(mem)@, a as int, ret_stub_words()),
        crate::mem::same_outside(old(mem)@, final(mem)@, a as int, a + 16),
{
    let ws = vec![encode_a32_ret(), encode_a32_trap()];
    assert(ws@ =~= ret_stub_words());
    make_words(mem, &ws)
}

/// Allocate a word holding `v` and return its address.
fn make_word(mem: &mut Mem, v: u32) -> (a: u32)
    requires
        old(mem).wf(),
        old(mem).free_space() >= 16,
    ensures
        final(mem).wf(),
        a == old(mem).next_free_spec(),
        final(mem).next_free_spec() == old(mem).next_free_spec() + 16,
        read_u32_spec(final(mem)@, a as int) == v,
        crate::mem::same_outside(old(mem)@, final(mem)@, a as int, a + 16),
{
    let ws = vec![v];
    let a = make_words(mem, &ws);
    assert(read_u32_spec(mem@, a + 4 * 0) == ws@[0]);
    a
}

/// Allocate a zero-filled block of `size` bytes and return its address.
fn make_zero_block(mem: &mut Mem, size: u32) -> (a: u32)
    requires
        old(mem).wf(),
        size <= 64,
        old(mem).free_space() >= 64,
    ensures
        final(mem).wf(),
        a == old(mem).next_free_spec(),
        final(mem).next_free_spec() == old(mem).next_free_spec() + alloc_size(size),
        alloc_size(size) <= 64,
        zeros_at(final(mem)@, a as int, alloc_size(size)),
        crate::mem::same_outside(old(mem)@, final(mem)@, a as int, a + alloc_size(size)),
{
    mem.allocate(size)
}

/// Allocate an IPv6 address (any, or loopback) and return its address.
fn make_in6addr(mem: &mut Mem, loopback: bool) -> (a: u32)
    requires
        old(mem).wf(),
        old(mem).free_space() >= 16,
    ensures
        final(mem).wf(),
        a == old(mem).next_free_spec(),
        final(mem).next_free_spec() == old(mem).next_free_spec() + 16,
        in6addr_at(final(mem)@, a as int, loopback),
        crate::mem::same_outside(old(mem)@, final(mem)@, a as int, a + 16),
{
    assert(alloc_size(16) == 16);
    let a = mem.allocate(16);
    proof {
        mem.lemma_wf();
    }
    if loopback {
        mem.write_u8(a + 15, 1);
    }
    a
}

/// Allocate a C++ ABI type-info vtable and the stub its entries point at;
/// returns the vtable's address. The stub comes first, at the old first
/// free address.
fn make_cxxabi_vtable(mem: &mut Mem) -> (v: u32)
    requires
        old(mem).wf(),
        old(mem).free_space() >= 64,
    ensures
        final(mem).wf(),
        v == old(mem).next_free_spec() + 16,
        final(mem).next_free_spec() == old(mem).next_free_spec() + 64,
        words_at(final(mem)@, old(mem).next_free_spec(), ret_stub_words()),
        words_at(final(mem)@, v as int, vtable_words(old(mem).next_free_spec() as u32)),
        crate::mem::same_outside(old(mem)@, final(mem)@, old(mem).next_free_spec(), old(mem).next_free_spec() + 64),
{
    let stub = make_ret_stub(mem);
    let ghost m1 = mem@;
    assert(alloc_size(40) == 48);
    let v = mem.allocate(40);
    proof {
        mem.lemma_wf();
    }
    let ws = vec![0u32, 0u32, stub, stub, stub, stub, stub, stub, stub, stub];
    assert(ws@ =~= vtable_words(stub));
    write_word_list(mem, v, &ws);
    proof {
        assert forall|j: int| 0 <= j < ret_stub_words().len() implies #[trigger] read_u32_spec(mem@, stub + 4 * j) == ret_stub_words()[j] by {
            assert(read_u32_spec(m1, stub + 4 * j) == ret_stub_words()[j]);
            crate::mem::lemma_read_u32_same(mem@, m1, stub + 4 * j);
        }
    }
    v
}

} // verus!

verus! {

/// What the symbol of an external relocation, or of a non-lazy pointer that
/// no binary and no host dylib provides, is linked to.
#[derive(Clone, Copy, PartialEq, Eq, Structural, Debug)]
pub enum SpecialSymbol {
    /// `_OBJC_CLASS_$_` followed by a class name.
    ObjcClass,
    /// `_OBJC_METACLASS_$_` followed by a class name.
    ObjcMetaclass,
    /// The class of constant CFStrings, linked to nil.
    CFConstantStringClass,
    /// `__mb_cur_max`: a word holding 1.
    MbCurMax,
    /// The stub binder.
    StubBinder,
    /// The classes of global and stack blocks.
    BlockClass,
    /// The C++ ABI type-info vtables.
    CxxabiVtable,
    /// The C++ and Objective-C exception personality routines.
    Personality,
    /// Objective-C exception type information.
    ObjcEhType,
    /// C++ handler pointers and libdispatch objects: a NULL word.
    NullCell,
    /// `in6addr_any` (false) or `in6addr_loopback` (true).
    In6Addr(bool),
    /// `NDR_record`: twelve zero bytes.
    NdrRecord,
    /// None of the above.
    Ordinary,
}

pub open spec fn is_block_class_symbol(s: Seq<char>) -> bool {
    s == "__NSConcreteGlobalBlock"@ || s == "__NSConcreteStackBlock"@
}

pub open spec fn is_cxxabi_vtable_symbol(s: Seq<char>) -> bool {
    ||| s == "__ZTVN10__cxxabiv117__class_type_infoE"@
    ||| s == "__ZTVN10__cxxabiv120__si_class_type_infoE"@
    ||| s == "__ZTVN10__cxxabiv121__vmi_class_type_infoE"@
}

pub open spec fn is_personality_symbol(s: Seq<char>) -> bool {
    s == "___gxx_personality_sj0"@ || s == "___objc_personality_v0"@
}

pub open spec fn is_objc_eh_type_symbol(s: Seq<char>) -> bool {
    s == "_OBJC_EHTYPE_id"@ || s == "_OBJC_EHTYPE_$_NSException"@
}

/// The C++ handler pointers and the libdispatch objects, which are linked to
/// a NULL word.
pub open spec fn is_null_cell_symbol(s: Seq<char>) -> bool {
    ||| s == "___cxa_terminate_handler"@
    ||| s == "___cxa_unexpected_handler"@
    ||| s == "___cxa_new_handler"@
    ||| s == "__dispatch_source_type_read"@
    ||| s == "__dispatch_source_type_write"@
    ||| s == "__dispatch_source_type_timer"@
    ||| s == "__dispatch_source_type_data_add"@
    ||| s == "__dispatch_source_type_data_or"@
    ||| s == "__dispatch_source_type_signal"@
    ||| s == "__dispatch_source_type_proc"@
    ||| s == "__dispatch_source_type_vnode"@
    ||| s == "__dispatch_source_type_mach_send"@
    ||| s == "__dispatch_source_type_mach_recv"@
    ||| s == "__dispatch_source_type_memorypressure"@
    ||| s == "__dispatch_queue_attr_concurrent"@
    ||| s == "__dispatch_queue_attr_serial"@
    ||| s == "__dispatch_data_empty"@
    ||| s == "__dispatch_data_destructor_default"@
    ||| s == "__dispatch_data_destructor_free"@
    ||| s == "__dispatch_data_destructor_munmap"@
    ||| s == "__dispatch_main_q"@
    ||| s == "__dispatch_queue_main"@
}

/// The special meaning of `s`, if it has one.
pub open spec fn special_symbol(s: Seq<char>) -> SpecialSymbol {
    if seq_starts_with(s, "_OBJC_CLASS_$_"@) {
        SpecialSymbol::ObjcClass
    } else if seq_starts_with(s, "_OBJC_METACLASS_$_"@) {
        SpecialSymbol::ObjcMetaclass
    } else if s == "___CFConstantStringClassReference"@ {
        SpecialSymbol::CFConstantStringClass
    } else if s == "___mb_cur_max"@ {
        SpecialSymbol::MbCurMax
    } else if is_stub_binder_symbol(s) {
        SpecialSymbol::StubBinder
    } else if is_block_class_symbol(s) {
        SpecialSymbol::BlockClass
    } else if is_cxxabi_vtable_symbol(s) {
        SpecialSymbol::CxxabiVtable
    } else if is_personality_symbol(s) {
        SpecialSymbol::Personality
    } else if is_objc_eh_type_symbol(s) {
        SpecialSymbol::ObjcEhType
    } else if is_null_cell_symbol(s) {
        SpecialSymbol::NullCell
    } else if s == "_in6addr_any"@ {
        SpecialSymbol::In6Addr(false)
    } else if s == "_in6addr_loopback"@ {
        SpecialSymbol::In6Addr(true)
    } else if s == "_NDR_record"@ {
        SpecialSymbol::NdrRecord
    } else {
        SpecialSymbol::Ordinary
    }
}

fn is_null_cell_name(s: &str) -> (r: bool)
    ensures
        r == is_null_cell_symbol(s@),
{
    str_eq(s, "___cxa_terminate_handler") || str_eq(s, "___cxa_unexpected_handler")
        || str_eq(s, "___cxa_new_handler") || str_eq(s, "__dispatch_source_type_read")
        || str_eq(s, "__dispatch_source_type_write") || str_eq(s, "__dispatch_source_type_timer")
        || str_eq(s, "__dispatch_source_type_data_add") || str_eq(s, "__dispatch_source_type_data_or")
        || str_eq(s, "__dispatch_source_type_signal") || str_eq(s, "__dispatch_source_type_proc")
        || str_eq(s, "__dispatch_source_type_vnode") || str_eq(s, "__dispatch_source_type_mach_send")
        || str_eq(s, "__dispatch_source_type_mach_recv")
        || str_eq(s, "__dispatch_source_type_memorypressure")
        || str_eq(s, "__dispatch_queue_attr_concurrent") || str_eq(s, "__dispatch_queue_attr_serial")
        || str_eq(s, "__dispatch_data_empty") || str_eq(s, "__dispatch_data_destructor_default")
        || str_eq(s, "__dispatch_data_destructor_free")
        || str_eq(s, "__dispatch_data_destructor_munmap") || str_eq(s, "__dispatch_main_q")
        || str_eq(s, "__dispatch_queue_main")
}

/// The special meaning of a symbol, if it has one.
pub fn classify_special_symbol(s: &str) -> (r: SpecialSymbol)
    ensures
        r == special_symbol(s@),
{
    if str_starts_with(s, "_OBJC_CLASS_$_") {
        SpecialSymbol::ObjcClass
    } else if str_starts_with(s, "_OBJC_METACLASS_$_") {
        SpecialSymbol::ObjcMetaclass
    } else if str_eq(s, "___CFConstantStringClassReference") {
        SpecialSymbol::CFConstantStringClass
    } else if str_eq(s, "___mb_cur_max") {
        SpecialSymbol::MbCurMax
    } else if str_eq(s, "dyld_stub_binder") || str_eq(s, "_dyld_stub_binder") {
        SpecialSymbol::StubBinder
    } else if str_eq(s, "__NSConcreteGlobalBlock") || str_eq(s, "__NSConcreteStackBlock") {
        SpecialSymbol::BlockClass
    } else if str_eq(s, "__ZTVN10__cxxabiv117__class_type_infoE")
        || str_eq(s, "__ZTVN10__cxxabiv120__si_class_type_infoE")
        || str_eq(s, "__ZTVN10__cxxabiv121__vmi_class_type_infoE") {
        SpecialSymbol::CxxabiVtable
    } else if str_eq(s, "___gxx_personality_sj0") || str_eq(s, "___objc_personality_v0") {
        SpecialSymbol::Personality
    } else if str_eq(s, "_OBJC_EHTYPE_id") || str_eq(s, "_OBJC_EHTYPE_$_NSException") {
        SpecialSymbol::ObjcEhType
    } else if is_null_cell_name(s) {
        SpecialSymbol::NullCell
    } else if str_eq(s, "_in6addr_any") {
        SpecialSymbol::In6Addr(false)
    } else if str_eq(s, "_in6addr_loopback") {
        SpecialSymbol::In6Addr(true)
    } else if str_eq(s, "_NDR_record") {
        SpecialSymbol::NdrRecord
    } else {
        SpecialSymbol::Ordinary
    }
}

} // verus!

verus! {

/// A reference to an Objective-C class that the runtime has to resolve: the
/// pointer to fill, the class, and the addend the pointer held.
pub struct ClassRelocation {
    pub ptr_ptr: u32,
    pub class_name: String,
    pub is_metaclass: bool,
    pub addend: u32,
}

/// What became of one pointer to link.
pub enum LinkOutcome {
    /// The pointer was set to this target (plus its addend, for relocations).
    Linked(u32),
    /// An Objective-C class reference, left for the runtime.
    Class(ClassRelocation),
    /// A host constant, queued for late linking.
    Deferred,
    /// Nothing provides the symbol; the pointer is left alone.
    Unresolved,
}

/// The class name in an `_OBJC_CLASS_$_` or `_OBJC_METACLASS_$_` symbol.
pub open spec fn class_symbol_name(s: Seq<char>) -> Seq<char> {
    if special_symbol(s) is ObjcClass {
        s.subrange(14, s.len() as int)
    } else {
        s.subrange(18, s.len() as int)
    }
}

/// The first address recorded for `name` in a list of shared blocks.
pub open spec fn shared_lookup(shared: Seq<(String, u32)>, name: Seq<char>) -> Option<u32>
    decreases shared.len(),
{
    if shared.len() == 0 {
        None
    } else if shared[0].0@ == name {
        Some(shared[0].1)
    } else {
        shared_lookup(shared.drop_first(), name)
    }
}

proof fn lemma_shared_lookup_push(shared: Seq<(String, u32)>, e: (String, u32), name: Seq<char>)
    requires
        shared_lookup(shared, name) is None,
        e.0@ == name,
    ensures
        shared_lookup(shared.push(e), name) == Some(e.1),
    decreases shared.len(),
{
    if shared.len() > 0 {
        assert(shared.push(e).drop_first() =~= shared.drop_first().push(e));
        lemma_shared_lookup_push(shared.drop_first(), e, name);
    }
}

fn find_shared(shared: &Vec<(String, u32)>, name: &str) -> (r: Option<u32>)
    ensures
        r == shared_lookup(shared@, name@),
{
    let mut j: usize = 0;
    assert(shared@.subrange(0, shared@.len() as int) =~= shared@);
    while j < shared.len()
        invariant
            j <= shared@.len(),
            shared_lookup(shared@, name@) == shared_lookup(shared@.subrange(j as int, shared@.len() as int), name@),
        decreases shared@.len() - j,
    {
        let ghost rest = shared@.subrange(j as int, shared@.len() as int);
        assert(rest.drop_first() =~= shared@.subrange(j + 1, shared@.len() as int));
        if str_eq(shared[j].0.as_str(), name) {
            return Some(shared[j].1);
        }
        j = j + 1;
    }
    None
}

/// The contents a freshly allocated block for a special symbol has, at `a`.
pub open spec fn special_block_ok(m: Seq<u8>, a: int, kind: SpecialSymbol) -> bool {
    match kind {
        SpecialSymbol::MbCurMax => read_u32_spec(m, a) == 1,
        SpecialSymbol::StubBinder => words_at(m, a, ret_stub_words()),
        SpecialSymbol::Personality => words_at(m, a, ret_stub_words()),
        SpecialSymbol::BlockClass => zeros_at(m, a, 16),
        SpecialSymbol::ObjcEhType => zeros_at(m, a, 32),
        SpecialSymbol::CxxabiVtable => words_at(m, a - 16, ret_stub_words()) && words_at(m, a, vtable_words((a - 16) as u32)),
        SpecialSymbol::NullCell => read_u32_spec(m, a) == 0,
        SpecialSymbol::In6Addr(lb) => in6addr_at(m, a, lb),
        SpecialSymbol::NdrRecord => zeros_at(m, a, 12),
        _ => true,
    }
}

/// The bytes allocated for the block of a special symbol.
pub open spec fn special_block_size(kind: SpecialSymbol) -> int {
    match kind {
        SpecialSymbol::CxxabiVtable => 64,
        SpecialSymbol::ObjcEhType => 32,
        _ => 16,
    }
}

/// Where the block of a special symbol starts, relative to the first free
/// address.
pub open spec fn special_block_offset(kind: SpecialSymbol) -> int {
    if kind is CxxabiVtable { 16 } else { 0 }
}

/// Allocate the block for a special symbol and return the address the
/// pointer is set to.
fn make_special_block(mem: &mut Mem, kind: SpecialSymbol) -> (a: u32)
    requires
        old(mem).wf(),
        old(mem).free_space() >= 64,
        kind is MbCurMax || kind is StubBinder || kind is Personality || kind is BlockClass || kind is ObjcEhType
            || kind is CxxabiVtable || kind is NullCell || kind is In6Addr || kind is NdrRecord,
    ensures
        final(mem).wf(),
        a == old(mem).next_free_spec() + special_block_offset(kind),
        final(mem).next_free_spec() == old(mem).next_free_spec() + special_block_size(kind),
        special_block_ok(final(mem)@, a as int, kind),
        crate::mem::same_outside(old(mem)@, final(mem)@, old(mem).next_free_spec(), old(mem).next_free_spec() + special_block_size(kind)),
{
    match kind {
        SpecialSymbol::MbCurMax => make_word(mem, 1),
        SpecialSymbol::NullCell => make_word(mem, 0),
        SpecialSymbol::CxxabiVtable => make_cxxabi_vtable(mem),
        SpecialSymbol::In6Addr(lb) => make_in6addr(mem, lb),
        SpecialSymbol::BlockClass => {
            assert(alloc_size(16) == 16);
            make_zero_block(mem, 16)
        },
        SpecialSymbol::NdrRecord => {
            assert(alloc_size(12) == 16);
            make_zero_block(mem, 12)
        },
        SpecialSymbol::ObjcEhType => {
            assert(alloc_size(32) == 32);
            make_zero_block(mem, 32)
        },
        _ => make_ret_stub(mem),
    }
}

} // verus!

verus! {

/// The host constant exported first under `symbol`, if any.
pub open spec fn constant_target(dylibs: Seq<HostDylib>, symbol: Seq<char>) -> Option<HostConstant> {
    if exported_nowhere(dylibs, ExportKind::Constants, symbol) {
        None
    } else {
        let (i, j) = choose|i: int, j: int| is_first_export(dylibs, ExportKind::Constants, symbol, i, j);
        Some(dylibs[i].constant_exports@[j].1)
    }
}

/// The host constant exported first under `symbol`, if any.
fn find_host_constant(dylibs: &[HostDylib], symbol: &str) -> (r: Option<HostConstant>)
    ensures
        r == constant_target(dylibs@, symbol@),
{
    match search_host_dylibs(dylibs, ExportKind::Constants, symbol) {
        Some((i, j)) => {
            proof {
                let (ci, cj) = choose|ci: int, cj: int| is_first_export(dylibs@, ExportKind::Constants, symbol@, ci, cj);
                lemma_first_export_unique(dylibs@, ExportKind::Constants, symbol@, i as int, j as int, ci, cj);
            }
            Some(dylibs[i].constant_exports[j].1.duplicate())
        },
        None => None,
    }
}

/// Memory that agrees with `m1` on the block of a special symbol keeps the
/// block's contents.
proof fn lemma_special_block_kept(m1: Seq<u8>, m2: Seq<u8>, a: int, kind: SpecialSymbol)
    requires
        special_block_ok(m1, a, kind),
        forall|i: int| a - special_block_offset(kind) <= i < a - special_block_offset(kind) + special_block_size(kind)
            ==> #[trigger] m2[i] == m1[i],
    ensures
        special_block_ok(m2, a, kind),
{
    match kind {
        SpecialSymbol::MbCurMax => {
            crate::mem::lemma_read_u32_same(m1, m2, a);
        },
        SpecialSymbol::NullCell => {
            crate::mem::lemma_read_u32_same(m1, m2, a);
        },
        SpecialSymbol::StubBinder => {
            lemma_words_kept(m1, m2, a, ret_stub_words());
        },
        SpecialSymbol::Personality => {
            lemma_words_kept(m1, m2, a, ret_stub_words());
        },
        SpecialSymbol::CxxabiVtable => {
            lemma_words_kept(m1, m2, a - 16, ret_stub_words());
            lemma_words_kept(m1, m2, a, vtable_words((a - 16) as u32));
        },
        SpecialSymbol::In6Addr(lb) => {
            assert forall|i: int| 0 <= i < 16 implies #[trigger] m2[a + i] == (if lb && i == 15 { 1u8 } else { 0u8 }) by {
                assert(m1[a + i] == (if lb && i == 15 { 1u8 } else { 0u8 }));
            }
        },
        _ => {},
    }
}

proof fn lemma_words_kept(m1: Seq<u8>, m2: Seq<u8>, a: int, ws: Seq<u32>)
    requires
        words_at(m1, a, ws),
        forall|i: int| a <= i < a + 4 * ws.len() ==> #[trigger] m2[i] == m1[i],
    ensures
        words_at(m2, a, ws),
{
    assert forall|j: int| 0 <= j < ws.len() implies #[trigger] read_u32_spec(m2, a + 4 * j) == ws[j] by {
        assert(read_u32_spec(m1, a + 4 * j) == ws[j]);
        crate::mem::lemma_read_u32_same(m2, m1, a + 4 * j);
    }
}

} // verus!

verus! {

/// Symbols of relocations that are looked up in the binaries and host dylibs.
pub open spec fn is_ordinary_relocation(kind: SpecialSymbol) -> bool {
    kind is Ordinary || kind is ObjcEhType
}

/// Special symbols of relocations that get a block of their own.
pub open spec fn is_fresh_block_relocation(kind: SpecialSymbol) -> bool {
    kind is MbCurMax || kind is StubBinder || kind is Personality || kind is NullCell || kind is In6Addr || kind is NdrRecord
}

/// What the ordinary symbol `name` links to: an address exported by a
/// binary, a host function, a host constant, or nothing.
pub open spec fn ordinary_outcome_ok(
    r: LinkOutcome,
    bins: Seq<MachO>,
    dylibs: Seq<HostDylib>,
    name: Seq<char>,
    cache_after: Seq<(String, GuestFunction)>,
) -> bool {
    if bins_export_addr(bins, name) is Some {
        r == LinkOutcome::Linked(bins_export_addr(bins, name)->0)
    } else if proc_address_target(dylibs, name) is Some {
        &&& cache_lookup(cache_after, proc_target_name(dylibs, name)) is Some
        &&& r == LinkOutcome::Linked(cache_lookup(cache_after, proc_target_name(dylibs, name))->0.addr_with_thumb_bit)
    } else if constant_target(dylibs, name) is Some {
        r is Deferred
    } else {
        r is Unresolved
    }
}

impl Dyld {
    /// Link the ordinary symbol `name`: to the address a binary exports, else
    /// to a guest function for the host function, else queue the host
    /// constant for the pointer at `slot`.
    fn link_ordinary(&mut self, bins: &[MachO], dylibs: &[HostDylib], mem: &mut Mem, slot: u32, name: &str) -> (r: LinkOutcome)
        requires
            old(mem).wf(),
            old(mem).free_space() >= 16,
            old(self).linked().len() + SVC_LINKED_FUNCTIONS_BASE < SVC_LAZY_LINK_RET_FLAG,
        ensures
            final(mem).wf(),
            final(mem)@.len() == old(mem)@.len(),
            final(self).return_routine() == old(self).return_routine(),
            final(self).exit_routine() == old(self).exit_routine(),
            final(self).linked().len() <= old(self).linked().len() + 1,
            ordinary_outcome_ok(r, bins@, dylibs@, name@, final(self).cache()),
            crate::mem::same_outside(old(mem)@, final(mem)@, old(mem).next_free_spec(), final(mem).next_free_spec()),
            old(mem).next_free_spec() <= final(mem).next_free_spec() <= old(mem).next_free_spec() + 16,
            r is Deferred ==> final(self).pending_constants() == old(self).pending_constants().push((slot, constant_target(dylibs@, name@)->0)),
            !(r is Deferred) ==> final(self).pending_constants() == old(self).pending_constants(),
            !(r is Linked) ==> *final(mem) == *old(mem),
    {
        proof {
            mem.lemma_wf();
        }
        if let Some(a) = find_in_bins(bins, name) {
            return LinkOutcome::Linked(a);
        }
        match self.create_proc_address_no_inval(dylibs, mem, name) {
            Ok(f) => {
                return LinkOutcome::Linked(f.addr_with_thumb_bit);
            },
            Err(()) => {},
        }
        match find_host_constant(dylibs, name) {
            Some(c) => {
                self.constants_to_link_later.push((slot, c));
                LinkOutcome::Deferred
            },
            None => LinkOutcome::Unresolved,
        }
    }
}

} // verus!

verus! {

impl Dyld {
    /// Link one external relocation: the pointer at `slot` refers to `name`
    /// and holds an addend. Special symbols come first (blocks and type-info
    /// vtables are shared between relocations through `shared`), then what
    /// the binaries and host dylibs provide. A linked pointer gets the
    /// target plus its addend.
    fn link_relocation(
        &mut self,
        bins: &[MachO],
        dylibs: &[HostDylib],
        mem: &mut Mem,
        shared: &mut Vec<(String, u32)>,
        slot: u32,
        name: &str,
    ) -> (r: LinkOutcome)
        requires
            old(mem).wf(),
            old(mem).free_space() >= 64,
            slot + 4 <= old(mem).next_free_spec(),
            old(self).linked().len() + SVC_LINKED_FUNCTIONS_BASE < SVC_LAZY_LINK_RET_FLAG,
        ensures
            final(mem).wf(),
            final(mem)@.len() == old(mem)@.len(),
            final(self).return_routine() == old(self).return_routine(),
            final(self).exit_routine() == old(self).exit_routine(),
            final(self).linked().len() <= old(self).linked().len() + 1,
            old(mem).next_free_spec() <= final(mem).next_free_spec() <= old(mem).next_free_spec() + 64,
            ({
                let kind = special_symbol(name@);
                let nf0 = old(mem).next_free_spec();
                &&& (kind is ObjcClass || kind is ObjcMetaclass) ==> (r matches LinkOutcome::Class(c) && c.ptr_ptr == slot
                    && c.is_metaclass == (kind is ObjcMetaclass) && c.class_name@ == class_symbol_name(name@)
                    && c.addend == read_u32_spec(old(mem)@, slot as int))
                &&& kind is CFConstantStringClass ==> r == LinkOutcome::Linked(0)
                &&& is_fresh_block_relocation(kind) ==> r == LinkOutcome::Linked(nf0 as u32)
                    && special_block_ok(final(mem)@, nf0, kind)
                &&& (kind is BlockClass || kind is CxxabiVtable) ==> match shared_lookup(old(shared)@, name@) {
                    Some(a) => r == LinkOutcome::Linked(a),
                    None => r == LinkOutcome::Linked((nf0 + special_block_offset(kind)) as u32)
                        && special_block_ok(final(mem)@, nf0 + special_block_offset(kind), kind),
                }
                &&& is_ordinary_relocation(kind) ==> ordinary_outcome_ok(r, bins@, dylibs@, name@, final(self).cache())
            }),
            r matches LinkOutcome::Linked(t) ==> {
                &&& read_u32_spec(final(mem)@, slot as int) == t.wrapping_add(read_u32_spec(old(mem)@, slot as int))
                &&& same_outside_two(old(mem)@, final(mem)@, old(mem).next_free_spec(), final(mem).next_free_spec(), slot as int, slot + 4)
            },
            !(r is Linked) ==> final(mem)@ == old(mem)@ && final(mem).next_free_spec() == old(mem).next_free_spec(),
            r is Deferred ==> final(self).pending_constants() == old(self).pending_constants().push((slot, constant_target(dylibs@, name@)->0)),
            !(r is Deferred) ==> final(self).pending_constants() == old(self).pending_constants(),
            shared_lookup(old(shared)@, name@) is Some ==> final(shared)@ == old(shared)@,
            shared_lookup(old(shared)@, name@) is None ==> (final(shared)@ == old(shared)@ || (
                final(shared)@.drop_last() == old(shared)@ && final(shared)@.last().0@ == name@
                && r == LinkOutcome::Linked(final(shared)@.last().1))),
    {
        proof {
            mem.lemma_wf();
        }
        let addend = mem.read_u32(slot);
        let kind = classify_special_symbol(name);
        let ghost nf0 = mem.next_free_spec();
        let ghost mut fresh = false;
        let r = match kind {
            SpecialSymbol::ObjcClass => {
                let rest = str_strip_prefix(name, "_OBJC_CLASS_$_").unwrap();
                proof {
                    reveal_strlit("_OBJC_CLASS_$_");
                }
                return LinkOutcome::Class(ClassRelocation { ptr_ptr: slot, class_name: rest.to_owned(), is_metaclass: false, addend });
            },
            SpecialSymbol::ObjcMetaclass => {
                let rest = str_strip_prefix(name, "_OBJC_METACLASS_$_").unwrap();
                proof {
                    reveal_strlit("_OBJC_METACLASS_$_");
                }
                return LinkOutcome::Class(ClassRelocation { ptr_ptr: slot, class_name: rest.to_owned(), is_metaclass: true, addend });
            },
            SpecialSymbol::CFConstantStringClass => LinkOutcome::Linked(0),
            SpecialSymbol::BlockClass | SpecialSymbol::CxxabiVtable => {
                match find_shared(shared, name) {
                    Some(a) => LinkOutcome::Linked(a),
                    None => {
                        let a = make_special_block(mem, kind);
                        proof {
                            fresh = true;
                        }
                        let ghost before = shared@;
                        shared.push((name.to_owned(), a));
                        proof {
                            assert(shared@.drop_last() =~= before);
                        }
                        LinkOutcome::Linked(a)
                    },
                }
            },
            SpecialSymbol::Ordinary | SpecialSymbol::ObjcEhType => {
                let r = self.link_ordinary(bins, dylibs, mem, slot, name);
                match r {
                    LinkOutcome::Linked(_) => r,
                    _ => return r,
                }
            },
            _ => {
                let a = make_special_block(mem, kind);
                proof {
                    fresh = true;
                }
                LinkOutcome::Linked(a)
            },
        };
        let target = match r {
            LinkOutcome::Linked(t) => t,
            _ => 0,
        };
        let ghost before = mem@;
        proof {
            mem.lemma_wf();
        }
        mem.write_u32(slot, target.wrapping_add(addend));
        proof {
            crate::mem::lemma_write_read_u32(before, slot as int, target.wrapping_add(addend));
            if fresh {
                assert forall|i: int| target - special_block_offset(kind) <= i < target - special_block_offset(kind) + special_block_size(kind)
                    implies #[trigger] mem@[i] == before[i] by {
                    assert(nf0 <= i < before.len());
                }
                lemma_special_block_kept(before, mem@, target as int, kind);
            }
        }
        r
    }
}

} // verus!

verus! {

/// Something in the binaries or host dylibs provides `name`.
pub open spec fn provided(bins: Seq<MachO>, dylibs: Seq<HostDylib>, name: Seq<char>) -> bool {
    bins_export_addr(bins, name) is Some || proc_address_target(dylibs, name) is Some
        || constant_target(dylibs, name) is Some
}

/// Special symbols that a non-lazy pointer gets a block of its own for, when
/// nothing provides them.
pub open spec fn is_non_lazy_block_symbol(kind: SpecialSymbol) -> bool {
    kind is BlockClass || kind is ObjcEhType || kind is Personality || kind is MbCurMax || kind is NullCell
        || kind is In6Addr || kind is NdrRecord
}

impl Dyld {
    /// Link one non-lazy symbol pointer: to what the binaries or host dylibs
    /// provide, else to a block of its own for a few special symbols.
    fn link_non_lazy_pointer(&mut self, bins: &[MachO], dylibs: &[HostDylib], mem: &mut Mem, slot: u32, name: &str) -> (r: LinkOutcome)
        requires
            old(mem).wf(),
            old(mem).free_space() >= 64,
            slot + 4 <= old(mem).next_free_spec(),
            old(self).linked().len() + SVC_LINKED_FUNCTIONS_BASE < SVC_LAZY_LINK_RET_FLAG,
        ensures
            final(mem).wf(),
            final(mem)@.len() == old(mem)@.len(),
            final(self).return_routine() == old(self).return_routine(),
            final(self).exit_routine() == old(self).exit_routine(),
            final(self).linked().len() <= old(self).linked().len() + 1,
            old(mem).next_free_spec() <= final(mem).next_free_spec() <= old(mem).next_free_spec() + 64,
            provided(bins@, dylibs@, name@) ==> ordinary_outcome_ok(r, bins@, dylibs@, name@, final(self).cache()),
            !provided(bins@, dylibs@, name@) && is_non_lazy_block_symbol(special_symbol(name@)) ==> {
                &&& r == LinkOutcome::Linked(old(mem).next_free_spec() as u32)
                &&& special_block_ok(final(mem)@, old(mem).next_free_spec(), special_symbol(name@))
                &&& final(mem).next_free_spec() == old(mem).next_free_spec() + special_block_size(special_symbol(name@))
            },
            !provided(bins@, dylibs@, name@) && !is_non_lazy_block_symbol(special_symbol(name@)) ==> r is Unresolved,
            r matches LinkOutcome::Linked(t) ==> {
                &&& read_u32_spec(final(mem)@, slot as int) == t
                &&& same_outside_two(old(mem)@, final(mem)@, old(mem).next_free_spec(), final(mem).next_free_spec(), slot as int, slot + 4)
            },
            !(r is Linked) ==> final(mem)@ == old(mem)@ && final(mem).next_free_spec() == old(mem).next_free_spec(),
            r is Deferred ==> final(self).pending_constants() == old(self).pending_constants().push((slot, constant_target(dylibs@, name@)->0)),
            !(r is Deferred) ==> final(self).pending_constants() == old(self).pending_constants(),
    {
        proof {
            mem.lemma_wf();
        }
        let ghost nf0 = mem.next_free_spec();
        let ghost mut fresh = false;
        let r = self.link_ordinary(bins, dylibs, mem, slot, name);
        let r = match r {
            LinkOutcome::Unresolved => {
                let kind = classify_special_symbol(name);
                match kind {
                    SpecialSymbol::BlockClass | SpecialSymbol::ObjcEhType | SpecialSymbol::Personality
                    | SpecialSymbol::MbCurMax | SpecialSymbol::NullCell | SpecialSymbol::In6Addr(_)
                    | SpecialSymbol::NdrRecord => {
                        let a = make_special_block(mem, kind);
                        proof {
                            fresh = true;
                        }
                        LinkOutcome::Linked(a)
                    },
                    _ => return LinkOutcome::Unresolved,
                }
            },
            LinkOutcome::Linked(_) => r,
            _ => return r,
        };
        let target = match r {
            LinkOutcome::Linked(t) => t,
            _ => 0,
        };
        let ghost before = mem@;
        proof {
            mem.lemma_wf();
        }
        mem.write_u32(slot, target);
        proof {
            crate::mem::lemma_write_read_u32(before, slot as int, target);
            if fresh {
                let kind = special_symbol(name@);
                assert forall|i: int| target - special_block_offset(kind) <= i < target - special_block_offset(kind) + special_block_size(kind)
                    implies #[trigger] mem@[i] == before[i] by {
                    assert(nf0 <= i < before.len());
                }
                lemma_special_block_kept(before, mem@, target as int, kind);
            }
        }
        r
    }
}

} // verus!

verus! {

/// What a relocation of `name` is linked to whatever state the linker is in:
/// nil for the class of constant CFStrings, and for ordinary symbols the
/// address that a binary exports.
pub open spec fn fixed_reloc_target(bins: Seq<MachO>, name: Seq<char>) -> Option<u32> {
    let kind = special_symbol(name);
    if kind is CFConstantStringClass {
        Some(0)
    } else if is_ordinary_relocation(kind) {
        bins_export_addr(bins, name)
    } else {
        None
    }
}

/// No two relocated pointers overlap.
pub open spec fn relocs_disjoint(relocs: Seq<(u32, String)>) -> bool {
    forall|i: int, j: int|
        0 <= i < relocs.len() && 0 <= j < relocs.len() && i != j ==> #[trigger] relocs[i].0 + 4 <= #[trigger] relocs[j].0
            || relocs[j].0 + 4 <= relocs[i].0
}

/// The byte at `idx` is not part of any of the first `k` relocated pointers.
pub open spec fn outside_reloc_slots(relocs: Seq<(u32, String)>, k: int, idx: int) -> bool {
    forall|j: int| 0 <= j < k ==> !(relocs[j].0 <= idx < #[trigger] relocs[j].0 + 4)
}

/// The Objective-C class references among the first `k` relocations: the
/// pointer, the class name and whether it is the metaclass.
pub open spec fn class_refs(relocs: Seq<(u32, String)>, k: int) -> Seq<(u32, Seq<char>, bool)>
    decreases k,
{
    if k <= 0 {
        Seq::empty()
    } else {
        let kind = special_symbol(relocs[k - 1].1@);
        if kind is ObjcClass || kind is ObjcMetaclass {
            class_refs(relocs, k - 1).push((relocs[k - 1].0, class_symbol_name(relocs[k - 1].1@), kind is ObjcMetaclass))
        } else {
            class_refs(relocs, k - 1)
        }
    }
}

/// The host constants queued by the first `k` relocations.
pub open spec fn deferred_relocs(bins: Seq<MachO>, dylibs: Seq<HostDylib>, relocs: Seq<(u32, String)>, k: int) -> Seq<(u32, HostConstant)>
    decreases k,
{
    if k <= 0 {
        Seq::empty()
    } else {
        let name = relocs[k - 1].1@;
        if is_ordinary_relocation(special_symbol(name)) && bins_export_addr(bins, name) is None
            && proc_address_target(dylibs, name) is None && constant_target(dylibs, name) is Some {
            deferred_relocs(bins, dylibs, relocs, k - 1).push((relocs[k - 1].0, constant_target(dylibs, name)->0))
        } else {
            deferred_relocs(bins, dylibs, relocs, k - 1)
        }
    }
}

/// The view of a class reference that [class_refs] speaks of.
pub open spec fn class_ref_view(c: ClassRelocation) -> (u32, Seq<char>, bool) {
    (c.ptr_ptr, c.class_name@, c.is_metaclass)
}

/// A relocation of `name` leaves its pointer as it is: a class reference
/// (handed to the Objective-C runtime), or an ordinary symbol that no binary
/// exports and no host function provides (a host constant is written later,
/// by late linking; otherwise nothing resolves it).
pub open spec fn reloc_left_alone(bins: Seq<MachO>, dylibs: Seq<HostDylib>, name: Seq<char>) -> bool {
    let kind = special_symbol(name);
    ||| kind is ObjcClass
    ||| kind is ObjcMetaclass
    ||| (is_ordinary_relocation(kind) && bins_export_addr(bins, name) is None && proc_address_target(dylibs, name) is None)
}

/// The byte at `idx` is not part of any of the first `k` relocated pointers
/// that linking writes.
pub open spec fn outside_linked_relocs(bins: Seq<MachO>, dylibs: Seq<HostDylib>, relocs: Seq<(u32, String)>, k: int, idx: int) -> bool {
    forall|j: int| 0 <= j < k && !reloc_left_alone(bins, dylibs, relocs[j].1@)
        ==> !(relocs[j].0 <= idx < #[trigger] relocs[j].0 + 4)
}

impl Dyld {
    /// Link the external relocations of `bin`. Class references are handed
    /// back, in order, for the Objective-C runtime.
    fn link_external_relocations(&mut self, bin: &MachO, bins: &[MachO], dylibs: &[HostDylib], mem: &mut Mem) -> (classes: Vec<ClassRelocation>)
        requires
            old(mem).wf(),
            old(mem).free_space() >= 64 * bin.external_relocations@.len(),
            old(self).linked().len() + bin.external_relocations@.len() + SVC_LINKED_FUNCTIONS_BASE < SVC_LAZY_LINK_RET_FLAG,
            forall|k: int| 0 <= k < bin.external_relocations@.len()
                ==> #[trigger] bin.external_relocations@[k].0 + 4 <= old(mem).next_free_spec(),
        ensures
            final(mem).wf(),
            final(mem)@.len() == old(mem)@.len(),
            final(self).return_routine() == old(self).return_routine(),
            final(self).exit_routine() == old(self).exit_routine(),
            final(self).linked().len() <= old(self).linked().len() + bin.external_relocations@.len(),
            old(mem).next_free_spec() <= final(mem).next_free_spec(),
            final(mem).next_free_spec() <= old(mem).next_free_spec() + 64 * bin.external_relocations@.len(),
            classes@.map_values(|c: ClassRelocation| class_ref_view(c))
                == class_refs(bin.external_relocations@, bin.external_relocations@.len() as int),
            final(self).pending_constants() == old(self).pending_constants() + deferred_relocs(
                bins@,
                dylibs@,
                bin.external_relocations@,
                bin.external_relocations@.len() as int,
            ),
            forall|idx: int| 0 <= idx < old(mem).next_free_spec()
                && outside_reloc_slots(bin.external_relocations@, bin.external_relocations@.len() as int, idx)
                ==> #[trigger] final(mem)@[idx] == old(mem)@[idx],
            forall|idx: int| 0 <= idx < old(mem).next_free_spec()
                && outside_linked_relocs(bins@, dylibs@, bin.external_relocations@, bin.external_relocations@.len() as int, idx)
                ==> #[trigger] final(mem)@[idx] == old(mem)@[idx],
            relocs_disjoint(bin.external_relocations@) ==> forall|k: int| 0 <= k < bin.external_relocations@.len()
                && #[trigger] fixed_reloc_target(bins@, bin.external_relocations@[k].1@) is Some
                ==> read_u32_spec(final(mem)@, bin.external_relocations@[k].0 as int)
                == (fixed_reloc_target(bins@, bin.external_relocations@[k].1@)->0).wrapping_add(
                    read_u32_spec(old(mem)@, bin.external_relocations@[k].0 as int)),
            relocs_disjoint(bin.external_relocations@) ==> forall|k: int| 0 <= k < classes@.len()
                ==> (#[trigger] classes@[k]).addend == read_u32_spec(old(mem)@, classes@[k].ptr_ptr as int),
    {
        let relocs = &bin.external_relocations;
        let n = relocs.len();
        let ghost old_mem = mem@;
        let ghost nf0 = mem.next_free_spec();
        let ghost pend0 = self.pending_constants();
        let ghost linked0 = self.linked().len();
        let mut shared: Vec<(String, u32)> = Vec::new();
        let mut classes: Vec<ClassRelocation> = Vec::new();
        let mut k: usize = 0;
        proof {
            mem.lemma_wf();
        }
        while k < n
            invariant
                n == relocs@.len(),
                relocs == &bin.external_relocations,
                k <= n,
                mem.wf(),
                mem@.len() == old_mem.len(),
                mem@.len() <= u32::MAX,
                nf0 == old(mem).next_free_spec(),
                old_mem == old(mem)@,
                nf0 <= mem.next_free_spec() <= nf0 + 64 * k,
                mem.free_space() >= 64 * (n - k),
                self.linked().len() <= linked0 + k,
                linked0 == old(self).linked().len(),
                linked0 + n + SVC_LINKED_FUNCTIONS_BASE < SVC_LAZY_LINK_RET_FLAG,
                self.return_routine() == old(self).return_routine(),
                self.exit_routine() == old(self).exit_routine(),
                forall|j: int| 0 <= j < n ==> #[trigger] relocs@[j].0 + 4 <= nf0,
                classes@.map_values(|c: ClassRelocation| class_ref_view(c)) == class_refs(relocs@, k as int),
                self.pending_constants() == pend0 + deferred_relocs(bins@, dylibs@, relocs@, k as int),
                pend0 == old(self).pending_constants(),
                forall|idx: int| 0 <= idx < nf0 && outside_reloc_slots(relocs@, k as int, idx)
                    ==> #[trigger] mem@[idx] == old_mem[idx],
                forall|idx: int| 0 <= idx < nf0 && outside_linked_relocs(bins@, dylibs@, relocs@, k as int, idx)
                    ==> #[trigger] mem@[idx] == old_mem[idx],
                relocs_disjoint(relocs@) ==> forall|j: int| 0 <= j < k && #[trigger] fixed_reloc_target(bins@, relocs@[j].1@) is Some
                    ==> read_u32_spec(mem@, relocs@[j].0 as int)
                    == (fixed_reloc_target(bins@, relocs@[j].1@)->0).wrapping_add(read_u32_spec(old_mem, relocs@[j].0 as int)),
                relocs_disjoint(relocs@) ==> forall|j: int| 0 <= j < classes@.len()
                    ==> (#[trigger] classes@[j]).addend == read_u32_spec(old_mem, classes@[j].ptr_ptr as int),
            decreases n - k,
        {
            let ghost before = mem@;
            let ghost nf_before = mem.next_free_spec();
            let ghost classes_before = classes@;
            let ghost pend_before = self.pending_constants();
            let slot = relocs[k].0;
            proof {
                assert(relocs@[k as int].0 + 4 <= nf0);
            }
            let r = self.link_relocation(bins, dylibs, mem, &mut shared, slot, relocs[k].1.as_str());
            proof {
                let name = relocs@[k as int].1@;
                // Bytes below the first free address change only at this slot.
                assert forall|idx: int| 0 <= idx < nf0 && !(slot <= idx < slot + 4) implies #[trigger] mem@[idx] == before[idx] by {
                    if r is Linked {
                        assert(same_outside_two(before, mem@, nf_before, mem.next_free_spec(), slot as int, slot + 4));
                    }
                }
                assert forall|idx: int| 0 <= idx < nf0 && outside_reloc_slots(relocs@, k + 1, idx)
                    implies #[trigger] mem@[idx] == old_mem[idx] by {
                    assert(!(relocs@[k as int].0 <= idx < relocs@[k as int].0 + 4));
                    assert(outside_reloc_slots(relocs@, k as int, idx));
                    assert(mem@[idx] == before[idx]);
                }
                if reloc_left_alone(bins@, dylibs@, name) {
                    assert(!(r is Linked));
                    assert(mem@ == before);
                }
                assert forall|idx: int| 0 <= idx < nf0 && outside_linked_relocs(bins@, dylibs@, relocs@, k + 1, idx)
                    implies #[trigger] mem@[idx] == old_mem[idx] by {
                    assert(outside_linked_relocs(bins@, dylibs@, relocs@, k as int, idx));
                    if !reloc_left_alone(bins@, dylibs@, name) {
                        assert(!(relocs@[k as int].0 <= idx < relocs@[k as int].0 + 4));
                    }
                    assert(mem@[idx] == before[idx]);
                }
                if relocs_disjoint(relocs@) {
                    // The slot still holds its original addend.
                    assert forall|t: int| 0 <= t < 4 implies #[trigger] before[slot + t] == old_mem[slot + t] by {
                        assert forall|j: int| 0 <= j < k implies !(relocs@[j].0 <= slot + t < #[trigger] relocs@[j].0 + 4) by {
                            assert(relocs@[j].0 + 4 <= relocs@[k as int].0 || relocs@[k as int].0 + 4 <= relocs@[j].0);
                        }
                        assert(outside_reloc_slots(relocs@, k as int, slot + t));
                    }
                    assert(before[slot + 0] == old_mem[slot + 0]);
                    assert(before[slot + 1] == old_mem[slot + 1]);
                    assert(before[slot + 2] == old_mem[slot + 2]);
                    assert(before[slot + 3] == old_mem[slot + 3]);
                    crate::mem::lemma_read_u32_same(before, old_mem, slot as int);
                    assert forall|j: int| 0 <= j < k + 1 && #[trigger] fixed_reloc_target(bins@, relocs@[j].1@) is Some
                        implies read_u32_spec(mem@, relocs@[j].0 as int)
                        == (fixed_reloc_target(bins@, relocs@[j].1@)->0).wrapping_add(read_u32_spec(old_mem, relocs@[j].0 as int)) by {
                        if j < k {
                            let q = relocs@[j].0 as int;
                            assert(relocs@[j].0 + 4 <= relocs@[k as int].0 || relocs@[k as int].0 + 4 <= relocs@[j].0);
                            assert(q + 4 <= nf0);
                            assert(mem@[q] == before[q]);
                            assert(mem@[q + 1] == before[q + 1]);
                            assert(mem@[q + 2] == before[q + 2]);
                            assert(mem@[q + 3] == before[q + 3]);
                            crate::mem::lemma_read_u32_same(mem@, before, q);
                        }
                    }
                }
            }
            match r {
                LinkOutcome::Class(c) => {
                    classes.push(c);
                },
                _ => {},
            }
            proof {
                assert(classes@.map_values(|c: ClassRelocation| class_ref_view(c)) =~= class_refs(relocs@, k + 1)) by {
                    assert(classes_before.map_values(|c: ClassRelocation| class_ref_view(c)) == class_refs(relocs@, k as int));
                }
                assert(self.pending_constants() =~= pend0 + deferred_relocs(bins@, dylibs@, relocs@, k + 1)) by {
                    assert(pend_before == pend0 + deferred_relocs(bins@, dylibs@, relocs@, k as int));
                }
            }
            k = k + 1;
        }
        classes
    }
}

} // verus!

verus! {

/// The non-lazy symbol pointer section of `bin`, if it has one, can be
/// linked: it has indirect symbol information with an entry for each
/// pointer of four bytes, and lies below `nf`.
pub open spec fn non_lazy_section_ok(bin: MachO, nf: int) -> bool {
    match first_section(bin.sections@, SectionType::NonLazySymbolPointers) {
        None => true,
        Some(i) => {
            let s = bin.sections@[i];
            &&& s.dyld_indirect_symbol_info is Some
            &&& s.dyld_indirect_symbol_info->0.entry_size == 4
            &&& s.size % 4 == 0
            &&& s.dyld_indirect_symbol_info->0.indirect_undef_symbols@.len() >= s.size / 4
            &&& s.addr + s.size <= nf
        },
    }
}

/// The number of non-lazy symbol pointers of `bin`.
pub open spec fn non_lazy_count(bin: MachO) -> int {
    match first_section(bin.sections@, SectionType::NonLazySymbolPointers) {
        None => 0,
        Some(i) => (bin.sections@[i].size / 4) as int,
    }
}

/// The address range `[lo, hi)` of the non-lazy symbol pointers of `bin`.
pub open spec fn non_lazy_range(bin: MachO) -> (int, int) {
    match first_section(bin.sections@, SectionType::NonLazySymbolPointers) {
        None => (0, 0),
        Some(i) => (bin.sections@[i].addr as int, bin.sections@[i].addr + bin.sections@[i].size),
    }
}

/// The symbol of the `k`th non-lazy pointer of `bin`.
pub open spec fn non_lazy_symbol(bin: MachO, k: int) -> Option<String> {
    match first_section(bin.sections@, SectionType::NonLazySymbolPointers) {
        None => None,
        Some(i) => bin.sections@[i].dyld_indirect_symbol_info->0.indirect_undef_symbols@[k],
    }
}

/// The host constants queued by the first `k` of the non-lazy pointers
/// at `addr` with symbols `syms`.
pub open spec fn deferred_pointers(bins: Seq<MachO>, dylibs: Seq<HostDylib>, syms: Seq<Option<String>>, addr: int, k: int) -> Seq<(u32, HostConstant)>
    decreases k,
{
    if k <= 0 {
        Seq::empty()
    } else {
        let rest = deferred_pointers(bins, dylibs, syms, addr, k - 1);
        match syms[k - 1] {
            Some(s) => if bins_export_addr(bins, s@) is None && proc_address_target(dylibs, s@) is None
                && constant_target(dylibs, s@) is Some {
                rest.push(((addr + 4 * (k - 1)) as u32, constant_target(dylibs, s@)->0))
            } else {
                rest
            },
            None => rest,
        }
    }
}

/// The host constants queued for the non-lazy pointers of `bin`.
pub open spec fn deferred_non_lazy(bins: Seq<MachO>, dylibs: Seq<HostDylib>, bin: MachO) -> Seq<(u32, HostConstant)> {
    match first_section(bin.sections@, SectionType::NonLazySymbolPointers) {
        None => Seq::empty(),
        Some(i) => deferred_pointers(
            bins,
            dylibs,
            bin.sections@[i].dyld_indirect_symbol_info->0.indirect_undef_symbols@,
            bin.sections@[i].addr as int,
            (bin.sections@[i].size / 4) as int,
        ),
    }
}

/// Linking writes the non-lazy pointer with symbol `sym`: a binary exports
/// it, a host function provides it, or nothing provides it and it is one of
/// the special symbols that get a block of their own.
pub open spec fn pointer_written(bins: Seq<MachO>, dylibs: Seq<HostDylib>, sym: Option<String>) -> bool {
    match sym {
        None => false,
        Some(s) => bins_export_addr(bins, s@) is Some || proc_address_target(dylibs, s@) is Some
            || (!provided(bins, dylibs, s@) && is_non_lazy_block_symbol(special_symbol(s@))),
    }
}

/// The byte at `idx` is not part of any of the first `k` non-lazy pointers
/// at `addr` (with symbols `syms`) that linking writes.
pub open spec fn outside_written_pointers(bins: Seq<MachO>, dylibs: Seq<HostDylib>, syms: Seq<Option<String>>, addr: int, k: int, idx: int) -> bool {
    forall|j: int| 0 <= j < k && pointer_written(bins, dylibs, #[trigger] syms[j]) ==> !(addr + 4 * j <= idx < addr + 4 * j + 4)
}

/// Each of the first `k` non-lazy pointers at `addr` whose symbol nothing
/// provides and that gets a block of its own points to such a block, made
/// in `m` between `lo` and `hi`.
pub open spec fn pointer_blocks_ok(bins: Seq<MachO>, dylibs: Seq<HostDylib>, syms: Seq<Option<String>>, addr: int, k: int, m: Seq<u8>, lo: int, hi: int) -> bool {
    forall|j: int| 0 <= j < k ==> match #[trigger] syms[j] {
        Some(s) => !provided(bins, dylibs, s@) && is_non_lazy_block_symbol(special_symbol(s@)) ==> {
            let a = read_u32_spec(m, addr + 4 * j) as int;
            &&& lo <= a
            &&& a + special_block_size(special_symbol(s@)) <= hi
            &&& special_block_ok(m, a, special_symbol(s@))
        },
        None => true,
    }
}

/// The symbols of the non-lazy pointers of `bin`.
pub open spec fn non_lazy_syms(bin: MachO) -> Seq<Option<String>> {
    match first_section(bin.sections@, SectionType::NonLazySymbolPointers) {
        None => Seq::empty(),
        Some(i) => bin.sections@[i].dyld_indirect_symbol_info->0.indirect_undef_symbols@,
    }
}

impl Dyld {
    /// Link the non-lazy symbol pointers of `bin`.
    fn link_non_lazy_pointers(&mut self, bin: &MachO, bins: &[MachO], dylibs: &[HostDylib], mem: &mut Mem)
        requires
            old(mem).wf(),
            non_lazy_section_ok(*bin, old(mem).next_free_spec()),
            old(mem).free_space() >= 64 * non_lazy_count(*bin),
            old(self).linked().len() + non_lazy_count(*bin) + SVC_LINKED_FUNCTIONS_BASE < SVC_LAZY_LINK_RET_FLAG,
        ensures
            final(mem).wf(),
            final(mem)@.len() == old(mem)@.len(),
            final(self).return_routine() == old(self).return_routine(),
            final(self).exit_routine() == old(self).exit_routine(),
            final(self).linked().len() <= old(self).linked().len() + non_lazy_count(*bin),
            old(mem).next_free_spec() <= final(mem).next_free_spec(),
            final(mem).next_free_spec() <= old(mem).next_free_spec() + 64 * non_lazy_count(*bin),
            final(self).pending_constants() == old(self).pending_constants() + deferred_non_lazy(bins@, dylibs@, *bin),
            forall|idx: int| 0 <= idx < old(mem).next_free_spec()
                && !(non_lazy_range(*bin).0 <= idx < non_lazy_range(*bin).1) ==> #[trigger] final(mem)@[idx] == old(mem)@[idx],
            forall|idx: int| 0 <= idx < old(mem).next_free_spec()
                && outside_written_pointers(bins@, dylibs@, non_lazy_syms(*bin), non_lazy_range(*bin).0, non_lazy_count(*bin), idx)
                ==> #[trigger] final(mem)@[idx] == old(mem)@[idx],
            pointer_blocks_ok(bins@, dylibs@, non_lazy_syms(*bin), non_lazy_range(*bin).0, non_lazy_count(*bin), final(mem)@,
                old(mem).next_free_spec(), final(mem).next_free_spec()),
            forall|k: int| 0 <= k < non_lazy_count(*bin) ==> match #[trigger] non_lazy_symbol(*bin, k) {
                Some(s) => bins_export_addr(bins@, s@) matches Some(a)
                    ==> read_u32_spec(final(mem)@, non_lazy_range(*bin).0 + 4 * k) == a,
                None => true,
            },
    {
        let si = match bin.get_section(SectionType::NonLazySymbolPointers) {
            Some(si) => si,
            None => {
                return;
            },
        };
        let s = &bin.sections[si];
        let info = s.dyld_indirect_symbol_info.as_ref().unwrap();
        let count = s.size / 4;
        let addr = s.addr;
        let ghost syms = info.indirect_undef_symbols@;
        let ghost old_mem = mem@;
        let ghost nf0 = mem.next_free_spec();
        let ghost pend0 = self.pending_constants();
        let ghost linked0 = self.linked().len();
        proof {
            mem.lemma_wf();
        }
        let mut k: u32 = 0;
        while k < count
            invariant
                syms == info.indirect_undef_symbols@,
                syms == bin.sections@[si as int].dyld_indirect_symbol_info->0.indirect_undef_symbols@,
                first_section(bin.sections@, SectionType::NonLazySymbolPointers) == Some(si as int),
                addr == bin.sections@[si as int].addr,
                count == bin.sections@[si as int].size / 4,
                count <= syms.len(),
                addr + 4 * count <= nf0,
                k <= count,
                mem.wf(),
                mem@.len() == old_mem.len(),
                mem@.len() <= u32::MAX,
                nf0 == old(mem).next_free_spec(),
                old_mem == old(mem)@,
                nf0 <= mem.next_free_spec() <= nf0 + 64 * k,
                mem.free_space() >= 64 * (count - k),
                self.linked().len() <= linked0 + k,
                linked0 == old(self).linked().len(),
                linked0 + count + SVC_LINKED_FUNCTIONS_BASE < SVC_LAZY_LINK_RET_FLAG,
                self.return_routine() == old(self).return_routine(),
                self.exit_routine() == old(self).exit_routine(),
                self.pending_constants() == pend0 + deferred_pointers(bins@, dylibs@, syms, addr as int, k as int),
                pend0 == old(self).pending_constants(),
                forall|idx: int| 0 <= idx < nf0 && !(addr <= idx < addr + 4 * k) ==> #[trigger] mem@[idx] == old_mem[idx],
                forall|idx: int| 0 <= idx < nf0 && outside_written_pointers(bins@, dylibs@, syms, addr as int, k as int, idx)
                    ==> #[trigger] mem@[idx] == old_mem[idx],
                pointer_blocks_ok(bins@, dylibs@, syms, addr as int, k as int, mem@, nf0, mem.next_free_spec()),
                forall|j: int| 0 <= j < k ==> match #[trigger] syms[j] {
                    Some(s) => bins_export_addr(bins@, s@) matches Some(a) ==> read_u32_spec(mem@, addr + 4 * j) == a,
                    None => true,
                },
            decreases count - k,
        {
            let ghost before = mem@;
            let ghost nf_before = mem.next_free_spec();
            let ghost pend_before = self.pending_constants();
            let slot = addr + 4 * k;
            match &info.indirect_undef_symbols[k as usize] {
                Some(sym) => {
                    let r = self.link_non_lazy_pointer(bins, dylibs, mem, slot, sym.as_str());
                    proof {
                        assert forall|idx: int| 0 <= idx < nf0 && !(slot <= idx < slot + 4) implies #[trigger] mem@[idx] == before[idx] by {
                            if r is Linked {
                                assert(same_outside_two(before, mem@, nf_before, mem.next_free_spec(), slot as int, slot + 4));
                            }
                        }
                        assert forall|j: int| 0 <= j < k implies match #[trigger] syms[j] {
                            Some(s) => bins_export_addr(bins@, s@) matches Some(a) ==> read_u32_spec(mem@, addr + 4 * j) == a,
                            None => true,
                        } by {
                            let q = addr + 4 * j;
                            assert(mem@[q] == before[q]);
                            assert(mem@[q + 1] == before[q + 1]);
                            assert(mem@[q + 2] == before[q + 2]);
                            assert(mem@[q + 3] == before[q + 3]);
                            crate::mem::lemma_read_u32_same(mem@, before, q);
                        }
                        let name = sym@;
                        assert(syms[k as int] == Some(*sym));
                        if !pointer_written(bins@, dylibs@, syms[k as int]) {
                            assert(!(r is Linked));
                            assert(mem@ == before);
                        }
                        assert forall|idx: int| 0 <= idx < nf0 && outside_written_pointers(bins@, dylibs@, syms, addr as int, k + 1, idx)
                            implies #[trigger] mem@[idx] == old_mem[idx] by {
                            assert(outside_written_pointers(bins@, dylibs@, syms, addr as int, k as int, idx));
                            if pointer_written(bins@, dylibs@, syms[k as int]) {
                                assert(!(addr + 4 * k <= idx < addr + 4 * k + 4));
                            }
                            assert(mem@[idx] == before[idx]);
                        }
                        assert forall|j: int| 0 <= j < k + 1 implies match #[trigger] syms[j] {
                            Some(s) => !provided(bins@, dylibs@, s@) && is_non_lazy_block_symbol(special_symbol(s@)) ==> {
                                let a = read_u32_spec(mem@, addr + 4 * j) as int;
                                &&& nf0 <= a
                                &&& a + special_block_size(special_symbol(s@)) <= mem.next_free_spec()
                                &&& special_block_ok(mem@, a, special_symbol(s@))
                            },
                            None => true,
                        } by {
                            if j < k {
                                match syms[j] {
                                    Some(s) => {
                                        if !provided(bins@, dylibs@, s@) && is_non_lazy_block_symbol(special_symbol(s@)) {
                                            let q = addr + 4 * j;
                                            assert(mem@[q] == before[q]);
                                            assert(mem@[q + 1] == before[q + 1]);
                                            assert(mem@[q + 2] == before[q + 2]);
                                            assert(mem@[q + 3] == before[q + 3]);
                                            crate::mem::lemma_read_u32_same(mem@, before, q);
                                            let a = read_u32_spec(before, q) as int;
                                            let kind = special_symbol(s@);
                                            assert forall|i: int| a - special_block_offset(kind) <= i < a - special_block_offset(kind) + special_block_size(kind)
                                                implies #[trigger] mem@[i] == before[i] by {
                                                if r is Linked {
                                                    assert(same_outside_two(before, mem@, nf_before, mem.next_free_spec(), slot as int, slot + 4));
                                                }
                                            }
                                            lemma_special_block_kept(before, mem@, a, kind);
                                        }
                                    },
                                    None => {},
                                }
                            }
                        }
                    }
                },
                None => {
                    proof {
                        assert(!pointer_written(bins@, dylibs@, syms[k as int]));
                        assert forall|idx: int| 0 <= idx < nf0 && outside_written_pointers(bins@, dylibs@, syms, addr as int, k + 1, idx)
                            implies #[trigger] mem@[idx] == old_mem[idx] by {
                            assert(outside_written_pointers(bins@, dylibs@, syms, addr as int, k as int, idx));
                        }
                    }
                },
            }
            proof {
                assert(self.pending_constants() =~= pend0 + deferred_pointers(bins@, dylibs@, syms, addr as int, k + 1)) by {
                    assert(pend_before == pend0 + deferred_pointers(bins@, dylibs@, syms, addr as int, k as int));
                }
            }
            k = k + 1;
        }
    }
}

} // verus!

verus! {

impl Dyld {
    /// Link the external relocations and then the non-lazy symbol pointers
    /// of `bin`. Class references are handed back, in order, for the
    /// Objective-C runtime; host constants are queued for late linking.
    pub fn do_non_lazy_linking(&mut self, bin: &MachO, bins: &[MachO], dylibs: &[HostDylib], mem: &mut Mem) -> (classes: Vec<ClassRelocation>)
        requires
            old(mem).wf(),
            old(mem).free_space() >= 64 * (bin.external_relocations@.len() + non_lazy_count(*bin)),
            old(self).linked().len() + bin.external_relocations@.len() + non_lazy_count(*bin)
                + SVC_LINKED_FUNCTIONS_BASE < SVC_LAZY_LINK_RET_FLAG,
            forall|k: int| 0 <= k < bin.external_relocations@.len()
                ==> #[trigger] bin.external_relocations@[k].0 + 4 <= old(mem).next_free_spec(),
            non_lazy_section_ok(*bin, old(mem).next_free_spec()),
        ensures
            final(mem).wf(),
            final(mem)@.len() == old(mem)@.len(),
            final(self).return_routine() == old(self).return_routine(),
            final(self).exit_routine() == old(self).exit_routine(),
            final(self).linked().len() <= old(self).linked().len() + bin.external_relocations@.len() + non_lazy_count(*bin),
            old(mem).next_free_spec() <= final(mem).next_free_spec(),
            final(mem).next_free_spec() <= old(mem).next_free_spec() + 64 * (bin.external_relocations@.len() + non_lazy_count(*bin)),
            classes@.map_values(|c: ClassRelocation| class_ref_view(c))
                == class_refs(bin.external_relocations@, bin.external_relocations@.len() as int),
            final(self).pending_constants() == old(self).pending_constants() + deferred_relocs(
                bins@,
                dylibs@,
                bin.external_relocations@,
                bin.external_relocations@.len() as int,
            ) + deferred_non_lazy(bins@, dylibs@, *bin),
            forall|k: int| 0 <= k < non_lazy_count(*bin) ==> match #[trigger] non_lazy_symbol(*bin, k) {
                Some(s) => bins_export_addr(bins@, s@) matches Some(a)
                    ==> read_u32_spec(final(mem)@, non_lazy_range(*bin).0 + 4 * k) == a,
                None => true,
            },
            relocs_disjoint(bin.external_relocations@) && (forall|k: int| 0 <= k < bin.external_relocations@.len()
                ==> #[trigger] bin.external_relocations@[k].0 + 4 <= non_lazy_range(*bin).0
                || non_lazy_range(*bin).1 <= bin.external_relocations@[k].0) ==> forall|k: int|
                0 <= k < bin.external_relocations@.len() && #[trigger] fixed_reloc_target(bins@, bin.external_relocations@[k].1@) is Some
                ==> read_u32_spec(final(mem)@, bin.external_relocations@[k].0 as int)
                == (fixed_reloc_target(bins@, bin.external_relocations@[k].1@)->0).wrapping_add(
                    read_u32_spec(old(mem)@, bin.external_relocations@[k].0 as int)),
            relocs_disjoint(bin.external_relocations@) ==> forall|k: int| 0 <= k < classes@.len()
                ==> (#[trigger] classes@[k]).addend == read_u32_spec(old(mem)@, classes@[k].ptr_ptr as int),
            forall|idx: int| 0 <= idx < old(mem).next_free_spec()
                && outside_linked_relocs(bins@, dylibs@, bin.external_relocations@, bin.external_relocations@.len() as int, idx)
                && outside_written_pointers(bins@, dylibs@, non_lazy_syms(*bin), non_lazy_range(*bin).0, non_lazy_count(*bin), idx)
                ==> #[trigger] final(mem)@[idx] == old(mem)@[idx],
            pointer_blocks_ok(bins@, dylibs@, non_lazy_syms(*bin), non_lazy_range(*bin).0, non_lazy_count(*bin), final(mem)@,
                old(mem).next_free_spec(), final(mem).next_free_spec()),
            forall|idx: int| 0 <= idx < old(mem).next_free_spec()
                && outside_reloc_slots(bin.external_relocations@, bin.external_relocations@.len() as int, idx)
                && !(non_lazy_range(*bin).0 <= idx < non_lazy_range(*bin).1)
                ==> #[trigger] final(mem)@[idx] == old(mem)@[idx],
    {
        let ghost relocs = bin.external_relocations@;
        let classes = self.link_external_relocations(bin, bins, dylibs, mem);
        let ghost mid = mem@;
        self.link_non_lazy_pointers(bin, bins, dylibs, mem);
        proof {
            assert forall|idx: int| 0 <= idx < old(mem).next_free_spec()
                && outside_linked_relocs(bins@, dylibs@, relocs, relocs.len() as int, idx)
                && outside_written_pointers(bins@, dylibs@, non_lazy_syms(*bin), non_lazy_range(*bin).0, non_lazy_count(*bin), idx)
                implies #[trigger] mem@[idx] == old(mem)@[idx] by {
                assert(mid[idx] == old(mem)@[idx]);
                assert(mem@[idx] == mid[idx]);
            }
            assert forall|idx: int| 0 <= idx < old(mem).next_free_spec()
                && outside_reloc_slots(relocs, relocs.len() as int, idx)
                && !(non_lazy_range(*bin).0 <= idx < non_lazy_range(*bin).1)
                implies #[trigger] mem@[idx] == old(mem)@[idx] by {
                assert(mid[idx] == old(mem)@[idx]);
                assert(mem@[idx] == mid[idx]);
            }
            assert forall|k: int| 0 <= k < relocs.len() && relocs_disjoint(relocs) && (forall|k2: int| 0 <= k2 < relocs.len()
                ==> #[trigger] relocs[k2].0 + 4 <= non_lazy_range(*bin).0 || non_lazy_range(*bin).1 <= relocs[k2].0)
                && #[trigger] fixed_reloc_target(bins@, relocs[k].1@) is Some
                implies read_u32_spec(mem@, relocs[k].0 as int) == read_u32_spec(mid, relocs[k].0 as int) by {
                let q = relocs[k].0 as int;
                assert(relocs[k].0 + 4 <= non_lazy_range(*bin).0 || non_lazy_range(*bin).1 <= relocs[k].0);
                assert(q + 4 <= old(mem).next_free_spec());
                assert(mem@[q] == mid[q]);
                assert(mem@[q + 1] == mid[q + 1]);
                assert(mem@[q + 2] == mid[q + 2]);
                assert(mem@[q + 3] == mid[q + 3]);
                crate::mem::lemma_read_u32_same(mem@, mid, q);
            }
        }
        classes
    }
}

} // verus!

verus! {

/// The libstdc++ helpers that throw C++ exceptions; in the app's own dylibs
/// they are patched to return at once.
pub open spec fn throw_helper_names() -> Seq<Seq<char>> {
    seq![
        "__ZSt19__throw_logic_errorPKc"@,
        "__ZSt20__throw_length_errorPKc"@,
        "__ZSt20__throw_out_of_rangePKc"@,
        "__ZSt17__throw_bad_allocv"@,
        "__ZSt16__throw_bad_castv"@,
        "__ZSt19__throw_range_errorPKc"@,
        "__ZSt22__throw_overflow_errorPKc"@,
        "__ZSt23__throw_underflow_errorPKc"@,
        "__ZSt21__throw_runtime_errorPKc"@,
        "__ZSt24__throw_invalid_argumentPKc"@,
        "__ZSt23__throw_ios_failurePKc"@,
        "__ZSt18__throw_bad_typeidv"@,
        "__ZSt19__throw_bad_exceptionv"@,
        "__ZSt25__throw_bad_function_callv"@,
    ]
}

/// The `i`th throw helper.
fn throw_helper_name(i: usize) -> (r: &'static str)
    requires
        i < 14,
    ensures
        r@ == throw_helper_names()[i as int],
{
    match i {
        0 => "__ZSt19__throw_logic_errorPKc",
        1 => "__ZSt20__throw_length_errorPKc",
        2 => "__ZSt20__throw_out_of_rangePKc",
        3 => "__ZSt17__throw_bad_allocv",
        4 => "__ZSt16__throw_bad_castv",
        5 => "__ZSt19__throw_range_errorPKc",
        6 => "__ZSt22__throw_overflow_errorPKc",
        7 => "__ZSt23__throw_underflow_errorPKc",
        8 => "__ZSt21__throw_runtime_errorPKc",
        9 => "__ZSt24__throw_invalid_argumentPKc",
        10 => "__ZSt23__throw_ios_failurePKc",
        11 => "__ZSt18__throw_bad_typeidv",
        12 => "__ZSt19__throw_bad_exceptionv",
        _ => "__ZSt25__throw_bad_function_callv",
    }
}

/// The instruction that returns at once from a function at `entry` (bit 0
/// set for Thumb code): `bx lr; nop` in Thumb, `bx lr` in ARM.
pub open spec fn return_patch_word(entry: u32) -> u32 {
    if entry % 2 == 1 { 0x46c0_4770u32 } else { 0xe12f_ff1eu32 }
}

/// The patches for the first `n` throw helpers that `bin` exports: where to
/// write and what.
pub open spec fn helper_patches_of(bin: MachO, n: int) -> Seq<(u32, u32)>
    decreases n,
{
    if n <= 0 {
        Seq::empty()
    } else {
        let rest = helper_patches_of(bin, n - 1);
        match first_export_addr(bin.exported_symbols@, throw_helper_names()[n - 1]) {
            Some(e) => rest.push(((e - e % 2) as u32, return_patch_word(e))),
            None => rest,
        }
    }
}

/// The patches for the throw helpers of the dylibs `bins[1..b]`, dylib by
/// dylib.
pub open spec fn helper_patches(bins: Seq<MachO>, b: int) -> Seq<(u32, u32)>
    decreases b,
{
    if b <= 1 {
        Seq::empty()
    } else {
        helper_patches(bins, b - 1) + helper_patches_of(bins[b - 1], 14)
    }
}

/// No patch after the `k`th overlaps it.
pub open spec fn patch_kept(ps: Seq<(u32, u32)>, k: int) -> bool {
    forall|j: int| k < j < ps.len() ==> #[trigger] ps[j].0 + 4 <= ps[k].0 || ps[k].0 + 4 <= ps[j].0
}

/// The patches for the throw helpers of the app's dylibs.
fn collect_helper_patches(bins: &[MachO]) -> (ps: Vec<(u32, u32)>)
    ensures
        ps@ == helper_patches(bins@, bins@.len() as int),
{
    let mut ps: Vec<(u32, u32)> = Vec::new();
    let mut b: usize = 1;
    while b < bins.len()
        invariant
            1 <= b,
            b <= bins@.len() || bins@.len() == 0,
            bins@.len() > 0 ==> ps@ == helper_patches(bins@, b as int),
            bins@.len() == 0 ==> ps@.len() == 0,
        decreases bins@.len() - b,
    {
        let mut n: usize = 0;
        let ghost start = ps@;
        while n < 14
            invariant
                n <= 14,
                b < bins@.len(),
                ps@ == start + helper_patches_of(bins@[b as int], n as int),
            decreases 14 - n,
        {
            match bins[b].exported_symbol(throw_helper_name(n)) {
                Some(e) => {
                    ps.push((e - e % 2, if e % 2 == 1 { 0x46c0_4770u32 } else { 0xe12f_ff1eu32 }));
                },
                None => {},
            }
            proof {
                assert(ps@ =~= start + helper_patches_of(bins@[b as int], n + 1));
            }
            n = n + 1;
        }
        b = b + 1;
    }
    proof {
        if bins@.len() == 0 {
            assert(ps@ =~= helper_patches(bins@, 0));
        }
    }
    ps
}

/// Apply the patches one after another.
fn apply_patches(mem: &mut Mem, ps: &Vec<(u32, u32)>)
    requires
        old(mem).wf(),
        forall|k: int| 0 <= k < ps@.len() ==> #[trigger] ps@[k].0 + 4 <= old(mem)@.len(),
    ensures
        final(mem).wf(),
        final(mem)@.len() == old(mem)@.len(),
        final(mem).next_free_spec() == old(mem).next_free_spec(),
        forall|k: int| 0 <= k < ps@.len() && #[trigger] patch_kept(ps@, k) ==> read_u32_spec(final(mem)@, ps@[k].0 as int) == ps@[k].1,
        forall|idx: int| 0 <= idx < old(mem)@.len() && (forall|k: int| 0 <= k < ps@.len() ==> !(ps@[k].0 <= idx < #[trigger] ps@[k].0 + 4))
            ==> #[trigger] final(mem)@[idx] == old(mem)@[idx],
{
    let mut k: usize = 0;
    while k < ps.len()
        invariant
            k <= ps@.len(),
            mem.wf(),
            mem@.len() == old(mem)@.len(),
            mem.next_free_spec() == old(mem).next_free_spec(),
            forall|j: int| 0 <= j < ps@.len() ==> #[trigger] ps@[j].0 + 4 <= old(mem)@.len(),
            forall|j: int| 0 <= j < k && (forall|i: int| j < i < k ==> #[trigger] ps@[i].0 + 4 <= ps@[j].0 || ps@[j].0 + 4 <= ps@[i].0)
                ==> read_u32_spec(mem@, #[trigger] ps@[j].0 as int) == ps@[j].1,
            forall|idx: int| 0 <= idx < old(mem)@.len() && (forall|j: int| 0 <= j < k ==> !(ps@[j].0 <= idx < #[trigger] ps@[j].0 + 4))
                ==> #[trigger] mem@[idx] == old(mem)@[idx],
        decreases ps@.len() - k,
    {
        let ghost before = mem@;
        let (a, w) = ps[k];
        assert(ps@[k as int].0 + 4 <= old(mem)@.len());
        mem.write_u32(a, w);
        proof {
            crate::mem::lemma_write_read_u32(before, a as int, w);
            assert forall|j: int| 0 <= j < k + 1 && (forall|i: int| j < i < k + 1 ==> #[trigger] ps@[i].0 + 4 <= ps@[j].0 || ps@[j].0 + 4 <= ps@[i].0)
                implies read_u32_spec(mem@, #[trigger] ps@[j].0 as int) == ps@[j].1 by {
                if j < k {
                    assert(ps@[k as int].0 + 4 <= ps@[j].0 || ps@[j].0 + 4 <= ps@[k as int].0);
                    crate::mem::lemma_write_u32_other(before, a as int, w, ps@[j].0 as int);
                }
            }
        }
        k = k + 1;
    }
    proof {
        assert forall|k: int| 0 <= k < ps@.len() && #[trigger] patch_kept(ps@, k) implies read_u32_spec(mem@, ps@[k].0 as int) == ps@[k].1 by {
            assert(forall|i: int| k < i < ps@.len() ==> #[trigger] ps@[i].0 + 4 <= ps@[k].0 || ps@[k].0 + 4 <= ps@[i].0);
        }
    }
}

/// Make the throw helpers of the app's dylibs (all binaries but the first)
/// return at once instead of throwing.
pub fn patch_throw_helpers(bins: &[MachO], mem: &mut Mem)
    requires
        old(mem).wf(),
        forall|k: int| 0 <= k < helper_patches(bins@, bins@.len() as int).len()
            ==> #[trigger] helper_patches(bins@, bins@.len() as int)[k].0 + 4 <= old(mem)@.len(),
    ensures
        final(mem).wf(),
        final(mem)@.len() == old(mem)@.len(),
        final(mem).next_free_spec() == old(mem).next_free_spec(),
        forall|k: int| 0 <= k < helper_patches(bins@, bins@.len() as int).len()
            && #[trigger] patch_kept(helper_patches(bins@, bins@.len() as int), k)
            ==> read_u32_spec(final(mem)@, helper_patches(bins@, bins@.len() as int)[k].0 as int)
            == helper_patches(bins@, bins@.len() as int)[k].1,
        forall|idx: int| 0 <= idx < old(mem)@.len() && (forall|k: int| 0 <= k < helper_patches(bins@, bins@.len() as int).len()
            ==> !(helper_patches(bins@, bins@.len() as int)[k].0 <= idx < #[trigger] helper_patches(bins@, bins@.len() as int)[k].0 + 4))
            ==> #[trigger] final(mem)@[idx] == old(mem)@[idx],
{
    let ps = collect_helper_patches(bins);
    apply_patches(mem, &ps);
}

} // verus!

verus! {

/// The number of pointers that linking the first `k` binaries may link.
pub open spec fn bins_link_count(bins: Seq<MachO>, k: int) -> int
    decreases k,
{
    if k <= 0 {
        0
    } else {
        bins_link_count(bins, k - 1) + bins[k - 1].external_relocations@.len() + non_lazy_count(bins[k - 1])
    }
}

/// The class references of the first `k` binaries, binary by binary.
pub open spec fn all_class_refs(bins: Seq<MachO>, k: int) -> Seq<(u32, Seq<char>, bool)>
    decreases k,
{
    if k <= 0 {
        Seq::empty()
    } else {
        all_class_refs(bins, k - 1) + class_refs(bins[k - 1].external_relocations@, bins[k - 1].external_relocations@.len() as int)
    }
}

/// The host constants queued while linking the first `k` binaries.
pub open spec fn all_deferred(bins: Seq<MachO>, dylibs: Seq<HostDylib>, k: int) -> Seq<(u32, HostConstant)>
    decreases k,
{
    if k <= 0 {
        Seq::empty()
    } else {
        all_deferred(bins, dylibs, k - 1) + deferred_relocs(
            bins,
            dylibs,
            bins[k - 1].external_relocations@,
            bins[k - 1].external_relocations@.len() as int,
        ) + deferred_non_lazy(bins, dylibs, bins[k - 1])
    }
}

/// Each binary can be linked into memory whose first free address is `nf`
/// and whose length is `len`: its stubs and pointers lie in memory below
/// `nf`.
pub open spec fn bins_linkable(bins: Seq<MachO>, nf: int, len: int) -> bool {
    forall|b: int| 0 <= b < bins.len() ==> {
        &&& lazy_stubs_ok(#[trigger] bins[b], len)
        &&& non_lazy_section_ok(bins[b], nf)
        &&& forall|k: int| 0 <= k < bins[b].external_relocations@.len()
            ==> #[trigger] bins[b].external_relocations@[k].0 + 4 <= nf
    }
}

/// The byte at `idx` lies outside everything that linking the first `k`
/// binaries may write below the first free address: their lazy stubs,
/// their relocated pointers and their non-lazy symbol pointers.
pub open spec fn outside_linking(bins: Seq<MachO>, k: int, idx: int) -> bool {
    forall|c: int| 0 <= c < k ==> {
        &&& !in_stub_region(#[trigger] bins[c], idx)
        &&& outside_reloc_slots(bins[c].external_relocations@, bins[c].external_relocations@.len() as int, idx)
        &&& !(non_lazy_range(bins[c]).0 <= idx < non_lazy_range(bins[c]).1)
    }
}

/// The byte at `idx` is not patched by any of `ps`.
pub open spec fn outside_patches(ps: Seq<(u32, u32)>, idx: int) -> bool {
    forall|k: int| 0 <= k < ps.len() ==> !(ps[k].0 <= idx < #[trigger] ps[k].0 + 4)
}

/// The lazy stubs of the binaries lie below `nf`, apart from each other and
/// from every pointer that linking writes and every throw-helper patch.
pub open spec fn stubs_apart(bins: Seq<MachO>, nf: int) -> bool {
    forall|b: int, idx: int| 0 <= b < bins.len() && #[trigger] in_stub_region(bins[b], idx) ==> {
        &&& 0 <= idx < nf
        &&& forall|c: int| 0 <= c < bins.len() && c != b ==> !in_stub_region(#[trigger] bins[c], idx)
        &&& forall|c: int| 0 <= c < bins.len() ==> outside_reloc_slots((#[trigger] bins[c]).external_relocations@,
            bins[c].external_relocations@.len() as int, idx)
            && !(non_lazy_range(bins[c]).0 <= idx < non_lazy_range(bins[c]).1)
        &&& outside_patches(helper_patches(bins, bins.len() as int), idx)
    }
}

/// The number of links to make grows with the number of binaries counted.
pub proof fn lemma_bins_link_count_mono(bins: Seq<MachO>, a: int, b: int)
    requires
        0 <= a <= b,
    ensures
        bins_link_count(bins, a) <= bins_link_count(bins, b),
    decreases b - a,
{
    if a < b {
        lemma_bins_link_count_mono(bins, a, b - 1);
    }
}

impl Dyld {
    /// Link the app: write the routines that return to the host and end a
    /// thread, set up lazy linking and link the non-lazy pointers of each
    /// binary, then make the throw helpers of the app's dylibs return.
    /// Class references are handed back, in order, for the Objective-C
    /// runtime.
    pub fn do_initial_linking(&mut self, bins: &[MachO], dylibs: &[HostDylib], mem: &mut Mem) -> (classes: Vec<ClassRelocation>)
        requires
            old(self).return_routine() is None,
            old(self).exit_routine() is None,
            old(mem).wf(),
            old(mem).free_space() >= 32 + 64 * bins_link_count(bins@, bins@.len() as int),
            old(self).linked().len() + bins_link_count(bins@, bins@.len() as int) + SVC_LINKED_FUNCTIONS_BASE
                < SVC_LAZY_LINK_RET_FLAG,
            bins_linkable(bins@, old(mem).next_free_spec(), old(mem)@.len() as int),
            forall|k: int| 0 <= k < helper_patches(bins@, bins@.len() as int).len()
                ==> #[trigger] helper_patches(bins@, bins@.len() as int)[k].0 + 4 <= old(mem)@.len(),
        ensures
            final(mem).wf(),
            final(mem)@.len() == old(mem)@.len(),
            final(self).return_routine() == Some(GuestFunction { addr_with_thumb_bit: old(mem).next_free_spec() as u32 }),
            final(self).exit_routine() == Some(GuestFunction { addr_with_thumb_bit: (old(mem).next_free_spec() + 16) as u32 }),
            classes@.map_values(|c: ClassRelocation| class_ref_view(c)) == all_class_refs(bins@, bins@.len() as int),
            final(self).pending_constants() == old(self).pending_constants() + all_deferred(bins@, dylibs@, bins@.len() as int),
            forall|k: int| 0 <= k < helper_patches(bins@, bins@.len() as int).len()
                && #[trigger] patch_kept(helper_patches(bins@, bins@.len() as int), k)
                ==> read_u32_spec(final(mem)@, helper_patches(bins@, bins@.len() as int)[k].0 as int)
                == helper_patches(bins@, bins@.len() as int)[k].1,
            forall|idx: int| 0 <= idx < old(mem).next_free_spec() && outside_linking(bins@, bins@.len() as int, idx)
                && outside_patches(helper_patches(bins@, bins@.len() as int), idx) ==> #[trigger] final(mem)@[idx] == old(mem)@[idx],
            stubs_apart(bins@, old(mem).next_free_spec() as int) ==> forall|b: int| 0 <= b < bins@.len()
                ==> stubs_set_up(#[trigger] bins@[b], old(mem)@, final(mem)@),
    {
        let ghost nf0 = mem.next_free_spec();
        let ghost m_old = mem@;
        let ghost len0 = mem@.len();
        let ghost linked0 = self.linked().len();
        let ghost pend0 = self.pending_constants();
        proof {
            lemma_bins_link_count_mono(bins@, 0, bins@.len() as int);
        }
        self.do_initial_linking_with_no_bins(mem);
        let ghost ret = self.return_routine();
        let ghost ext = self.exit_routine();
        let mut classes: Vec<ClassRelocation> = Vec::new();
        let mut b: usize = 0;
        while b < bins.len()
            invariant
                b <= bins@.len(),
                mem.wf(),
                mem@.len() == len0,
                len0 == old(mem)@.len(),
                nf0 == old(mem).next_free_spec(),
                nf0 + 32 <= mem.next_free_spec(),
                mem.next_free_spec() <= nf0 + 32 + 64 * bins_link_count(bins@, b as int),
                old(mem).free_space() >= 32 + 64 * bins_link_count(bins@, bins@.len() as int),
                self.linked().len() <= linked0 + bins_link_count(bins@, b as int),
                linked0 == old(self).linked().len(),
                linked0 + bins_link_count(bins@, bins@.len() as int) + SVC_LINKED_FUNCTIONS_BASE < SVC_LAZY_LINK_RET_FLAG,
                bins_linkable(bins@, nf0, len0 as int),
                self.return_routine() == ret,
                self.exit_routine() == ext,
                ret == Some(GuestFunction { addr_with_thumb_bit: nf0 as u32 }),
                ext == Some(GuestFunction { addr_with_thumb_bit: (nf0 + 16) as u32 }),
                classes@.map_values(|c: ClassRelocation| class_ref_view(c)) == all_class_refs(bins@, b as int),
                self.pending_constants() == pend0 + all_deferred(bins@, dylibs@, b as int),
                pend0 == old(self).pending_constants(),
                m_old == old(mem)@,
                forall|idx: int| 0 <= idx < nf0 && outside_linking(bins@, b as int, idx) ==> #[trigger] mem@[idx] == m_old[idx],
                stubs_apart(bins@, nf0 as int) ==> forall|c: int| 0 <= c < b ==> stubs_set_up(#[trigger] bins@[c], m_old, mem@),
            decreases bins@.len() - b,
        {
            let bin = &bins[b];
            proof {
                lemma_bins_link_count_mono(bins@, b + 1, bins@.len() as int);
                assert(bins_link_count(bins@, b + 1) == bins_link_count(bins@, b as int)
                    + bins@[b as int].external_relocations@.len() + non_lazy_count(bins@[b as int]));
                assert(lazy_stubs_ok(bins@[b as int], len0 as int));
                assert(non_lazy_section_ok(bins@[b as int], nf0));
                assert(non_lazy_section_ok(bins@[b as int], mem.next_free_spec()));
            }
            let ghost m_before = mem@;
            self.setup_lazy_linking(bin, mem);
            let ghost m1 = mem@;
            proof {
                lemma_lazy_linking_set_up(bins@[b as int], m_before);
            }
            let ghost pend_before = self.pending_constants();
            let ghost classes_before = classes@;
            let mut bin_classes = self.do_non_lazy_linking(bin, bins, dylibs, mem);
            proof {
                let bb = bins@[b as int];
                assert forall|idx: int| 0 <= idx < nf0 && outside_linking(bins@, b + 1, idx) implies #[trigger] mem@[idx] == m_old[idx] by {
                    assert(outside_linking(bins@, b as int, idx)) by {
                        assert forall|c: int| 0 <= c < b implies {
                            &&& !in_stub_region(#[trigger] bins@[c], idx)
                            &&& outside_reloc_slots(bins@[c].external_relocations@, bins@[c].external_relocations@.len() as int, idx)
                            &&& !(non_lazy_range(bins@[c]).0 <= idx < non_lazy_range(bins@[c]).1)
                        } by {
                            assert(0 <= c < b + 1);
                        }
                    }
                    assert(0 <= b < b + 1);
                    assert(!in_stub_region(bb, idx));
                    assert(m1[idx] == m_before[idx]);
                    assert(mem@[idx] == m1[idx]);
                }
                if stubs_apart(bins@, nf0 as int) {
                    assert forall|c: int| 0 <= c < b + 1 implies stubs_set_up(#[trigger] bins@[c], m_old, mem@) by {
                        let bc = bins@[c];
                        if c < b {
                            assert forall|idx: int| #[trigger] in_stub_region(bc, idx) implies mem@[idx] == m_before[idx] by {
                                assert(!in_stub_region(bins@[b as int], idx));
                                assert(outside_reloc_slots(bb.external_relocations@, bb.external_relocations@.len() as int, idx));
                            }
                            lemma_stubs_set_up_kept(bc, m_old, m_before, mem@);
                        } else {
                            assert forall|idx: int| #[trigger] in_stub_region(bb, idx) implies m_old[idx] == m_before[idx] by {
                                assert(outside_linking(bins@, b as int, idx)) by {
                                    assert forall|c2: int| 0 <= c2 < b implies {
                                        &&& !in_stub_region(#[trigger] bins@[c2], idx)
                                        &&& outside_reloc_slots(bins@[c2].external_relocations@, bins@[c2].external_relocations@.len() as int, idx)
                                        &&& !(non_lazy_range(bins@[c2]).0 <= idx < non_lazy_range(bins@[c2]).1)
                                    } by {
                                        assert(c2 != b);
                                    }
                                }
                            }
                            lemma_stubs_set_up_from(bb, m_old, m_before, m1);
                            assert forall|idx: int| #[trigger] in_stub_region(bb, idx) implies mem@[idx] == m1[idx] by {
                                assert(outside_reloc_slots(bb.external_relocations@, bb.external_relocations@.len() as int, idx));
                            }
                            lemma_stubs_set_up_kept(bb, m_old, m1, mem@);
                        }
                    }
                }
            }
            let ghost added = bin_classes@;
            classes.append(&mut bin_classes);
            proof {
                assert(classes@.map_values(|c: ClassRelocation| class_ref_view(c)) =~= classes_before.map_values(
                    |c: ClassRelocation| class_ref_view(c),
                ) + added.map_values(|c: ClassRelocation| class_ref_view(c)));
                assert(self.pending_constants() =~= pend0 + all_deferred(bins@, dylibs@, b + 1));
            }
            b = b + 1;
        }
        let ghost m_linked = mem@;
        patch_throw_helpers(bins, mem);
        proof {
            let hp = helper_patches(bins@, bins@.len() as int);
            assert forall|idx: int| 0 <= idx < nf0 && outside_linking(bins@, bins@.len() as int, idx) && outside_patches(hp, idx)
                implies #[trigger] mem@[idx] == m_old[idx] by {
                assert(m_linked[idx] == m_old[idx]);
                assert(mem@[idx] == m_linked[idx]);
            }
            if stubs_apart(bins@, nf0 as int) {
                assert forall|c: int| 0 <= c < bins@.len() implies stubs_set_up(#[trigger] bins@[c], m_old, mem@) by {
                    let bc = bins@[c];
                    assert(stubs_set_up(bc, m_old, m_linked));
                    assert forall|idx: int| #[trigger] in_stub_region(bc, idx) implies mem@[idx] == m_linked[idx] by {
                        assert(outside_patches(hp, idx));
                    }
                    lemma_stubs_set_up_kept(bc, m_old, m_linked, mem@);
                }
            }
        }
        classes
    }
}

} // verus!

verus! {

/// The index of the first of the binaries from `i` on that exports `symbol`.
pub open spec fn first_exporting_bin(bins: Seq<MachO>, symbol: Seq<char>, i: int) -> Option<int>
    decreases bins.len() - i,
{
    if i < 0 || i >= bins.len() {
        None
    } else if first_export_addr(bins[i].exported_symbols@, symbol) is Some {
        Some(i)
    } else {
        first_exporting_bin(bins, symbol, i + 1)
    }
}

/// What a lazily linked symbol is linked to.
#[derive(Clone, Copy, PartialEq, Eq, Structural, Debug)]
pub enum LazyLinkTarget {
    /// A host function.
    Host,
    /// An export of the binary at this index.
    Dylib(usize),
    /// Nothing.
    Unlinked,
}

/// What the lazily linked `symbol` is linked to: a host function if a host
/// dylib exports one, else the first binary that exports it, else nothing.
pub fn lazy_link_target(bins: &[MachO], dylibs: &[HostDylib], symbol: &str) -> (r: LazyLinkTarget)
    ensures
        r == if !exported_nowhere(dylibs@, ExportKind::Functions, symbol@) {
            LazyLinkTarget::Host
        } else {
            match first_exporting_bin(bins@, symbol@, 0) {
                Some(i) => LazyLinkTarget::Dylib(i as usize),
                None => LazyLinkTarget::Unlinked,
            }
        },
{
    match search_host_dylibs(dylibs, ExportKind::Functions, symbol) {
        Some(_) => {
            proof {
                if exported_nowhere(dylibs@, ExportKind::Functions, symbol@) {
                    let (i, j) = choose|i: int, j: int| is_first_export(dylibs@, ExportKind::Functions, symbol@, i, j);
                }
            }
            return LazyLinkTarget::Host;
        },
        None => {},
    }
    let mut i: usize = 0;
    while i < bins.len()
        invariant
            i <= bins@.len(),
            exported_nowhere(dylibs@, ExportKind::Functions, symbol@),
            first_exporting_bin(bins@, symbol@, 0) == first_exporting_bin(bins@, symbol@, i as int),
        decreases bins@.len() - i,
    {
        if bins[i].exported_symbol(symbol).is_some() {
            return LazyLinkTarget::Dylib(i);
        }
        i = i + 1;
    }
    LazyLinkTarget::Unlinked
}

} // verus!

verus! {

/// Finish linking an `NSString` constant handed back by
/// [Dyld::do_late_linking]: the string object made for it (`string_ptr`) is
/// stored in a fresh word, and the waiting pointer is set to that word.
pub fn link_late_string(mem: &mut Mem, c: &LateConstant, string_ptr: u32) -> (a: u32)
    requires
        old(mem).wf(),
        old(mem).free_space() >= 16,
        c.symbol_ptr_ptr + 4 <= old(mem).next_free_spec(),
    ensures
        final(mem).wf(),
        a == old(mem).next_free_spec(),
        final(mem).next_free_spec() == old(mem).next_free_spec() + 16,
        read_u32_spec(final(mem)@, a as int) == string_ptr,
        read_u32_spec(final(mem)@, c.symbol_ptr_ptr as int) == a,
        same_outside_two(old(mem)@, final(mem)@, a as int, a + 16, c.symbol_ptr_ptr as int, c.symbol_ptr_ptr + 4),
{
    proof {
        mem.lemma_wf();
    }
    let a = make_word(mem, string_ptr);
    let ghost m1 = mem@;
    mem.write_u32(c.symbol_ptr_ptr, a);
    proof {
        crate::mem::lemma_write_read_u32(m1, c.symbol_ptr_ptr as int, a);
        crate::mem::lemma_write_u32_other(m1, c.symbol_ptr_ptr as int, a, a as int);
    }
    a
}

} // verus!
