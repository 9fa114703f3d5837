//! OpenAL: the guest's devices and contexts, by the guest addresses that
//! stand for them, and the answers that need no audio library.
//!
//! The audio library itself runs outside; the library keeps which guest
//! handles are open, which context is current, the strings handed to the
//! guest, and decides what reaches the audio library (attribute lists,
//! counts, the sources a call applies to).
use vstd::prelude::*;
use crate::assoc::{assoc, assoc_find_i32, lemma_assoc_push};
use crate::dyld::{CodeCache, Dyld, HostDylib, SVC_LAZY_LINK_RET_FLAG, SVC_LINKED_FUNCTIONS_BASE, proc_address_target};
use crate::libc::guest_str;
use crate::mem::{Mem, read_u32_spec};
use crate::text::{seq_starts_with, str_eq, str_starts_with, utf8_encode};

verus! {

pub const ALC_FREQUENCY: i32 = 0x1007;
pub const ALC_REFRESH: i32 = 0x1008;
pub const ALC_SYNC: i32 = 0x1009;
pub const ALC_MONO_SOURCES: i32 = 0x1010;
pub const ALC_STEREO_SOURCES: i32 = 0x1011;
pub const ALC_INVALID_DEVICE: i32 = 0xA001;

pub const AL_VENDOR: i32 = 0xB001;
pub const AL_VERSION: i32 = 0xB002;
pub const AL_RENDERER: i32 = 0xB003;
pub const AL_EXTENSIONS: i32 = 0xB004;

/// The context attributes passed on to the audio library; others are left
/// out.
pub open spec fn allowed_context_attribute(a: i32) -> bool {
    a == ALC_FREQUENCY || a == ALC_REFRESH || a == ALC_SYNC || a == ALC_MONO_SOURCES || a == ALC_STEREO_SOURCES
}

/// The allowed (attribute, value) pairs of the zero-terminated list at `p`,
/// flattened, in order.
pub open spec fn filtered_attributes(m: Seq<u8>, p: int) -> Seq<i32>
    decreases m.len() - p,
{
    if p < 0 || p + 8 > m.len() || read_u32_spec(m, p) == 0 {
        Seq::empty()
    } else {
        let a = read_u32_spec(m, p) as i32;
        let v = read_u32_spec(m, p + 4) as i32;
        let rest = filtered_attributes(m, p + 8);
        if allowed_context_attribute(a) { seq![a, v] + rest } else { rest }
    }
}

/// The string `alGetString` gives for `param`: the values of an iPhone 3GS
/// on iOS 4.0.1 and the names of the error codes; empty for anything else.
pub open spec fn al_string(param: i32) -> Seq<char> {
    if param == AL_VENDOR {
        "Apple Inc."@
    } else if param == AL_VERSION {
        "1.1"@
    } else if param == AL_RENDERER {
        "Software"@
    } else if param == AL_EXTENSIONS {
        "AL_EXT_OFFSET AL_EXT_LINEAR_DISTANCE AL_EXT_EXPONENT_DISTANCE AL_EXT_STATIC_BUFFER"@
    } else if param == 0 {
        "No Error"@
    } else if param == 0xA001 {
        "Invalid Name"@
    } else if param == 0xA002 {
        "Invalid Enum"@
    } else if param == 0xA003 {
        "Invalid Value"@
    } else if param == 0xA004 {
        "Invalid Operation"@
    } else if param == 0xA005 {
        "Out of Memory"@
    } else {
        ""@
    }
}

fn al_string_text(param: i32) -> (r: &'static str)
    ensures
        r@ == al_string(param),
{
    if param == AL_VENDOR {
        "Apple Inc."
    } else if param == AL_VERSION {
        "1.1"
    } else if param == AL_RENDERER {
        "Software"
    } else if param == AL_EXTENSIONS {
        "AL_EXT_OFFSET AL_EXT_LINEAR_DISTANCE AL_EXT_EXPONENT_DISTANCE AL_EXT_STATIC_BUFFER"
    } else if param == 0 {
        "No Error"
    } else if param == 0xA001 {
        "Invalid Name"
    } else if param == 0xA002 {
        "Invalid Enum"
    } else if param == 0xA003 {
        "Invalid Value"
    } else if param == 0xA004 {
        "Invalid Operation"
    } else if param == 0xA005 {
        "Out of Memory"
    } else {
        ""
    }
}

/// The open devices and contexts (by guest handle), the current context,
/// and the strings already handed out.
pub struct OpenAL {
    devices: Vec<u32>,
    contexts: Vec<u32>,
    strings_cache: Vec<(i32, u32)>,
    current_ctx: u32,
}

/// A count the guest passed, if it is not negative.
pub fn checked_count(n: i32) -> (r: Option<u32>)
    ensures
        n < 0 ==> r is None,
        n >= 0 ==> r == Some(n as u32),
{
    if n < 0 {
        None
    } else {
        Some(n as u32)
    }
}

/// How many buffers `alSourceUnqueueBuffers` takes off the queue: no more
/// than have been processed (taking playing buffers off is not allowed, yet
/// Apple's sample code asks for all); nothing for a negative count.
pub fn unqueue_count(processed: i32, nb: i32) -> (r: Option<u32>)
    ensures
        r == if processed < nb {
            if processed < 0 { None::<u32> } else { Some(processed as u32) }
        } else if nb < 0 {
            None::<u32>
        } else {
            Some(nb as u32)
        },
{
    let n = if processed < nb { processed } else { nb };
    checked_count(n)
}

/// Wolf3D sets a Doppler velocity of 0, which silences the software
/// renderer; that call is ignored.
pub fn doppler_velocity_ignored(bundle_identifier: &str, value_is_zero: bool) -> (r: bool)
    ensures
        r == (value_is_zero && (seq_starts_with(bundle_identifier@, "com.zodttd.wolf3d"@)
            || seq_starts_with(bundle_identifier@, "com.idsoftware.wolf3d"@)
            || seq_starts_with(bundle_identifier@, "nu.r3.wolf3d"@))),
{
    let wolf = str_starts_with(bundle_identifier, "com.zodttd.wolf3d") || str_starts_with(bundle_identifier, "com.idsoftware.wolf3d")
        || str_starts_with(bundle_identifier, "nu.r3.wolf3d");
    wolf && value_is_zero
}

/// The guest's `n` sources at `sources`, for the calls that apply to a list
/// of sources (play, pause, stop, rewind); none for NULL or a count of 0 or
/// less.
pub fn source_list(mem: &Mem, nsources: i32, sources: u32) -> (r: Vec<u32>)
    requires
        mem.wf(),
        sources != 0 && nsources > 0 ==> sources + 4 * nsources <= mem@.len(),
    ensures
        sources == 0 || nsources <= 0 ==> r@.len() == 0,
        sources != 0 && nsources > 0 ==> r@.len() == nsources && forall|i: int| 0 <= i < nsources
            ==> #[trigger] r@[i] == read_u32_spec(mem@, sources + 4 * i),
{
    let mut r: Vec<u32> = Vec::new();
    if sources == 0 || nsources <= 0 {
        return r;
    }
    proof {
        mem.lemma_wf();
    }
    let n = nsources as u32;
    let mut i: u32 = 0;
    while i < n
        invariant
            mem.wf(),
            mem@.len() <= u32::MAX,
            sources + 4 * n <= mem@.len(),
            i <= n,
            r@.len() == i,
            forall|j: int| 0 <= j < i ==> #[trigger] r@[j] == read_u32_spec(mem@, sources + 4 * j),
        decreases n - i,
    {
        r.push(mem.read_u32(sources + 4 * i));
        i = i + 1;
    }
    r
}

/// `alSourcePlayv`: the sources to play (see [source_list]).
#[allow(non_snake_case)]
pub fn alSourcePlayv(mem: &Mem, nsources: i32, sources: u32) -> (r: Vec<u32>)
    requires
        mem.wf(),
        sources != 0 && nsources > 0 ==> sources + 4 * nsources <= mem@.len(),
    ensures
        sources == 0 || nsources <= 0 ==> r@.len() == 0,
        sources != 0 && nsources > 0 ==> r@.len() == nsources && forall|i: int| 0 <= i < nsources
            ==> #[trigger] r@[i] == read_u32_spec(mem@, sources + 4 * i),
{
    source_list(mem, nsources, sources)
}

/// `alSourcePausev`: the sources to pause (see [source_list]).
#[allow(non_snake_case)]
pub fn alSourcePausev(mem: &Mem, nsources: i32, sources: u32) -> (r: Vec<u32>)
    requires
        mem.wf(),
        sources != 0 && nsources > 0 ==> sources + 4 * nsources <= mem@.len(),
    ensures
        sources == 0 || nsources <= 0 ==> r@.len() == 0,
        sources != 0 && nsources > 0 ==> r@.len() == nsources && forall|i: int| 0 <= i < nsources
            ==> #[trigger] r@[i] == read_u32_spec(mem@, sources + 4 * i),
{
    source_list(mem, nsources, sources)
}

/// `alSourceStopv`: the sources to stop (see [source_list]).
#[allow(non_snake_case)]
pub fn alSourceStopv(mem: &Mem, nsources: i32, sources: u32) -> (r: Vec<u32>)
    requires
        mem.wf(),
        sources != 0 && nsources > 0 ==> sources + 4 * nsources <= mem@.len(),
    ensures
        sources == 0 || nsources <= 0 ==> r@.len() == 0,
        sources != 0 && nsources > 0 ==> r@.len() == nsources && forall|i: int| 0 <= i < nsources
            ==> #[trigger] r@[i] == read_u32_spec(mem@, sources + 4 * i),
{
    source_list(mem, nsources, sources)
}

/// `alSourceRewindv`: the sources to rewind (see [source_list]).
#[allow(non_snake_case)]
pub fn alSourceRewindv(mem: &Mem, nsources: i32, sources: u32) -> (r: Vec<u32>)
    requires
        mem.wf(),
        sources != 0 && nsources > 0 ==> sources + 4 * nsources <= mem@.len(),
    ensures
        sources == 0 || nsources <= 0 ==> r@.len() == 0,
        sources != 0 && nsources > 0 ==> r@.len() == nsources && forall|i: int| 0 <= i < nsources
            ==> #[trigger] r@[i] == read_u32_spec(mem@, sources + 4 * i),
{
    source_list(mem, nsources, sources)
}

/// Write `n` zero bytes at `p` (nothing for NULL): the answer of the query
/// functions that are not implemented.
fn zero_fill(mem: &mut Mem, p: u32, n: u32)
    requires
        old(mem).wf(),
        p != 0 ==> p + n <= old(mem)@.len(),
    ensures
        final(mem).wf(),
        final(mem).next_free_spec() == old(mem).next_free_spec(),
        p == 0 ==> final(mem)@ == old(mem)@,
        p != 0 ==> crate::mem::same_outside(old(mem)@, final(mem)@, p as int, p + n)
            && forall|i: int| p <= i < p + n ==> #[trigger] final(mem)@[i] == 0,
{
    if p == 0 {
        return;
    }
    proof {
        mem.lemma_wf();
    }
    let mut i: u32 = 0;
    while i < n
        invariant
            mem.wf(),
            mem@.len() <= u32::MAX,
            p + n <= mem@.len(),
            i <= n,
            mem@.len() == old(mem)@.len(),
            mem.next_free_spec() == old(mem).next_free_spec(),
            crate::mem::same_outside(old(mem)@, mem@, p as int, p + n),
            forall|j: int| p <= j < p + i ==> #[trigger] mem@[j] == 0,
        decreases n - i,
    {
        mem.write_u8(p + i, 0);
        i = i + 1;
    }
}

/// `alcGetIntegerv`: not implemented; `size` zero integers (none for NULL
/// or a size of 0 or less).
#[allow(non_snake_case)]
pub fn alcGetIntegerv(mem: &mut Mem, _param: i32, size: i32, values: u32)
    requires
        old(mem).wf(),
        values != 0 && size > 0 ==> values + 4 * size <= old(mem)@.len(),
    ensures
        final(mem).wf(),
        final(mem).next_free_spec() == old(mem).next_free_spec(),
        values == 0 || size <= 0 ==> final(mem)@ == old(mem)@,
        values != 0 && size > 0 ==> crate::mem::same_outside(old(mem)@, final(mem)@, values as int, values + 4 * size)
            && forall|i: int| values <= i < values + 4 * size ==> #[trigger] final(mem)@[i] == 0,
{
    if values != 0 && size > 0 {
        proof {
            mem.lemma_wf();
        }
        zero_fill(mem, values, 4 * (size as u32));
    }
}

/// `alGetBooleanv`: not implemented; false (one zero byte).
#[allow(non_snake_case)]
pub fn alGetBooleanv(mem: &mut Mem, _param: i32, values: u32)
    requires
        old(mem).wf(),
        values != 0 ==> values + 1 <= old(mem)@.len(),
    ensures
        final(mem).wf(),
        values == 0 ==> final(mem)@ == old(mem)@,
        values != 0 ==> final(mem)@ == old(mem)@.update(values as int, 0),
{
    if values != 0 {
        mem.write_u8(values, 0);
    }
}

/// `alGetDoublev`: not implemented; 0.0 (eight zero bytes).
#[allow(non_snake_case)]
pub fn alGetDoublev(mem: &mut Mem, _param: i32, values: u32)
    requires
        old(mem).wf(),
        values != 0 ==> values + 8 <= old(mem)@.len(),
    ensures
        final(mem).wf(),
        values == 0 ==> final(mem)@ == old(mem)@,
        values != 0 ==> crate::mem::same_outside(old(mem)@, final(mem)@, values as int, values + 8)
            && forall|i: int| values <= i < values + 8 ==> #[trigger] final(mem)@[i] == 0,
{
    zero_fill(mem, values, 8);
}

/// `alGetFloatv`: not implemented; 0.0 (four zero bytes).
#[allow(non_snake_case)]
pub fn alGetFloatv(mem: &mut Mem, _param: i32, values: u32)
    requires
        old(mem).wf(),
        values != 0 ==> values + 4 <= old(mem)@.len(),
    ensures
        final(mem).wf(),
        values == 0 ==> final(mem)@ == old(mem)@,
        values != 0 ==> crate::mem::same_outside(old(mem)@, final(mem)@, values as int, values + 4)
            && forall|i: int| values <= i < values + 4 ==> #[trigger] final(mem)@[i] == 0,
{
    zero_fill(mem, values, 4);
}

/// `alGetIntegerv`: not implemented; 0.
#[allow(non_snake_case)]
pub fn alGetIntegerv(mem: &mut Mem, _param: i32, values: u32)
    requires
        old(mem).wf(),
        values != 0 ==> values + 4 <= old(mem)@.len(),
    ensures
        final(mem).wf(),
        values == 0 ==> final(mem)@ == old(mem)@,
        values != 0 ==> crate::mem::same_outside(old(mem)@, final(mem)@, values as int, values + 4)
            && forall|i: int| values <= i < values + 4 ==> #[trigger] final(mem)@[i] == 0,
{
    zero_fill(mem, values, 4);
}

/// `alGetBufferf`: not implemented; 0.0.
#[allow(non_snake_case)]
pub fn alGetBufferf(mem: &mut Mem, _buffer: u32, _param: i32, value: u32)
    requires
        old(mem).wf(),
        value != 0 ==> value + 4 <= old(mem)@.len(),
    ensures
        final(mem).wf(),
        value == 0 ==> final(mem)@ == old(mem)@,
        value != 0 ==> crate::mem::same_outside(old(mem)@, final(mem)@, value as int, value + 4)
            && forall|i: int| value <= i < value + 4 ==> #[trigger] final(mem)@[i] == 0,
{
    zero_fill(mem, value, 4);
}

/// `alGetBoolean`: not implemented; false.
#[allow(non_snake_case)]
pub fn alGetBoolean(_param: i32) -> (r: u8)
    ensures
        r == 0,
{
    0
}

/// `alGetInteger`: not implemented; 0.
#[allow(non_snake_case)]
pub fn alGetInteger(_param: i32) -> (r: i32)
    ensures
        r == 0,
{
    0
}

/// `alIsEnabled`: no capability is enabled.
#[allow(non_snake_case)]
pub fn alIsEnabled(_capability: i32) -> (r: u8)
    ensures
        r == 0,
{
    0
}

/// `alDisable`: nothing to do.
#[allow(non_snake_case)]
pub fn alDisable(_capability: i32) {
}

/// `alcIsExtensionPresent`: no extension is present.
#[allow(non_snake_case)]
pub fn alcIsExtensionPresent(_device: u32, _ext_name: u32) -> (r: u8)
    ensures
        r == 0,
{
    0
}

/// `alcGetEnumValue`: not implemented; 0.
#[allow(non_snake_case)]
pub fn alcGetEnumValue(_device: u32, _enum_name: u32) -> (r: i32)
    ensures
        r == 0,
{
    0
}

impl OpenAL {
    pub closed spec fn devices(&self) -> Seq<u32> {
        self.devices@
    }

    pub closed spec fn contexts(&self) -> Seq<u32> {
        self.contexts@
    }

    pub closed spec fn current(&self) -> u32 {
        self.current_ctx
    }

    /// The address of the string handed out for `param`, if one was.
    pub closed spec fn cached_string(&self, param: i32) -> Option<u32> {
        assoc(self.strings_cache@, param)
    }

    /// No devices, no contexts, no current context.
    pub fn new() -> (s: OpenAL)
        ensures
            s.devices().len() == 0,
            s.contexts().len() == 0,
            s.current() == 0,
            forall|p: i32| #[trigger] s.cached_string(p) is None,
    {
        OpenAL { devices: Vec::new(), contexts: Vec::new(), strings_cache: Vec::new(), current_ctx: 0 }
    }

    fn index_of(v: &Vec<u32>, x: u32) -> (r: Option<usize>)
        ensures
            r matches Some(i) ==> i < v@.len() && v@[i as int] == x,
            r is None ==> !v@.contains(x),
    {
        let mut i: usize = 0;
        while i < v.len()
            invariant
                i <= v@.len(),
                forall|j: int| 0 <= j < i ==> v@[j] != x,
            decreases v@.len() - i,
        {
            if v[i] == x {
                return Some(i);
            }
            i = i + 1;
        }
        None
    }

    /// Whether `device` is an open device.
    pub fn is_device(&self, device: u32) -> (r: bool)
        ensures
            r == self.devices().contains(device),
    {
        Self::index_of(&self.devices, device).is_some()
    }

    /// Whether `context` is an existing context.
    pub fn is_context(&self, context: u32) -> (r: bool)
        ensures
            r == self.contexts().contains(context),
    {
        Self::index_of(&self.contexts, context).is_some()
    }

    /// Make a guest handle for a device the audio library opened.
    pub fn register_device(&mut self, mem: &mut Mem) -> (d: u32)
        requires
            old(mem).wf(),
            old(mem).free_space() >= 16,
        ensures
            final(mem).wf(),
            d == old(mem).next_free_spec(),
            final(mem).next_free_spec() == old(mem).next_free_spec() + 16,
            final(self).devices() == old(self).devices().push(d),
            final(self).contexts() == old(self).contexts(),
            final(self).current() == old(self).current(),
    {
        assert(crate::mem::alloc_size(1) == 16);
        let d = mem.allocate(1);
        self.devices.push(d);
        d
    }

    /// `alcCloseDevice`: forget an open device and give its handle back;
    /// false for NULL (the caller closes the audio library's device
    /// otherwise).
    #[allow(non_snake_case)]
    pub fn alcCloseDevice(&mut self, mem: &mut Mem, device: u32) -> (r: bool)
        requires
            device != 0 ==> old(self).devices().contains(device),
        ensures
            r == (device != 0),
            device == 0 ==> *final(self) == *old(self),
            device != 0 ==> exists|i: int| 0 <= i < old(self).devices().len() && old(self).devices()[i] == device
                && final(self).devices() == old(self).devices().remove(i),
            final(self).contexts() == old(self).contexts(),
            final(self).current() == old(self).current(),
            *final(mem) == *old(mem),
    {
        if device == 0 {
            return false;
        }
        let i = Self::index_of(&self.devices, device).unwrap();
        self.devices.remove(i);
        mem.free(device);
        true
    }

    /// `alcGetError` for an unknown or NULL device: `ALC_INVALID_DEVICE`;
    /// for an open device the audio library answers (`None`).
    #[allow(non_snake_case)]
    pub fn alcGetError(&self, device: u32) -> (r: Option<i32>)
        ensures
            r == if self.devices().contains(device) { None::<i32> } else { Some(ALC_INVALID_DEVICE) },
    {
        if self.is_device(device) {
            None
        } else {
            Some(ALC_INVALID_DEVICE)
        }
    }

    /// `alcCreateContext`, up to the audio library: the attribute list to
    /// pass on (the allowed pairs and a terminating 0; none if there are
    /// none), or `Err` for an unknown device (the result is NULL).
    #[allow(non_snake_case)]
    pub fn alcCreateContext(&self, mem: &Mem, device: u32, attr_list: u32) -> (r: Result<Option<Vec<i32>>, ()>)
        requires
            mem.wf(),
        ensures
            !self.devices().contains(device) ==> r is Err,
            self.devices().contains(device) ==> (r matches Ok(a) && ({
                let f = if attr_list == 0 { Seq::<i32>::empty() } else { filtered_attributes(mem@, attr_list as int) };
                if f.len() == 0 { a is None } else { a matches Some(v) && v@ == f.push(0) }
            })),
    {
        let attrs = if attr_list == 0 {
            Vec::new()
        } else {
            filter_context_attributes(mem, attr_list)
        };
        if !self.is_device(device) {
            return Err(());
        }
        if attrs.len() == 0 {
            Ok(None)
        } else {
            let mut a = attrs;
            a.push(0);
            Ok(Some(a))
        }
    }

    /// Make a guest handle for a context the audio library made.
    pub fn register_context(&mut self, mem: &mut Mem) -> (c: u32)
        requires
            old(mem).wf(),
            old(mem).free_space() >= 16,
        ensures
            final(mem).wf(),
            c == old(mem).next_free_spec(),
            final(mem).next_free_spec() == old(mem).next_free_spec() + 16,
            final(self).contexts() == old(self).contexts().push(c),
            final(self).devices() == old(self).devices(),
            final(self).current() == old(self).current(),
    {
        assert(crate::mem::alloc_size(1) == 16);
        let c = mem.allocate(1);
        self.contexts.push(c);
        c
    }

    /// `alcDestroyContext`: forget an existing context and give its handle
    /// back; nothing for NULL.
    #[allow(non_snake_case)]
    pub fn alcDestroyContext(&mut self, mem: &mut Mem, context: u32)
        requires
            context != 0 ==> old(self).contexts().contains(context),
        ensures
            context == 0 ==> *final(self) == *old(self),
            context != 0 ==> exists|i: int| 0 <= i < old(self).contexts().len() && old(self).contexts()[i] == context
                && final(self).contexts() == old(self).contexts().remove(i),
            final(self).devices() == old(self).devices(),
            final(self).current() == old(self).current(),
            *final(mem) == *old(mem),
    {
        if context == 0 {
            return;
        }
        let i = Self::index_of(&self.contexts, context).unwrap();
        self.contexts.remove(i);
        mem.free(context);
    }

    /// `alcProcessContext`: whether the audio library is asked to (not for
    /// NULL).
    #[allow(non_snake_case)]
    pub fn alcProcessContext(&self, context: u32) -> (r: bool)
        requires
            context != 0 ==> self.contexts().contains(context),
        ensures
            r == (context != 0),
    {
        context != 0
    }

    /// `alcSuspendContext`: whether the audio library is asked to (not for
    /// NULL).
    #[allow(non_snake_case)]
    pub fn alcSuspendContext(&self, context: u32) -> (r: bool)
        requires
            context != 0 ==> self.contexts().contains(context),
        ensures
            r == (context != 0),
    {
        context != 0
    }

    /// `alcMakeContextCurrent`: NULL or an existing context becomes current
    /// (true); anything else is refused (false).
    #[allow(non_snake_case)]
    pub fn alcMakeContextCurrent(&mut self, context: u32) -> (r: bool)
        ensures
            r == (context == 0 || old(self).contexts().contains(context)),
            r ==> final(self).current() == context,
            !r ==> final(self).current() == old(self).current(),
            final(self).contexts() == old(self).contexts(),
            final(self).devices() == old(self).devices(),
            forall|p: i32| #[trigger] final(self).cached_string(p) == old(self).cached_string(p),
    {
        if context == 0 || self.is_context(context) {
            self.current_ctx = context;
            true
        } else {
            false
        }
    }

    /// `alcGetCurrentContext`.
    #[allow(non_snake_case)]
    pub fn alcGetCurrentContext(&self) -> (r: u32)
        ensures
            r == self.current(),
    {
        self.current_ctx
    }

    /// Whether the current context exists, which the `al` calls need; they
    /// are skipped otherwise.
    pub fn has_current_context(&self) -> (r: bool)
        ensures
            r == self.contexts().contains(self.current()),
    {
        self.is_context(self.current_ctx)
    }

    /// `alcGetContextsDevice` for NULL: NULL (`None`); for a context the
    /// audio library says which device it belongs to.
    #[allow(non_snake_case)]
    pub fn alcGetContextsDevice(&self, context: u32) -> (r: Option<u32>)
        requires
            context != 0 ==> self.contexts().contains(context),
        ensures
            context == 0 ==> r == Some(0u32),
            context != 0 ==> r is None,
    {
        if context == 0 {
            Some(0)
        } else {
            None
        }
    }

    /// `alGetString`: the string for `param` (see [al_string]), made once
    /// per parameter and handed out again after.
    #[allow(non_snake_case)]
    pub fn alGetString(&mut self, mem: &mut Mem, param: i32) -> (r: u32)
        requires
            old(mem).wf(),
            old(mem).free_space() >= 400,
        ensures
            final(mem).wf(),
            final(self).cached_string(param) == Some(r),
            forall|p: i32| p != param ==> #[trigger] final(self).cached_string(p) == old(self).cached_string(p),
            final(self).devices() == old(self).devices(),
            final(self).contexts() == old(self).contexts(),
            final(self).current() == old(self).current(),
            old(self).cached_string(param) matches Some(a) ==> r == a && *final(mem) == *old(mem),
            old(self).cached_string(param) is None ==> ({
                let bytes = utf8_encode(al_string(param));
                &&& r == old(mem).next_free_spec()
                &&& forall|i: int| 0 <= i < bytes.len() ==> #[trigger] final(mem)@[r + i] == bytes[i]
                &&& final(mem)@[r + bytes.len()] == 0
            }),
    {
        match assoc_find_i32(&self.strings_cache, param) {
            Some(i) => self.strings_cache[i].1,
            None => {
                let text = al_string_text(param);
                let bytes = crate::text::utf8_bytes(text);
                proof {
                    reveal_strlit("AL_EXT_OFFSET AL_EXT_LINEAR_DISTANCE AL_EXT_EXPONENT_DISTANCE AL_EXT_STATIC_BUFFER");
                    reveal_strlit("Apple Inc.");
                    reveal_strlit("1.1");
                    reveal_strlit("Software");
                    reveal_strlit("No Error");
                    reveal_strlit("Invalid Name");
                    reveal_strlit("Invalid Enum");
                    reveal_strlit("Invalid Value");
                    reveal_strlit("Invalid Operation");
                    reveal_strlit("Out of Memory");
                    reveal_strlit("");
                    assert(text@.len() <= 82);
                    crate::mem::lemma_alloc_size((bytes@.len() + 1) as u32);
                }
                let a = crate::objc::alloc_cstr(mem, bytes.as_slice());
                let ghost before = self.strings_cache@;
                self.strings_cache.push((param, a));
                proof {
                    assert forall|p: i32| #[trigger] assoc(self.strings_cache@, p) == if p == param { Some(a) } else { assoc(before, p) } by {
                        lemma_assoc_push(before, param, a, p);
                    }
                }
                a
            },
        }
    }
}

/// The allowed attribute pairs of the list at `p` (see
/// [filtered_attributes]).
fn filter_context_attributes(mem: &Mem, p: u32) -> (r: Vec<i32>)
    requires
        mem.wf(),
    ensures
        r@ == filtered_attributes(mem@, p as int),
{
    proof {
        mem.lemma_wf();
    }
    let len = mem.len();
    let mut out: Vec<i32> = Vec::new();
    let mut q: u32 = p;
    while q <= len && 8 <= len - q && mem.read_u32(q) != 0
        invariant
            mem.wf(),
            len == mem@.len(),
            p <= q,
            filtered_attributes(mem@, p as int) == out@ + filtered_attributes(mem@, q as int),
        decreases len - q,
    {
        let a = mem.read_u32(q) as i32;
        let v = mem.read_u32(q + 4) as i32;
        if a == ALC_FREQUENCY || a == ALC_REFRESH || a == ALC_SYNC || a == ALC_MONO_SOURCES || a == ALC_STEREO_SOURCES {
            let ghost before = out@;
            out.push(a);
            out.push(v);
            proof {
                assert(out@ =~= before + seq![a, v]);
                assert(filtered_attributes(mem@, q as int) == seq![a, v] + filtered_attributes(mem@, q + 8));
                assert(before + seq![a, v] + filtered_attributes(mem@, q + 8) =~= before + (seq![a, v] + filtered_attributes(mem@, q + 8)));
            }
        }
        q = q + 8;
    }
    proof {
        assert(out@ + Seq::<i32>::empty() =~= out@);
    }
    out
}

/// The symbol `alcGetProcAddress` looks up for `name`: with the leading
/// underscore of C symbols.
pub open spec fn al_proc_symbol(name: Seq<char>) -> Seq<char> {
    seq!['_'] + name
}

/// `alcGetProcAddress`: a guest function for the OpenAL function `name`
/// (which begins with "al"); NULL for `alcMacOSMixerOutputRate`, which
/// does not exist.
#[allow(non_snake_case)]
pub fn alcGetProcAddress(dylibs: &[HostDylib], dyld: &mut Dyld, mem: &mut Mem, cpu: &mut CodeCache, _device: u32, func_name: u32) -> (r: u32)
    requires
        old(mem).wf(),
        old(mem).free_space() >= 16,
        old(dyld).linked().len() + 1 + SVC_LINKED_FUNCTIONS_BASE < SVC_LAZY_LINK_RET_FLAG,
        guest_str(old(mem)@, func_name as int) matches Some(n) && seq_starts_with(n, "al"@)
            && (proc_address_target(dylibs@, al_proc_symbol(n)) is Some || al_proc_symbol(n) == "_alcMacOSMixerOutputRate"@),
    ensures
        final(mem).wf(),
        ({
            let n = guest_str(old(mem)@, func_name as int)->0;
            if proc_address_target(dylibs@, al_proc_symbol(n)) is Some {
                crate::dyld::cache_lookup(final(dyld).cache(), crate::dyld::proc_target_name(dylibs@, al_proc_symbol(n)))
                    == Some(crate::dyld::GuestFunction { addr_with_thumb_bit: r })
            } else {
                r == 0
            }
        }),
{
    let name = crate::libc::read_guest_string(mem, func_name).unwrap();
    let mangled = crate::text::concat("_", name.as_str());
    proof {
        reveal_strlit("_");
        assert("_"@ =~= seq!['_']);
    }
    match dyld.create_proc_address(dylibs, mem, cpu, mangled.as_str()) {
        Ok(f) => f.addr_with_thumb_bit,
        Err(()) => 0,
    }
}

/// `alGetProcAddress`: as [alcGetProcAddress] without a device.
#[allow(non_snake_case)]
pub fn alGetProcAddress(dylibs: &[HostDylib], dyld: &mut Dyld, mem: &mut Mem, cpu: &mut CodeCache, func_name: u32) -> (r: u32)
    requires
        old(mem).wf(),
        old(mem).free_space() >= 16,
        old(dyld).linked().len() + 1 + SVC_LINKED_FUNCTIONS_BASE < SVC_LAZY_LINK_RET_FLAG,
        guest_str(old(mem)@, func_name as int) matches Some(n) && seq_starts_with(n, "al"@)
            && (proc_address_target(dylibs@, al_proc_symbol(n)) is Some || al_proc_symbol(n) == "_alcMacOSMixerOutputRate"@),
    ensures
        final(mem).wf(),
        ({
            let n = guest_str(old(mem)@, func_name as int)->0;
            if proc_address_target(dylibs@, al_proc_symbol(n)) is Some {
                crate::dyld::cache_lookup(final(dyld).cache(), crate::dyld::proc_target_name(dylibs@, al_proc_symbol(n)))
                    == Some(crate::dyld::GuestFunction { addr_with_thumb_bit: r })
            } else {
                r == 0
            }
        }),
{
    alcGetProcAddress(dylibs, dyld, mem, cpu, 0, func_name)
}

/// `alBufferDataStatic`: the static buffer is copied like any other; the
/// size passed on, or nothing for a negative size.
#[allow(non_snake_case)]
pub fn alBufferDataStatic(size: i32) -> (r: Option<u32>)
    ensures
        r == if size < 0 { None::<u32> } else { Some(size as u32) },
{
    checked_count(size)
}


/// `alcOpenDevice`, before the audio library: a named device is opened only
/// if the name is the one the library gives as its device specifier
/// (`specifier`, without the NUL); no name means the default device.
#[allow(non_snake_case)]
pub fn alcOpenDevice_name_accepted(mem: &Mem, devicename: u32, specifier: &[u8]) -> (r: bool)
    requires
        mem.wf(),
        devicename != 0 ==> crate::mem::cstr_spec(mem@, devicename as int) is Some,
    ensures
        r == (devicename == 0 || crate::mem::cstr_spec(mem@, devicename as int) == Some(specifier@)),
{
    if devicename == 0 {
        return true;
    }
    let name = match mem.cstr_at(devicename) {
        Some(name) => name,
        None => return false,
    };
    if name.len() != specifier.len() {
        assert(name@ != specifier@);
        return false;
    }
    let mut i: usize = 0;
    while i < name.len()
        invariant
            devicename != 0,
            crate::mem::cstr_spec(mem@, devicename as int) == Some(name@),
            name@.len() == specifier@.len(),
            i <= name@.len(),
            forall|j: int| 0 <= j < i ==> name@[j] == specifier@[j],
        decreases name@.len() - i,
    {
        if name[i] != specifier[i] {
            assert(name@[i as int] != specifier@[i as int]);
            assert(name@ != specifier@);
            return false;
        }
        i = i + 1;
    }
    assert(name@ =~= specifier@);
    true
}

impl OpenAL {
    /// `alcGetString`: the device whose string the audio library is asked
    /// for: the open device given, or NULL (for NULL or an unknown device).
    #[allow(non_snake_case)]
    pub fn alcGetString_device(&self, device: u32) -> (r: u32)
        ensures
            r == if device != 0 && self.devices().contains(device) { device } else { 0 },
    {
        if device != 0 && self.is_device(device) {
            device
        } else {
            0
        }
    }
}

} // verus!
