//! Parts of Foundation and other frameworks whose logic needs no guest
//! code: class and selector names, the notification center's observer
//! tables, NSString range conversion, and a few value objects.
use vstd::prelude::*;
use crate::objc::{Id, NIL, ObjC, Sel, class_index};
use crate::mem::{Mem, read_u32_spec};
use crate::text::{seq_starts_with, str_eq, str_starts_with};

verus! {

broadcast use vstd::seq_lib::group_to_multiset_ensures;

/// `NSStringFromClass`: the name of the class, for an NSString; nothing for
/// nil.
#[allow(non_snake_case)]
pub fn NSStringFromClass(objc: &ObjC, class: Id) -> (r: Option<String>)
    requires
        objc.wf(),
        class != NIL ==> class_index(objc.classes(), class) is Some,
    ensures
        class == NIL ==> r is None,
        class != NIL ==> (r matches Some(s) && s@ == objc.classes()[class_index(objc.classes(), class)->0].1.name@),
{
    if class == NIL {
        return None;
    }
    Some(objc.class_name(class))
}

/// `NSStringFromSelector`: the name of the selector, which is the string
/// at its address.
#[allow(non_snake_case)]
pub fn NSStringFromSelector(mem: &Mem, selector: Sel) -> (r: Option<String>)
    requires
        mem.wf(),
    ensures
        r matches Some(s) ==> crate::libc::guest_str(mem@, selector as int) == Some(s@),
        r is None ==> crate::libc::guest_str(mem@, selector as int) is None,
{
    crate::libc::read_guest_string(mem, selector)
}

/// Store `value` at `offset` in `obj` for the property setters that
/// engines link against: nothing is written (false) if the address is not
/// in memory.
pub fn set_property_at_offset(mem: &mut Mem, obj: Id, value: Id, offset: u32) -> (r: bool)
    requires
        old(mem).wf(),
    ensures
        final(mem).wf(),
        final(mem).next_free_spec() == old(mem).next_free_spec(),
        r == (obj + offset + 4 <= old(mem)@.len()),
        r ==> final(mem)@ == crate::mem::write_u32_spec(old(mem)@, obj + offset, value),
        !r ==> final(mem)@ == old(mem)@,
{
    let len = mem.len();
    proof {
        mem.lemma_wf();
    }
    if offset <= len && obj <= len - offset && 4 <= len - offset - obj {
        mem.write_u32(obj + offset, value);
        true
    } else {
        false
    }
}

/// `objc_setProperty_atomic`: see [set_property_at_offset].
pub fn objc_setProperty_atomic(mem: &mut Mem, obj: Id, _cmd: Sel, value: Id, offset: u32) -> (r: bool)
    requires
        old(mem).wf(),
    ensures
        final(mem).wf(),
        final(mem).next_free_spec() == old(mem).next_free_spec(),
        r == (obj + offset + 4 <= old(mem)@.len()),
        r ==> final(mem)@ == crate::mem::write_u32_spec(old(mem)@, obj + offset, value),
        !r ==> final(mem)@ == old(mem)@,
{
    set_property_at_offset(mem, obj, value, offset)
}

/// `_objc_setProperty_nonatomic_copy`: see [set_property_at_offset].
pub fn _objc_setProperty_nonatomic_copy(mem: &mut Mem, obj: Id, _cmd: Sel, value: Id, offset: u32) -> (r: bool)
    requires
        old(mem).wf(),
    ensures
        final(mem).wf(),
        final(mem).next_free_spec() == old(mem).next_free_spec(),
        r == (obj + offset + 4 <= old(mem)@.len()),
        r ==> final(mem)@ == crate::mem::write_u32_spec(old(mem)@, obj + offset, value),
        !r ==> final(mem)@ == old(mem)@,
{
    set_property_at_offset(mem, obj, value, offset)
}

/// An observer of notifications: who gets which message, for notifications
/// from which object (nil for any).
#[derive(Clone, Copy, PartialEq, Eq, Structural, Debug)]
pub struct Observer {
    pub observer: Id,
    pub selector: Sel,
    pub object: Id,
}

/// The observer `o` is one of those of `observer` for `object` (nil: for
/// any object).
pub open spec fn observer_matches(o: Observer, observer: Id, object: Id) -> bool {
    o.observer == observer && (object == NIL || object == o.object)
}

/// Take the observers of `observer` (for `object`, or any object if nil)
/// out of `observers` and add them to `removed`. The order of the observers
/// that stay may change.
pub fn remove_observers_internal(observers: &mut Vec<Observer>, removed: &mut Vec<Observer>, observer: Id, object: Id)
    ensures
        final(observers)@.to_multiset().add(final(removed)@.to_multiset())
            == old(observers)@.to_multiset().add(old(removed)@.to_multiset()),
        forall|i: int| 0 <= i < final(observers)@.len() ==> !observer_matches(#[trigger] final(observers)@[i], observer, object),
        final(removed)@.subrange(0, old(removed)@.len() as int) == old(removed)@,
        forall|i: int| old(removed)@.len() <= i < final(removed)@.len()
            ==> observer_matches(#[trigger] final(removed)@[i], observer, object),
        old(removed)@.len() <= final(removed)@.len(),
{
    let mut i: usize = 0;
    while i < observers.len()
        invariant
            i <= observers@.len(),
            observers@.to_multiset().add(removed@.to_multiset()) == old(observers)@.to_multiset().add(old(removed)@.to_multiset()),
            forall|j: int| 0 <= j < i ==> !observer_matches(#[trigger] observers@[j], observer, object),
            old(removed)@.len() <= removed@.len(),
            removed@.subrange(0, old(removed)@.len() as int) == old(removed)@,
            forall|j: int| old(removed)@.len() <= j < removed@.len() ==> observer_matches(#[trigger] removed@[j], observer, object),
        decreases observers@.len() - i,
    {
        if observers[i].observer == observer && (object == NIL || object == observers[i].object) {
            let ghost v = observers@;
            let ghost rm = removed@;
            let o = observers.swap_remove(i);
            removed.push(o);
            proof {
                broadcast use vstd::multiset::group_multiset_axioms;
                let w = v.update(i as int, v.last());
                assert(w.drop_last().push(w.last()) =~= w);
                assert(w.to_multiset() == w.drop_last().push(w.last()).to_multiset());
                assert(w.to_multiset() == v.to_multiset().insert(v.last()).remove(v[i as int]));
                assert(w.last() == v.last());
                assert(v.to_multiset().count(v[i as int]) > 0);
                let mw = w.to_multiset();
                let md = w.drop_last().to_multiset();
                assert(mw == md.insert(w.last()));
                assert forall|x: Observer| #[trigger] md.count(x) == v.to_multiset().remove(v[i as int]).count(x) by {
                    assert(mw.count(x) == md.count(x) + if x == w.last() { 1int } else { 0int });
                    assert(mw.count(x) == v.to_multiset().insert(v.last()).remove(v[i as int]).count(x));
                }
                assert(observers@ == w.drop_last());
                assert(observers@.to_multiset() =~= v.to_multiset().remove(v[i as int]));
                assert(removed@.to_multiset() =~= rm.to_multiset().insert(v[i as int]));
                assert(observers@.to_multiset().add(removed@.to_multiset()) =~= v.to_multiset().add(rm.to_multiset()));
                assert(removed@.subrange(0, old(removed)@.len() as int) =~= rm.subrange(0, old(removed)@.len() as int));
                assert forall|j: int| 0 <= j < i implies !observer_matches(#[trigger] observers@[j], observer, object) by {
                    assert(observers@[j] == v[j]);
                }
            }
        } else {
            i = i + 1;
        }
    }
}

/// The name under which observers of all notifications are kept.
pub open spec fn all_notifications_key() -> Seq<char> {
    "__TOUCHHLE_ALL_NOTIFICATIONS__"@
}

/// The observers kept under `name`.
pub open spec fn observers_named(table: Seq<(String, Vec<Observer>)>, name: Seq<char>) -> Seq<Observer>
    decreases table.len(),
{
    if table.len() == 0 {
        Seq::empty()
    } else if table[0].0@ == name {
        table[0].1@
    } else {
        observers_named(table.drop_first(), name)
    }
}

/// The observers in a notification center, by notification name.
pub struct NotificationCenter {
    observers: Vec<(String, Vec<Observer>)>,
}

/// Cut the Rope asks to observe update notifications that it then cannot
/// handle; such a request is ignored.
pub fn cut_the_rope_skips(name_is_nil: bool, bundle_identifier: &str, selector_is_fetch_update: bool) -> (r: bool)
    ensures
        r == (!name_is_nil && seq_starts_with(bundle_identifier@, "com.chillingo.cuttherope"@) && selector_is_fetch_update),
{
    !name_is_nil && str_starts_with(bundle_identifier, "com.chillingo.cuttherope") && selector_is_fetch_update
}

impl NotificationCenter {
    /// The observers of notifications named `name` (or of all
    /// notifications, under [all_notifications_key]).
    pub closed spec fn observers_for(&self, name: Seq<char>) -> Seq<Observer> {
        observers_named(self.observers@, name)
    }

    /// No observers.
    pub fn new() -> (c: NotificationCenter)
        ensures
            forall|n: Seq<char>| #[trigger] c.observers_for(n).len() == 0,
    {
        NotificationCenter { observers: Vec::new() }
    }

    /// The index of the table of `name`.
    fn find(&self, name: &str) -> (r: Option<usize>)
        ensures
            r matches Some(i) ==> i < self.observers@.len() && self.observers@[i as int].0@ == name@
                && self.observers_for(name@) == self.observers@[i as int].1@
                && forall|j: int| 0 <= j < i ==> self.observers@[j].0@ != name@,
            r is None ==> self.observers_for(name@).len() == 0
                && forall|j: int| 0 <= j < self.observers@.len() ==> self.observers@[j].0@ != name@,
    {
        let mut i: usize = 0;
        assert(self.observers@.skip(0) =~= self.observers@);
        while i < self.observers.len()
            invariant
                i <= self.observers@.len(),
                forall|j: int| 0 <= j < i ==> self.observers@[j].0@ != name@,
                observers_named(self.observers@, name@) == observers_named(self.observers@.skip(i as int), name@),
            decreases self.observers@.len() - i,
        {
            assert(self.observers@.skip(i as int).drop_first() =~= self.observers@.skip(i + 1));
            if str_eq(self.observers[i].0.as_str(), name) {
                return Some(i);
            }
            i = i + 1;
        }
        None
    }

    /// `addObserver:selector:name:object:`: add the observer under the
    /// notification's name (all notifications for a nil name). The caller
    /// retains the object.
    pub fn add_observer(&mut self, name: Option<&str>, o: Observer)
        ensures
            ({
                let key = match name {
                    Some(n) => n@,
                    None => all_notifications_key(),
                };
                &&& final(self).observers_for(key) == old(self).observers_for(key).push(o)
                &&& forall|n: Seq<char>| n != key ==> #[trigger] final(self).observers_for(n) == old(self).observers_for(n)
            }),
    {
        let key: &str = match name {
            Some(n) => n,
            None => "__TOUCHHLE_ALL_NOTIFICATIONS__",
        };
        let ghost before = self.observers@;
        match self.find(key) {
            Some(i) => {
                let (k, mut list) = self.observers.remove(i);
                list.push(o);
                self.observers.insert(i, (k, list));
                proof {
                    assert(self.observers@ =~= before.update(i as int, (k, list)));
                    assert forall|n: Seq<char>| #[trigger] observers_named(self.observers@, n) == if n == key@ { list@ } else { observers_named(before, n) } by {
                        lemma_observers_update(before, i as int, k, list, n);
                    }
                }
            },
            None => {
                let mut list: Vec<Observer> = Vec::new();
                list.push(o);
                self.observers.push((key.to_owned(), list));
                proof {
                    assert forall|n: Seq<char>| #[trigger] observers_named(self.observers@, n) == if n == key@ { list@ } else { observers_named(before, n) } by {
                        lemma_observers_push(before, self.observers@.last().0, list, n);
                    }
                    assert(list@ =~= Seq::<Observer>::empty().push(o));
                }
            },
        }
    }

    /// `removeObserver:name:object:`: take out the observers of `observer`
    /// (for `object`, or any object if nil) under `name`, or under every
    /// name if nil. Returns them, for the caller to release their objects.
    pub fn remove_observer(&mut self, observer: Id, name: Option<&str>, object: Id) -> (r: Vec<Observer>)
        requires
            observer != NIL,
        ensures
            forall|i: int| 0 <= i < r@.len() ==> observer_matches(#[trigger] r@[i], observer, object),
            name matches Some(n) ==> {
                &&& final(self).observers_for(n@).to_multiset().add(r@.to_multiset()) == old(self).observers_for(n@).to_multiset()
                &&& forall|i: int| 0 <= i < final(self).observers_for(n@).len()
                    ==> !observer_matches(#[trigger] final(self).observers_for(n@)[i], observer, object)
                &&& forall|m: Seq<char>| m != n@ ==> #[trigger] final(self).observers_for(m) == old(self).observers_for(m)
            },
            name is None ==> forall|m: Seq<char>, i: int| 0 <= i < final(self).observers_for(m).len()
                ==> !observer_matches(#[trigger] final(self).observers_for(m)[i], observer, object),
    {
        let mut removed: Vec<Observer> = Vec::new();
        match name {
            Some(n) => {
                match self.find(n) {
                    Some(i) => {
                        let ghost before = self.observers@;
                        let (k, mut list) = self.observers.remove(i);
                        remove_observers_internal(&mut list, &mut removed, observer, object);
                        self.observers.insert(i, (k, list));
                        proof {
                            assert(self.observers@ =~= before.update(i as int, (k, list)));
                            assert forall|m: Seq<char>| #[trigger] observers_named(self.observers@, m) == if m == n@ { list@ } else { observers_named(before, m) } by {
                                lemma_observers_update(before, i as int, k, list, m);
                            }
                            assert(removed@.subrange(0, 0) =~= Seq::<Observer>::empty());
                        }
                    },
                    None => {
                        proof {
                            assert(self.observers_for(n@) =~= Seq::<Observer>::empty());
                        }
                    },
                }
            },
            None => {
                let mut i: usize = 0;
                while i < self.observers.len()
                    invariant
                        i <= self.observers@.len(),
                        forall|j: int| 0 <= j < removed@.len() ==> observer_matches(#[trigger] removed@[j], observer, object),
                        forall|j: int, k: int| 0 <= j < i && 0 <= k < self.observers@[j].1@.len()
                            ==> !observer_matches(#[trigger] self.observers@[j].1@[k], observer, object),
                    decreases self.observers@.len() - i,
                {
                    let ghost before = self.observers@;
                    let (k, mut list) = self.observers.remove(i);
                    let ghost before_removed = removed@;
                    remove_observers_internal(&mut list, &mut removed, observer, object);
                    self.observers.insert(i, (k, list));
                    proof {
                        assert(self.observers@ =~= before.update(i as int, (k, list)));
                        assert forall|j: int| 0 <= j < removed@.len() implies observer_matches(#[trigger] removed@[j], observer, object) by {
                            if j < before_removed.len() {
                                assert(removed@.subrange(0, before_removed.len() as int)[j] == removed@[j]);
                            }
                        }
                    }
                    i = i + 1;
                }
                proof {
                    assert forall|m: Seq<char>, x: int| 0 <= x < self.observers_for(m).len()
                        implies !observer_matches(#[trigger] self.observers_for(m)[x], observer, object) by {
                        lemma_observers_named_in(self.observers@, m, x);
                    }
                }
            },
        }
        removed
    }

    /// `postNotification:`: the observers to send the notification to, in
    /// order: those of its name, then those of all notifications, keeping
    /// only those that observe any object or the notification's object.
    pub fn post_targets(&self, name: &str, poster: Id) -> (r: Vec<Observer>)
        ensures
            r@ == (self.observers_for(name@) + self.observers_for(all_notifications_key())).filter(
                |o: Observer| o.object == NIL || o.object == poster,
            ),
    {
        let mut all: Vec<Observer> = Vec::new();
        match self.find(name) {
            Some(i) => {
                let mut copy = self.observers[i].1.clone();
                all.append(&mut copy);
            },
            None => {},
        }
        match self.find("__TOUCHHLE_ALL_NOTIFICATIONS__") {
            Some(i) => {
                let mut copy = self.observers[i].1.clone();
                all.append(&mut copy);
            },
            None => {},
        }
        proof {
            assert(all@ =~= self.observers_for(name@) + self.observers_for(all_notifications_key()));
        }
        let mut r: Vec<Observer> = Vec::new();
        let mut j: usize = 0;
        while j < all.len()
            invariant
                j <= all@.len(),
                r@ == all@.subrange(0, j as int).filter(|o: Observer| o.object == NIL || o.object == poster),
            decreases all@.len() - j,
        {
            let o = all[j];
            proof {
                reveal(Seq::filter);
                assert(all@.subrange(0, j + 1).drop_last() =~= all@.subrange(0, j as int));
                assert(all@.subrange(0, j + 1).last() == o);
            }
            if o.object == NIL || o.object == poster {
                r.push(o);
            }
            j = j + 1;
        }
        proof {
            assert(all@.subrange(0, all@.len() as int) =~= all@);
        }
        r
    }
}

proof fn lemma_observers_update(t: Seq<(String, Vec<Observer>)>, i: int, k: String, list: Vec<Observer>, n: Seq<char>)
    requires
        0 <= i < t.len(),
        t[i].0@ == k@,
        forall|j: int| 0 <= j < i ==> t[j].0@ != k@,
    ensures
        observers_named(t.update(i, (k, list)), n) == if n == k@ { list@ } else { observers_named(t, n) },
    decreases i,
{
    if i > 0 {
        assert(t.update(i, (k, list)).drop_first() =~= t.drop_first().update(i - 1, (k, list)));
        lemma_observers_update(t.drop_first(), i - 1, k, list, n);
    } else {
        assert(t.update(i, (k, list)).drop_first() =~= t.drop_first());
    }
}

proof fn lemma_observers_push(t: Seq<(String, Vec<Observer>)>, k: String, list: Vec<Observer>, n: Seq<char>)
    requires
        forall|j: int| 0 <= j < t.len() ==> t[j].0@ != k@,
    ensures
        observers_named(t.push((k, list)), n) == if n == k@ { list@ } else { observers_named(t, n) },
    decreases t.len(),
{
    let u = t.push((k, list));
    if t.len() > 0 {
        assert(u[0] == t[0]);
        assert(u.drop_first() =~= t.drop_first().push((k, list)));
        lemma_observers_push(t.drop_first(), k, list, n);
        if t[0].0@ == n {
            assert(observers_named(u, n) == t[0].1@);
        } else {
            assert(observers_named(u, n) == observers_named(u.drop_first(), n));
        }
    } else {
        assert(u.drop_first() =~= Seq::<(String, Vec<Observer>)>::empty());
        assert(u[0].0@ == k@);
        if n != k@ {
            assert(observers_named(u, n) == observers_named(u.drop_first(), n));
        }
    }
}

proof fn lemma_observers_named_in(t: Seq<(String, Vec<Observer>)>, n: Seq<char>, x: int)
    requires
        0 <= x < observers_named(t, n).len(),
    ensures
        exists|j: int, k: int| 0 <= j < t.len() && 0 <= k < t[j].1@.len() && observers_named(t, n)[x] == #[trigger] t[j].1@[k],
    decreases t.len(),
{
    if t[0].0@ == n {
        assert(t[0].1@[x] == observers_named(t, n)[x]);
    } else {
        lemma_observers_named_in(t.drop_first(), n, x);
        let (j, k) = choose|j: int, k: int| 0 <= j < t.drop_first().len() && 0 <= k < t.drop_first()[j].1@.len()
            && observers_named(t.drop_first(), n)[x] == #[trigger] t.drop_first()[j].1@[k];
        assert(t[j + 1].1@[k] == observers_named(t, n)[x]);
    }
}

/// The state of an `NSMachPort`: none.
pub struct NSMachPortHostObject {}

/// The state of a `GLKViewController`.
pub struct GLKViewControllerHostObject {
    pub preferred_frames_per_second: i32,
}

impl GLKViewControllerHostObject {
    /// A controller that asks for 30 frames per second.
    pub fn new() -> (o: Self)
        ensures
            o.preferred_frames_per_second == 30,
    {
        GLKViewControllerHostObject { preferred_frames_per_second: 30 }
    }
}

/// The state of a `GLKView`: its delegate and its OpenGL ES context.
pub struct GLKViewHostObject {
    pub delegate: Id,
    pub context: Id,
}

/// The error domain of the error networking requests fail with.
pub open spec fn url_error_domain() -> Seq<char> {
    "NSURLErrorDomain"@
}

/// `NSURLErrorNotConnectedToInternet`.
pub const NS_URL_ERROR_NOT_CONNECTED_TO_INTERNET: i32 = -1009;

/// What a failed networking request reports: the error's domain, code and
/// localized description (networking is not emulated).
pub struct NetworkError {
    pub domain: String,
    pub code: i32,
    pub description: String,
}

/// The error every networking request fails with.
pub fn make_network_error() -> (e: NetworkError)
    ensures
        e.domain@ == url_error_domain(),
        e.code == NS_URL_ERROR_NOT_CONNECTED_TO_INTERNET,
        e.description@ == "The network connection was lost. (touchHLE: networking not supported)"@,
{
    NetworkError {
        domain: "NSURLErrorDomain".to_owned(),
        code: NS_URL_ERROR_NOT_CONNECTED_TO_INTERNET,
        description: "The network connection was lost. (touchHLE: networking not supported)".to_owned(),
    }
}

/// Whether a connection's delegate is told of the failure: only if there
/// is one.
pub fn notify_delegate_failure(delegate: Id) -> (r: Option<NetworkError>)
    ensures
        delegate == NIL ==> r is None,
        delegate != NIL ==> (r matches Some(e) && e.code == NS_URL_ERROR_NOT_CONNECTED_TO_INTERNET),
{
    if delegate == NIL {
        None
    } else {
        Some(make_network_error())
    }
}

/// `CMTimeMake`: the registers `r0` to `r3` a `CMTime` is returned in: the
/// value's low and high words, the timescale, and the flags (valid).
#[allow(non_snake_case)]
pub fn CMTimeMake(value: i64, timescale: i32) -> (r: (u32, u32, u32, u32))
    ensures
        r.0 + r.1 * 0x1_0000_0000 == (value as u64),
        r.2 == timescale as u32,
        r.3 == 1,
{
    let v = value as u64;
    let lo = (v & 0xffff_ffff) as u32;
    let hi = (v >> 32u64) as u32;
    assert(lo + hi * 0x1_0000_0000 == v) by (bit_vector)
        requires
            lo == (v & 0xffff_ffff) as u32,
            hi == (v >> 32u64) as u32,
    ;
    (lo, hi, timescale as u32, 1)
}

/// `vDSP_create_fftsetup`: a word holding `log2n`, the transform's size,
/// in memory allocated for it.
#[allow(non_snake_case)]
pub fn vDSP_create_fftsetup(mem: &mut Mem, log2n: u32, _radix: i32) -> (r: u32)
    requires
        old(mem).wf(),
        old(mem).free_space() >= 16,
    ensures
        final(mem).wf(),
        r == old(mem).next_free_spec(),
        final(mem).next_free_spec() == old(mem).next_free_spec() + 16,
        read_u32_spec(final(mem)@, r as int) == log2n,
{
    assert(crate::mem::alloc_size(4) == 16);
    let p = mem.allocate(4);
    proof {
        mem.lemma_wf();
    }
    mem.write_u32(p, log2n);
    p
}

/// `vDSP_destroy_fftsetup`: give the setup back (nothing for NULL).
#[allow(non_snake_case)]
pub fn vDSP_destroy_fftsetup(mem: &mut Mem, setup: u32)
    ensures
        *final(mem) == *old(mem),
{
    if setup != 0 {
        mem.free(setup);
    }
}

pub const KV_IMAGE_NO_ERROR: i32 = 0;
pub const KV_IMAGE_NULL_POINTER_ARGUMENT: i32 = -21772;
pub const KV_IMAGE_INVALID_PARAMETER: i32 = -21767;

/// `vImageConvert_AnyToAny`: no converter can be made, so there is
/// nothing to convert with: NULL arguments are reported as such, anything
/// else as an invalid parameter.
#[allow(non_snake_case)]
pub fn vImageConvert_AnyToAny(converter: u32, srcs: u32, dests: u32) -> (r: i32)
    ensures
        r == if converter == 0 || srcs == 0 || dests == 0 {
            KV_IMAGE_NULL_POINTER_ARGUMENT
        } else {
            KV_IMAGE_INVALID_PARAMETER
        },
{
    if converter == 0 {
        return KV_IMAGE_NULL_POINTER_ARGUMENT;
    }
    if srcs == 0 || dests == 0 {
        return KV_IMAGE_NULL_POINTER_ARGUMENT;
    }
    KV_IMAGE_INVALID_PARAMETER
}

/// A `vImage_Buffer` as 32-bit guests lay it out.
#[derive(Clone, Copy, PartialEq, Eq, Structural, Debug)]
pub struct VImageBuffer {
    pub data: u32,
    pub height: u32,
    pub width: u32,
    pub row_bytes: u32,
}

/// The buffer described at `a`.
pub open spec fn vimage_buffer_at(m: Seq<u8>, a: int) -> VImageBuffer {
    VImageBuffer {
        data: read_u32_spec(m, a),
        height: read_u32_spec(m, a + 4),
        width: read_u32_spec(m, a + 8),
        row_bytes: read_u32_spec(m, a + 12),
    }
}

/// The bytes of each row copied: the width in pixels, limited to both
/// buffers' row lengths.
pub open spec fn copy_line_bytes(s: VImageBuffer, d: VImageBuffer, pixel_size: u32) -> int {
    let w = s.width * pixel_size;
    let a = if w < s.row_bytes { w } else { s.row_bytes as int };
    if a < d.row_bytes { a } else { d.row_bytes as int }
}

/// Every row of both buffers lies in memory of length `len`.
pub open spec fn rows_in_memory(s: VImageBuffer, d: VImageBuffer, line: int, len: int) -> bool {
    forall|y: int| 0 <= y < s.height ==> #[trigger] (s.data + y * s.row_bytes) + line <= len
        && d.data + y * d.row_bytes + line <= len
}

/// Where row `y` of the buffer `b` starts.
pub open spec fn row_start(b: VImageBuffer, y: int) -> int {
    b.data + y * b.row_bytes
}

/// The address `k` is in one of the first `n` rows of `b`, each `line`
/// bytes long.
pub open spec fn in_rows(b: VImageBuffer, line: int, n: int, k: int) -> bool {
    exists|y: int| 0 <= y < n && row_start(b, y) <= k < #[trigger] row_start(b, y) + line
}

/// No source row overlaps a destination row.
pub open spec fn rows_apart(s: VImageBuffer, d: VImageBuffer, line: int) -> bool {
    forall|y1: int, y2: int| 0 <= y1 < s.height && 0 <= y2 < s.height ==> #[trigger] row_start(s, y1) + line
        <= #[trigger] row_start(d, y2) || row_start(d, y2) + line <= row_start(s, y1)
}

proof fn lemma_rows_ordered(b: VImageBuffer, line: int, y1: int, y2: int)
    requires
        0 <= y1 < y2,
        0 <= line <= b.row_bytes,
    ensures
        row_start(b, y1) + line <= row_start(b, y2),
{
    assert(y1 * b.row_bytes + b.row_bytes <= y2 * b.row_bytes) by (nonlinear_arith)
        requires
            y1 < y2,
            b.row_bytes >= 0,
    ;
}

fn read_vimage_buffer(mem: &Mem, a: u32) -> (b: VImageBuffer)
    requires
        mem.wf(),
        a + 16 <= mem@.len(),
    ensures
        b == vimage_buffer_at(mem@, a as int),
{
    proof {
        mem.lemma_wf();
    }
    VImageBuffer {
        data: mem.read_u32(a),
        height: mem.read_u32(a + 4),
        width: mem.read_u32(a + 8),
        row_bytes: mem.read_u32(a + 12),
    }
}

/// `vImageCopyBuffer`: copy the rows of the source buffer to the
/// destination, which must have the same size, each row as far as the
/// width and both row lengths allow.
#[allow(non_snake_case)]
pub fn vImageCopyBuffer(mem: &mut Mem, src: u32, dest: u32, pixel_size: u32) -> (r: i32)
    requires
        old(mem).wf(),
        src != 0 ==> src + 16 <= old(mem)@.len(),
        dest != 0 ==> dest + 16 <= old(mem)@.len(),
        src != 0 && dest != 0 ==> ({
            let s = vimage_buffer_at(old(mem)@, src as int);
            let d = vimage_buffer_at(old(mem)@, dest as int);
            rows_in_memory(s, d, copy_line_bytes(s, d, pixel_size), old(mem)@.len() as int)
        }),
    ensures
        final(mem).wf(),
        final(mem)@.len() == old(mem)@.len(),
        final(mem).next_free_spec() == old(mem).next_free_spec(),
        src == 0 || dest == 0 ==> r == KV_IMAGE_NULL_POINTER_ARGUMENT && final(mem)@ == old(mem)@,
        src != 0 && dest != 0 ==> ({
            let s = vimage_buffer_at(old(mem)@, src as int);
            let d = vimage_buffer_at(old(mem)@, dest as int);
            &&& (s.width != d.width || s.height != d.height) ==> r == KV_IMAGE_INVALID_PARAMETER && final(mem)@ == old(mem)@
            &&& (s.width == d.width && s.height == d.height) ==> {
                let line = copy_line_bytes(s, d, pixel_size);
                &&& r == KV_IMAGE_NO_ERROR
                &&& forall|k: int| 0 <= k < old(mem)@.len() && !in_rows(d, line, d.height as int, k)
                    ==> #[trigger] final(mem)@[k] == old(mem)@[k]
                &&& rows_apart(s, d, line) ==> forall|y: int, i: int| 0 <= y < s.height && 0 <= i < line
                    ==> #[trigger] final(mem)@[row_start(d, y) + i] == old(mem)@[row_start(s, y) + i]
            }
        }),
{
    if src == 0 || dest == 0 {
        return KV_IMAGE_NULL_POINTER_ARGUMENT;
    }
    let s = read_vimage_buffer(mem, src);
    let d = read_vimage_buffer(mem, dest);
    if s.width != d.width || s.height != d.height {
        return KV_IMAGE_INVALID_PARAMETER;
    }
    assert((s.width as u64) * (pixel_size as u64) <= u64::MAX) by (nonlinear_arith)
        requires
            s.width <= u32::MAX,
            pixel_size <= u32::MAX,
    ;
    let line64: u64 = (s.width as u64) * (pixel_size as u64);
    let line64 = if line64 < s.row_bytes as u64 { line64 } else { s.row_bytes as u64 };
    let line64 = if line64 < d.row_bytes as u64 { line64 } else { d.row_bytes as u64 };
    let line = line64 as u32;
    let ghost m0 = mem@;
    proof {
        mem.lemma_wf();
    }
    let mut y: u32 = 0;
    while y < s.height
        invariant
            mem.wf(),
            mem@.len() == m0.len(),
            m0.len() <= u32::MAX,
            mem.next_free_spec() == old(mem).next_free_spec(),
            line == copy_line_bytes(s, d, pixel_size),
            rows_in_memory(s, d, line as int, m0.len() as int),
            y <= s.height,
            s.height == d.height,
            line <= d.row_bytes,
            forall|k: int| 0 <= k < m0.len() && !in_rows(d, line as int, y as int, k) ==> #[trigger] mem@[k] == m0[k],
            rows_apart(s, d, line as int) ==> forall|y1: int, i: int| 0 <= y1 < y && 0 <= i < line
                ==> #[trigger] mem@[row_start(d, y1) + i] == m0[row_start(s, y1) + i],
        decreases s.height - y,
    {
        assert((s.data + y * s.row_bytes) + line <= m0.len());
        let src_row = s.data + y * s.row_bytes;
        let dst_row = d.data + y * d.row_bytes;
        let ghost before = mem@;
        mem.memmove(dst_row, src_row, line);
        proof {
            assert forall|k: int| 0 <= k < m0.len() && !in_rows(d, line as int, y + 1, k) implies #[trigger] mem@[k] == m0[k] by {
                if in_rows(d, line as int, y as int, k) {
                    let w = choose|w: int| 0 <= w < y && row_start(d, w) <= k < #[trigger] row_start(d, w) + line;
                    assert(0 <= w < y + 1 && row_start(d, w) <= k < row_start(d, w) + line);
                }
                if dst_row <= k < dst_row + line {
                    assert(0 <= y < y + 1 && row_start(d, y as int) <= k < row_start(d, y as int) + line);
                }
            }
            if rows_apart(s, d, line as int) {
                assert forall|y1: int, i: int| 0 <= y1 < y + 1 && 0 <= i < line
                    implies #[trigger] mem@[row_start(d, y1) + i] == m0[row_start(s, y1) + i] by {
                    if y1 < y {
                        lemma_rows_ordered(d, line as int, y1, y as int);
                        assert(before[row_start(d, y1) + i] == m0[row_start(s, y1) + i]);
                    } else {
                        assert(mem@[dst_row + i] == before[src_row + i]);
                        let k = src_row + i;
                        if in_rows(d, line as int, y as int, k) {
                            let w = choose|w: int| 0 <= w < y && row_start(d, w) <= k < #[trigger] row_start(d, w) + line;
                            assert(row_start(s, y as int) + line <= row_start(d, w) || row_start(d, w) + line <= row_start(s, y as int));
                        }
                    }
                }
            }
        }
        y = y + 1;
    }
    KV_IMAGE_NO_ERROR
}

} // verus!
