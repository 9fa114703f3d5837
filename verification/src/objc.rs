//! The Objective-C runtime: selectors, classes with their methods and
//! instance variables, and message dispatch.
//!
//! Objects, classes and selectors are guest addresses (`u32`); nil is 0. An
//! object's first word is its class (`isa`). Classes are registered after
//! their superclass, so walking up from any registered class reaches nil.
//! Sending a message is split in two: the runtime here decides which
//! implementation a message goes to; running it is the CPU's business.
use vstd::prelude::*;
use crate::assoc::{assoc, assoc_find, keys_unique, lemma_assoc_first, lemma_assoc_push};
use crate::mem::{Mem, read_u32_spec};
use crate::text::str_eq;

verus! {

/// An object pointer.
pub type Id = u32;

/// A selector: the address of its name.
pub type Sel = u32;

/// The nil object.
pub const NIL: Id = 0;

/// An implementation of a method.
#[derive(Clone, Copy, PartialEq, Eq, Structural, Debug)]
pub enum Imp {
    /// A host implementation, by its number in the emulator's table.
    Host(u32),
    /// Guest code at this address.
    Guest(u32),
}

/// What the runtime knows of a class.
pub struct ClassHostObject {
    pub name: String,
    pub superclass: Id,
    pub is_metaclass: bool,
    /// Methods by selector.
    pub methods: Vec<(Sel, Imp)>,
    /// Instance variables: name, the address of the word that holds the
    /// variable's offset, and its alignment.
    pub ivars: Vec<(String, u32, u32)>,
}

/// The runtime's state.
pub struct ObjC {
    /// Registered selectors: name and selector.
    selectors: Vec<(String, Sel)>,
    /// Registered classes, each after its superclass.
    classes: Vec<(Id, ClassHostObject)>,
    /// Classes that were sent `+initialize` (or needed none).
    initialized_classes: Vec<Id>,
}

/// The index of the first class `c` in the class table at or after `i`.
pub open spec fn class_index_from(classes: Seq<(Id, ClassHostObject)>, c: Id, i: int) -> Option<int>
    decreases classes.len() - i,
{
    if i < 0 || i >= classes.len() {
        None
    } else if classes[i].0 == c {
        Some(i)
    } else {
        class_index_from(classes, c, i + 1)
    }
}

/// The index of the class `c` in the class table.
pub open spec fn class_index(classes: Seq<(Id, ClassHostObject)>, c: Id) -> Option<int> {
    class_index_from(classes, c, 0)
}

/// Each class's superclass is nil or was registered before it, and no class
/// is registered twice.
pub open spec fn classes_ordered(classes: Seq<(Id, ClassHostObject)>) -> bool {
    &&& forall|k: int| 0 <= k < classes.len() ==> (#[trigger] classes[k]).1.superclass == NIL
        || exists|j: int| 0 <= j < k && #[trigger] classes[j].0 == classes[k].1.superclass
    &&& forall|i: int, j: int| 0 <= i < j < classes.len() ==> #[trigger] classes[i].0 != #[trigger] classes[j].0
    &&& forall|k: int| 0 <= k < classes.len() ==> (#[trigger] classes[k]).0 != NIL
}

/// The names of the selectors are all different, and so are the selectors.
pub open spec fn selectors_unique(selectors: Seq<(String, Sel)>) -> bool {
    forall|i: int, j: int| #![trigger selectors[i], selectors[j]] 0 <= i < j < selectors.len() ==> selectors[i].0@ != selectors[j].0@
        && selectors[i].1 != selectors[j].1
}

proof fn lemma_class_index_from(classes: Seq<(Id, ClassHostObject)>, c: Id, i: int)
    requires
        0 <= i,
        forall|a: int, b: int| 0 <= a < b < classes.len() ==> #[trigger] classes[a].0 != #[trigger] classes[b].0,
    ensures
        class_index_from(classes, c, i) matches Some(k) ==> i <= k < classes.len() && classes[k].0 == c,
        class_index_from(classes, c, i) is None ==> forall|k: int| i <= k < classes.len() ==> classes[k].0 != c,
        forall|k: int| i <= k < classes.len() && classes[k].0 == c ==> class_index_from(classes, c, i) == Some(k),
    decreases classes.len() - i,
{
    if i < classes.len() {
        lemma_class_index_from(classes, c, i + 1);
    }
}

proof fn lemma_selectors_push(s: Seq<(String, Sel)>, name: String, sel: Sel)
    requires
        selectors_unique(s),
        forall|i: int| #![trigger s[i]] 0 <= i < s.len() ==> s[i].0@ != name@ && s[i].1 != sel,
    ensures
        selectors_unique(s.push((name, sel))),
{
    let t = s.push((name, sel));
    assert forall|i: int, j: int| #![trigger t[i], t[j]] 0 <= i < j < t.len() implies t[i].0@ != t[j].0@ && t[i].1 != t[j].1 by {
        assert(t[i] == s[i]);
        if j == s.len() {
            assert(s[i].0@ != name@ && s[i].1 != sel);
        } else {
            assert(t[j] == s[j]);
            assert(s[i].0@ != s[j].0@ && s[i].1 != s[j].1);
        }
    }
}

/// Where classes are registered once each, a class is found exactly where
/// it is registered.
pub proof fn lemma_class_index(classes: Seq<(Id, ClassHostObject)>, c: Id)
    requires
        forall|i: int, j: int| 0 <= i < j < classes.len() ==> #[trigger] classes[i].0 != #[trigger] classes[j].0,
    ensures
        class_index(classes, c) matches Some(i) ==> 0 <= i < classes.len() && classes[i].0 == c,
        class_index(classes, c) is None ==> forall|k: int| 0 <= k < classes.len() ==> classes[k].0 != c,
        forall|k: int| 0 <= k < classes.len() && classes[k].0 == c ==> class_index(classes, c) == Some(k),
{
    lemma_class_index_from(classes, c, 0);
}

impl ObjC {
    pub closed spec fn classes(&self) -> Seq<(Id, ClassHostObject)> {
        self.classes@
    }

    pub closed spec fn selectors(&self) -> Seq<(String, Sel)> {
        self.selectors@
    }

    pub closed spec fn initialized(&self) -> Seq<Id> {
        self.initialized_classes@
    }

    pub closed spec fn wf(&self) -> bool {
        classes_ordered(self.classes@) && selectors_unique(self.selectors@)
    }

    /// An empty runtime.
    pub fn new() -> (o: ObjC)
        ensures
            o.wf(),
            o.classes().len() == 0,
            o.selectors().len() == 0,
            o.initialized().len() == 0,
    {
        ObjC { selectors: Vec::new(), classes: Vec::new(), initialized_classes: Vec::new() }
    }

    /// The name of a registered selector.
    pub fn get_selector_name(&self, sel: Sel) -> (r: &str)
        requires
            self.wf(),
            exists|i: int| 0 <= i < self.selectors().len() && #[trigger] self.selectors()[i].1 == sel,
        ensures
            exists|i: int| 0 <= i < self.selectors().len() && #[trigger] self.selectors()[i].1 == sel
                && self.selectors()[i].0@ == r@,
    {
        let mut i: usize = 0;
        while i < self.selectors.len()
            invariant
                i <= self.selectors@.len(),
                forall|j: int| 0 <= j < i ==> self.selectors@[j].1 != sel,
                exists|k: int| 0 <= k < self.selectors@.len() && #[trigger] self.selectors@[k].1 == sel,
            decreases self.selectors@.len() - i,
        {
            if self.selectors[i].1 == sel {
                assert(self.selectors()[i as int].1 == sel);
                return self.selectors[i].0.as_str();
            }
            i = i + 1;
        }
        proof {
            let k = choose|k: int| 0 <= k < self.selectors@.len() && #[trigger] self.selectors@[k].1 == sel;
            assert(self.selectors@[k].1 != sel);
        }
        ""
    }

    /// The selector registered under `name`.
    pub fn lookup_selector(&self, name: &str) -> (r: Option<Sel>)
        ensures
            r matches Some(s) ==> exists|i: int| 0 <= i < self.selectors().len() && #[trigger] self.selectors()[i].0@ == name@
                && self.selectors()[i].1 == s,
            r is None ==> forall|i: int| 0 <= i < self.selectors().len() ==> #[trigger] self.selectors()[i].0@ != name@,
    {
        let mut i: usize = 0;
        while i < self.selectors.len()
            invariant
                i <= self.selectors@.len(),
                forall|j: int| 0 <= j < i ==> #[trigger] self.selectors@[j].0@ != name@,
            decreases self.selectors@.len() - i,
        {
            if str_eq(self.selectors[i].0.as_str(), name) {
                assert(self.selectors()[i as int].0@ == name@);
                return Some(self.selectors[i].1);
            }
            i = i + 1;
        }
        None
    }

    /// Register a selector under a name that has none, at an address that no
    /// other selector has.
    pub fn register_selector(&mut self, name: String, sel: Sel)
        requires
            old(self).wf(),
            forall|i: int| #![trigger old(self).selectors()[i]] 0 <= i < old(self).selectors().len()
                ==> old(self).selectors()[i].0@ != name@ && old(self).selectors()[i].1 != sel,
        ensures
            final(self).wf(),
            final(self).selectors() == old(self).selectors().push((name, sel)),
            final(self).classes() == old(self).classes(),
            final(self).initialized() == old(self).initialized(),
    {
        let ghost before = self.selectors@;
        self.selectors.push((name, sel));
        proof {
            assert forall|i: int| #![trigger before[i]] 0 <= i < before.len() implies before[i].0@ != name@ && before[i].1 != sel by {
                assert(old(self).selectors()[i] == before[i]);
            }
            lemma_selectors_push(before, name, sel);
        }
    }

    /// Register a class whose superclass is nil or registered, under an
    /// address that no class has.
    pub fn register_class(&mut self, class: Id, object: ClassHostObject)
        requires
            old(self).wf(),
            class != NIL,
            class_index(old(self).classes(), class) is None,
            object.superclass == NIL || class_index(old(self).classes(), object.superclass) is Some,
        ensures
            final(self).wf(),
            final(self).classes() == old(self).classes().push((class, object)),
            final(self).selectors() == old(self).selectors(),
            final(self).initialized() == old(self).initialized(),
    {
        proof {
            lemma_class_index(self.classes@, class);
            lemma_class_index(self.classes@, object.superclass);
        }
        let ghost sup = object.superclass;
        self.classes.push((class, object));
        proof {
            let cs = self.classes@;
            let n = cs.len() - 1;
            assert forall|k: int| 0 <= k < cs.len() implies (#[trigger] cs[k]).1.superclass == NIL
                || exists|j: int| 0 <= j < k && #[trigger] cs[j].0 == cs[k].1.superclass by {
                if k == n && sup != NIL {
                    let j = class_index(old(self).classes(), sup)->0;
                    assert(cs[j].0 == sup);
                } else if k < n {
                    assert(old(self).classes()[k] == cs[k]);
                    if cs[k].1.superclass != NIL {
                        let j = choose|j: int| 0 <= j < k && #[trigger] old(self).classes()[j].0 == old(self).classes()[k].1.superclass;
                        assert(cs[j] == old(self).classes()[j]);
                    }
                }
            }
        }
    }

    /// The name of a registered class.
    pub fn class_name(&self, class: Id) -> (r: String)
        requires
            self.wf(),
            class_index(self.classes(), class) is Some,
        ensures
            r@ == self.classes()[class_index(self.classes(), class)->0].1.name@,
    {
        let k = self.find_class(class).unwrap();
        self.classes[k].1.name.clone()
    }

    /// The index of a class in the class table.
    fn find_class(&self, class: Id) -> (r: Option<usize>)
        requires
            self.wf(),
        ensures
            r matches Some(i) ==> class_index(self.classes(), class) == Some(i as int) && i < self.classes().len(),
            r is None ==> class_index(self.classes(), class) is None,
    {
        proof {
            lemma_class_index(self.classes@, class);
        }
        let mut i: usize = 0;
        while i < self.classes.len()
            invariant
                self.wf(),
                i <= self.classes@.len(),
                forall|j: int| 0 <= j < i ==> self.classes@[j].0 != class,
            decreases self.classes@.len() - i,
        {
            if self.classes[i].0 == class {
                proof {
                    lemma_class_index(self.classes@, class);
                }
                return Some(i);
            }
            i = i + 1;
        }
        None
    }
}

/// The superclass chain is strictly shorter from a registered class's
/// superclass.
pub proof fn lemma_superclass_index(classes: Seq<(Id, ClassHostObject)>, k: int)
    requires
        classes_ordered(classes),
        0 <= k < classes.len(),
        classes[k].1.superclass != NIL,
    ensures
        class_index(classes, classes[k].1.superclass) matches Some(j) && j < k,
{
    lemma_class_index(classes, classes[k].1.superclass);
    let j = choose|j: int| 0 <= j < k && #[trigger] classes[j].0 == classes[k].1.superclass;
}

/// The index of the first ivar named `name` at or after `i`.
pub open spec fn ivar_index_from(ivars: Seq<(String, u32, u32)>, name: Seq<char>, i: int) -> Option<int>
    decreases ivars.len() - i,
{
    if i < 0 || i >= ivars.len() {
        None
    } else if ivars[i].0@ == name {
        Some(i)
    } else {
        ivar_index_from(ivars, name, i + 1)
    }
}

/// The class table index of the superclass of the class at `k`, if it has
/// one and it comes before (as in a well-formed table it does).
pub open spec fn super_index(classes: Seq<(Id, ClassHostObject)>, k: int) -> Option<int> {
    let sup = classes[k].1.superclass;
    if sup == NIL {
        None
    } else {
        match class_index(classes, sup) {
            Some(j) => if 0 <= j < k { Some(j) } else { None },
            None => None,
        }
    }
}

/// Where the offset of ivar `name` is stored, looking in the class at `k`
/// and then up its superclasses.
pub open spec fn ivar_in_chain(classes: Seq<(Id, ClassHostObject)>, k: int, name: Seq<char>) -> Option<u32>
    decreases k,
{
    if k < 0 || k >= classes.len() {
        None
    } else {
        match ivar_index_from(classes[k].1.ivars@, name, 0) {
            Some(j) => Some(classes[k].1.ivars@[j].1),
            None => match super_index(classes, k) {
                Some(j) => if j < k { ivar_in_chain(classes, j, name) } else { None },
                None => None,
            },
        }
    }
}

/// The ivar names of the class at `k` and then of its superclasses.
pub open spec fn chain_ivar_names(classes: Seq<(Id, ClassHostObject)>, k: int) -> Seq<Seq<char>>
    decreases k,
{
    if k < 0 || k >= classes.len() {
        Seq::empty()
    } else {
        let own = classes[k].1.ivars@.map_values(|e: (String, u32, u32)| e.0@);
        match super_index(classes, k) {
            Some(j) => if j < k { own + chain_ivar_names(classes, j) } else { own },
            None => own,
        }
    }
}

/// Every ivar's offset word lies in memory of length `len`.
pub open spec fn ivar_offsets_in(classes: Seq<(Id, ClassHostObject)>, len: int) -> bool {
    forall|k: int, j: int| 0 <= k < classes.len() && 0 <= j < classes[k].1.ivars@.len()
        ==> #[trigger] classes[k].1.ivars@[j].1 + 4 <= len
}

fn find_ivar(ivars: &Vec<(String, u32, u32)>, name: &str) -> (r: Option<usize>)
    ensures
        r matches Some(j) ==> ivar_index_from(ivars@, name@, 0) == Some(j as int) && j < ivars@.len(),
        r is None ==> ivar_index_from(ivars@, name@, 0) is None,
{
    let mut i: usize = 0;
    while i < ivars.len()
        invariant
            i <= ivars@.len(),
            ivar_index_from(ivars@, name@, 0) == ivar_index_from(ivars@, name@, i as int),
        decreases ivars@.len() - i,
    {
        if str_eq(ivars[i].0.as_str(), name) {
            return Some(i);
        }
        i = i + 1;
    }
    None
}

impl ObjC {
    /// The index of the superclass of the class at `k`, if it has one.
    fn superclass_of(&self, k: usize) -> (r: Option<usize>)
        requires
            self.wf(),
            k < self.classes().len(),
        ensures
            r matches Some(j) ==> super_index(self.classes(), k as int) == Some(j as int) && j < k,
            r is None ==> super_index(self.classes(), k as int) is None && self.classes()[k as int].1.superclass == NIL,
    {
        let sup = self.classes[k].1.superclass;
        if sup == NIL {
            return None;
        }
        proof {
            lemma_superclass_index(self.classes@, k as int);
        }
        self.find_class(sup)
    }

    /// Look up the ivar `name` of object `obj`, in its class and up the
    /// superclasses: the address of the object's ivar, if there is one.
    pub fn object_lookup_ivar(&self, mem: &Mem, obj: Id, name: &String) -> (r: Option<u32>)
        requires
            self.wf(),
            mem.wf(),
            obj + 4 <= mem@.len(),
            class_index(self.classes(), read_u32_spec(mem@, obj as int)) is Some,
            ivar_offsets_in(self.classes(), mem@.len() as int),
        ensures
            r == match ivar_in_chain(self.classes(), class_index(self.classes(), read_u32_spec(mem@, obj as int))->0, name@) {
                Some(p) => Some(obj.wrapping_add(read_u32_spec(mem@, p as int))),
                None => None::<u32>,
            },
    {
        let isa = mem.read_u32(obj);
        let mut k = match self.find_class(isa) {
            Some(k) => k,
            None => {
                return None;
            },
        };
        let ghost k0 = k as int;
        loop
            invariant
                self.wf(),
                mem.wf(),
                k < self.classes@.len(),
                k0 == class_index(self.classes(), read_u32_spec(mem@, obj as int))->0,
                ivar_offsets_in(self.classes(), mem@.len() as int),
                ivar_in_chain(self.classes(), k0, name@) == ivar_in_chain(self.classes(), k as int, name@),
            decreases k,
        {
            match find_ivar(&self.classes[k].1.ivars, name.as_str()) {
                Some(j) => {
                    let p = self.classes[k].1.ivars[j].1;
                    assert(self.classes()[k as int].1.ivars@[j as int].1 + 4 <= mem@.len());
                    let offset = mem.read_u32(p);
                    return Some(obj.wrapping_add(offset));
                },
                None => {},
            }
            match self.superclass_of(k) {
                Some(j) => {
                    k = j;
                },
                None => {
                    return None;
                },
            }
        }
    }

    /// The names of the ivars of `class` and of its superclasses, class by
    /// class.
    pub fn debug_all_class_ivars_as_strings(&self, class: Id) -> (r: Vec<String>)
        requires
            self.wf(),
            class_index(self.classes(), class) is Some,
        ensures
            r@.map_values(|s: String| s@) == chain_ivar_names(self.classes(), class_index(self.classes(), class)->0),
    {
        let mut k = match self.find_class(class) {
            Some(k) => k,
            None => {
                return Vec::new();
            },
        };
        let ghost k0 = k as int;
        let mut out: Vec<String> = Vec::new();
        loop
            invariant
                self.wf(),
                k < self.classes@.len(),
                k0 == class_index(self.classes(), class)->0,
                chain_ivar_names(self.classes(), k0) == out@.map_values(|s: String| s@) + chain_ivar_names(self.classes(), k as int),
            decreases k,
        {
            let ghost before = out@;
            let ivars = &self.classes[k].1.ivars;
            let mut j: usize = 0;
            while j < ivars.len()
                invariant
                    j <= ivars@.len(),
                    out@.map_values(|s: String| s@) == before.map_values(|s: String| s@) + ivars@.subrange(0, j as int).map_values(
                        |e: (String, u32, u32)| e.0@,
                    ),
                decreases ivars@.len() - j,
            {
                let ghost prev = out@;
                out.push(ivars[j].0.clone());
                proof {
                    assert(out@.map_values(|s: String| s@) =~= prev.map_values(|s: String| s@).push(ivars@[j as int].0@));
                    assert(ivars@.subrange(0, j + 1).map_values(|e: (String, u32, u32)| e.0@) =~= ivars@.subrange(0, j as int).map_values(
                        |e: (String, u32, u32)| e.0@,
                    ).push(ivars@[j as int].0@));
                    assert(out@.map_values(|s: String| s@) =~= before.map_values(|s: String| s@) + ivars@.subrange(0, j + 1).map_values(
                        |e: (String, u32, u32)| e.0@,
                    ));
                }
                j = j + 1;
            }
            proof {
                assert(ivars@.subrange(0, ivars@.len() as int) =~= ivars@);
            }
            match self.superclass_of(k) {
                Some(sk) => {
                    proof {
                        assert(chain_ivar_names(self.classes(), k0) =~= out@.map_values(|s: String| s@) + chain_ivar_names(self.classes(), sk as int));
                    }
                    k = sk;
                },
                None => {
                    proof {
                        assert(chain_ivar_names(self.classes(), k0) =~= out@.map_values(|s: String| s@));
                    }
                    return out;
                },
            }
        }
    }
}

/// Messages nested deeper than this are not dispatched.
pub const MAX_DISPATCH_DEPTH: u32 = 128;

/// The implementation of `sel` in the class at `k` or, failing that, in its
/// superclasses.
pub open spec fn method_in_chain(classes: Seq<(Id, ClassHostObject)>, k: int, sel: Sel) -> Option<Imp>
    decreases k,
{
    if k < 0 || k >= classes.len() {
        None
    } else {
        match assoc(classes[k].1.methods@, sel) {
            Some(imp) => Some(imp),
            None => match super_index(classes, k) {
                Some(j) => if j < k { method_in_chain(classes, j, sel) } else { None },
                None => None,
            },
        }
    }
}

/// The implementation a message goes to, if any: `super2` is the class
/// whose superclass a message to `super` starts at; otherwise the search
/// starts at the receiver's class. Messages to nil, from too deep, to
/// objects of unknown classes or that nothing implements go nowhere (the
/// caller returns zero).
pub open spec fn dispatch(classes: Seq<(Id, ClassHostObject)>, m: Seq<u8>, receiver: Id, sel: Sel, super2: Option<Id>, depth: u32) -> Option<Imp> {
    if depth > MAX_DISPATCH_DEPTH || receiver == NIL {
        None
    } else {
        let start = match super2 {
            Some(c) => c,
            None => read_u32_spec(m, receiver as int),
        };
        if start == NIL {
            None
        } else {
            match class_index(classes, start) {
                None => None,
                Some(k) => if super2 is Some {
                    match super_index(classes, k) {
                        Some(j) => method_in_chain(classes, j, sel),
                        None => None,
                    }
                } else {
                    method_in_chain(classes, k, sel)
                },
            }
        }
    }
}

/// The layout of `struct objc_super`: the receiver, and the class whose
/// superclass the method search starts at.
#[allow(non_camel_case_types)]
#[derive(Clone, Copy, PartialEq, Eq, Structural, Debug)]
pub struct objc_super {
    pub receiver: Id,
    pub class: Id,
}

impl ObjC {
    /// The implementation of `sel` from the class at `k` up.
    fn find_method(&self, start: usize, sel: Sel) -> (r: Option<Imp>)
        requires
            self.wf(),
            start < self.classes().len(),
        ensures
            r == method_in_chain(self.classes(), start as int, sel),
    {
        let mut k = start;
        let ghost k0 = k as int;
        loop
            invariant
                self.wf(),
                k0 == start,
                k < self.classes@.len(),
                method_in_chain(self.classes(), k0, sel) == method_in_chain(self.classes(), k as int, sel),
            decreases k,
        {
            match assoc_find(&self.classes[k].1.methods, sel) {
                Some(i) => {
                    return Some(self.classes[k].1.methods[i].1);
                },
                None => {},
            }
            match self.superclass_of(k) {
                Some(j) => {
                    k = j;
                },
                None => {
                    return None;
                },
            }
        }
    }

    /// Decide where a message goes (see [dispatch]); `depth` counts the
    /// messages being dispatched, this one included.
    pub fn resolve_message(&self, mem: &Mem, receiver: Id, sel: Sel, super2: Option<Id>, depth: u32) -> (r: Option<Imp>)
        requires
            self.wf(),
            mem.wf(),
            super2 is None && receiver != NIL ==> receiver + 4 <= mem@.len(),
        ensures
            r == dispatch(self.classes(), mem@, receiver, sel, super2, depth),
    {
        if depth > MAX_DISPATCH_DEPTH || receiver == NIL {
            return None;
        }
        let start = match super2 {
            Some(c) => c,
            None => mem.read_u32(receiver),
        };
        if start == NIL {
            return None;
        }
        let k = match self.find_class(start) {
            Some(k) => k,
            None => {
                return None;
            },
        };
        if super2.is_some() {
            match self.superclass_of(k) {
                Some(j) => self.find_method(j, sel),
                None => None,
            }
        } else {
            self.find_method(k, sel)
        }
    }

    /// `objc_msgSendSuper2`: read the `objc_super` at `super_ptr` and decide
    /// where the message goes, starting at the superclass of its class.
    /// Returns the receiver, which the call gets as `self`, too.
    pub fn msg_send_super2(&self, mem: &Mem, super_ptr: u32, sel: Sel, depth: u32) -> (r: (Id, Option<Imp>))
        requires
            self.wf(),
            mem.wf(),
            super_ptr + 8 <= mem@.len(),
        ensures
            r.0 == read_u32_spec(mem@, super_ptr as int),
            r.1 == dispatch(self.classes(), mem@, r.0, sel, Some(read_u32_spec(mem@, super_ptr + 4)), depth),
    {
        proof {
            mem.lemma_wf();
        }
        let sup = objc_super { receiver: mem.read_u32(super_ptr), class: mem.read_u32(super_ptr + 4) };
        (sup.receiver, self.resolve_message(mem, sup.receiver, sel, Some(sup.class), depth))
    }
}

/// The rank of a class in the class table: one more than its index, 0 if it
/// is not registered.
pub open spec fn class_rank(classes: Seq<(Id, ClassHostObject)>, c: Id) -> nat {
    match class_index(classes, c) {
        Some(i) => (i + 1) as nat,
        None => 0,
    }
}

/// The classes that get `+initialize` before a message reaches `c`, in
/// order: those of its superclasses not initialized yet, then `c`, unless
/// it was initialized before.
pub open spec fn classes_to_initialize(classes: Seq<(Id, ClassHostObject)>, init: Seq<Id>, c: Id) -> Seq<Id>
    decreases class_rank(classes, c),
{
    if c == NIL || init.contains(c) {
        Seq::empty()
    } else {
        match class_index(classes, c) {
            None => Seq::empty(),
            Some(k) => {
                let sup = classes[k].1.superclass;
                if class_rank(classes, sup) < class_rank(classes, c) {
                    classes_to_initialize(classes, init, sup).push(c)
                } else {
                    seq![c]
                }
            },
        }
    }
}

/// The classes marked initialized before a message reaches `c`: the ones
/// that get `+initialize`, or `c` itself if the runtime does not know it.
pub open spec fn classes_marked(classes: Seq<(Id, ClassHostObject)>, init: Seq<Id>, c: Id) -> Seq<Id> {
    if c != NIL && !init.contains(c) && class_index(classes, c) is None {
        seq![c]
    } else {
        classes_to_initialize(classes, init, c)
    }
}

impl ObjC {
    fn is_initialized(&self, class: Id) -> (r: bool)
        ensures
            r == self.initialized().contains(class),
    {
        let mut i: usize = 0;
        while i < self.initialized_classes.len()
            invariant
                i <= self.initialized_classes@.len(),
                forall|j: int| 0 <= j < i ==> self.initialized_classes@[j] != class,
            decreases self.initialized_classes@.len() - i,
        {
            if self.initialized_classes[i] == class {
                assert(self.initialized_classes@[i as int] == class);
                return true;
            }
            i = i + 1;
        }
        false
    }

    /// Mark `class` and its superclasses initialized, superclasses first,
    /// and return the ones to send `+initialize` to (if they implement it).
    pub fn ensure_class_initialized(&mut self, class: Id) -> (r: Vec<Id>)
        requires
            old(self).wf(),
        ensures
            final(self).wf(),
            final(self).classes() == old(self).classes(),
            final(self).selectors() == old(self).selectors(),
            r@ == classes_to_initialize(old(self).classes(), old(self).initialized(), class),
            final(self).initialized() == old(self).initialized() + classes_marked(old(self).classes(), old(self).initialized(), class),
        decreases class_rank(old(self).classes(), class),
    {
        if class == NIL || self.is_initialized(class) {
            return Vec::new();
        }
        let k = match self.find_class(class) {
            Some(k) => k,
            None => {
                self.initialized_classes.push(class);
                return Vec::new();
            },
        };
        let sup = self.classes[k].1.superclass;
        proof {
            lemma_class_index(self.classes@, class);
            if sup != NIL {
                lemma_superclass_index(self.classes@, k as int);
            }
            lemma_class_index(self.classes@, sup);
        }
        let mut r = self.ensure_class_initialized(sup);
        proof {
            lemma_marked_above(old(self).classes(), old(self).initialized(), sup, class, k as int);
        }
        self.initialized_classes.push(class);
        r.push(class);
        proof {
            assert(self.initialized() =~= old(self).initialized() + classes_marked(old(self).classes(), old(self).initialized(), class));
        }
        r
    }
}

/// The class whose `+initialize` (with its superclasses') a message must
/// wait for: none for a message to nil, past the nesting limit, to a
/// superclass, or to an object whose class is nil or unknown; the receiver
/// itself when its class is a metaclass (the receiver is a class); else the
/// receiver's class.
pub open spec fn init_target(classes: Seq<(Id, ClassHostObject)>, m: Seq<u8>, receiver: Id, super2: Option<Id>, depth: u32) -> Option<Id> {
    if depth > MAX_DISPATCH_DEPTH || receiver == NIL || super2 is Some {
        None
    } else {
        let c = read_u32_spec(m, receiver as int);
        if c == NIL {
            None
        } else {
            match class_index(classes, c) {
                None => None,
                Some(k) => Some(if classes[k].1.is_metaclass { receiver } else { c }),
            }
        }
    }
}

impl ObjC {
    /// One message send, as `objc_msgSend` does it: first the classes that
    /// must get `+initialize` before the message (they are marked
    /// initialized, and returned in the order to send it), then where the
    /// message goes (see [dispatch]). `depth` counts the messages being
    /// dispatched, this one included.
    pub fn dispatch_message(&mut self, mem: &Mem, receiver: Id, sel: Sel, super2: Option<Id>, depth: u32) -> (r: (Vec<Id>, Option<Imp>))
        requires
            old(self).wf(),
            mem.wf(),
            super2 is None && receiver != NIL ==> receiver + 4 <= mem@.len(),
        ensures
            final(self).wf(),
            final(self).classes() == old(self).classes(),
            final(self).selectors() == old(self).selectors(),
            r.1 == dispatch(old(self).classes(), mem@, receiver, sel, super2, depth),
            match init_target(old(self).classes(), mem@, receiver, super2, depth) {
                Some(c) => {
                    &&& r.0@ == classes_to_initialize(old(self).classes(), old(self).initialized(), c)
                    &&& final(self).initialized() == old(self).initialized() + classes_marked(old(self).classes(), old(self).initialized(), c)
                },
                None => r.0@.len() == 0 && final(self).initialized() == old(self).initialized(),
            },
    {
        let mut inits: Vec<Id> = Vec::new();
        if depth <= MAX_DISPATCH_DEPTH && receiver != NIL && super2.is_none() {
            let c = mem.read_u32(receiver);
            if c != NIL {
                match self.find_class(c) {
                    Some(k) => {
                        let target = if self.classes[k].1.is_metaclass { receiver } else { c };
                        inits = self.ensure_class_initialized(target);
                    },
                    None => {},
                }
            }
        }
        let imp = self.resolve_message(mem, receiver, sel, super2, depth);
        (inits, imp)
    }
}

/// The classes marked on the way up from `sup`, the superclass of the class
/// `c` at `k`, are registered before `k`, so `c` is not among them.
proof fn lemma_marked_above(classes: Seq<(Id, ClassHostObject)>, init: Seq<Id>, sup: Id, c: Id, k: int)
    requires
        classes_ordered(classes),
        0 <= k < classes.len(),
        classes[k].0 == c,
        classes[k].1.superclass == sup,
    ensures
        !classes_marked(classes, init, sup).contains(c),
        class_rank(classes, sup) < class_rank(classes, c),
    decreases k,
{
    lemma_class_index(classes, c);
    lemma_class_index(classes, sup);
    if sup != NIL {
        lemma_superclass_index(classes, k);
        let j = class_index(classes, sup)->0;
        if !init.contains(sup) {
            let sup2 = classes[j].1.superclass;
            lemma_marked_above(classes, init, sup2, sup, j);
            lemma_to_initialize_below(classes, init, sup, j, c, k);
        }
    }
}

/// Every class marked on the way up from the class at `j` is registered at
/// an index of at most `j`.
proof fn lemma_to_initialize_below(classes: Seq<(Id, ClassHostObject)>, init: Seq<Id>, c: Id, j: int, other: Id, k: int)
    requires
        classes_ordered(classes),
        0 <= j < k < classes.len(),
        classes[j].0 == c,
        classes[k].0 == other,
    ensures
        !classes_to_initialize(classes, init, c).contains(other),
    decreases j,
{
    lemma_class_index(classes, c);
    if !init.contains(c) {
        let sup = classes[j].1.superclass;
        lemma_class_index(classes, sup);
        if sup != NIL {
            lemma_superclass_index(classes, j);
            let j2 = class_index(classes, sup)->0;
            lemma_to_initialize_below(classes, init, sup, j2, other, k);
        }
        assert(classes[j].0 != classes[k].0);
        let s = classes_to_initialize(classes, init, sup);
        assert(class_rank(classes, sup) < class_rank(classes, c));
        assert(classes_to_initialize(classes, init, c) == s.push(c));
        assert forall|i: int| 0 <= i < s.push(c).len() implies s.push(c)[i] != other by {
            if i < s.len() {
                assert(s.push(c)[i] == s[i]);
            }
        }
    }
}

/// `retain`: the object a `retain` message is sent to; nil is left alone
/// (and nil is the result).
pub fn retain(object: Id) -> (r: Option<Id>)
    ensures
        r == if object == NIL { None::<Id> } else { Some(object) },
{
    if object == NIL {
        None
    } else {
        Some(object)
    }
}

/// `release`: the object a `release` message is sent to; nil is left alone.
pub fn release(object: Id) -> (r: Option<Id>)
    ensures
        r == if object == NIL { None::<Id> } else { Some(object) },
{
    if object == NIL {
        None
    } else {
        Some(object)
    }
}

/// `autorelease`: the object an `autorelease` message is sent to; nil is
/// left alone (and nil is the result).
pub fn autorelease(object: Id) -> (r: Option<Id>)
    ensures
        r == if object == NIL { None::<Id> } else { Some(object) },
{
    if object == NIL {
        None
    } else {
        Some(object)
    }
}

/// What `objc_setProperty` stores for the new value.
#[derive(Clone, Copy, PartialEq, Eq, Structural, Debug)]
pub enum NewValue {
    /// nil.
    Nil,
    /// The value, retained.
    Retained,
    /// The result of `copyWithZone:`.
    Copy,
    /// The result of `mutableCopyWithZone:`.
    MutableCopy,
}

/// How `objc_setProperty` treats a value: nil stays nil; otherwise
/// `should_copy` 0 retains, 1 copies and 2 makes a mutable copy.
pub fn set_property_value(value: Id, should_copy: i8) -> (r: NewValue)
    requires
        value == NIL || 0 <= should_copy <= 2,
    ensures
        r == if value == NIL {
            NewValue::Nil
        } else if should_copy == 0 {
            NewValue::Retained
        } else if should_copy == 1 {
            NewValue::Copy
        } else {
            NewValue::MutableCopy
        },
{
    if value == NIL {
        NewValue::Nil
    } else {
        match should_copy {
            0 => NewValue::Retained,
            1 => NewValue::Copy,
            _ => NewValue::MutableCopy,
        }
    }
}

/// The address of the ivar at `offset` in `this`, for the property
/// accessors. Offsets below 4 would overlap the `isa` pointer.
pub fn property_address(this: Id, offset: i32) -> (r: u32)
    requires
        offset >= 4,
        this + offset <= u32::MAX,
    ensures
        r == this + offset,
{
    this + offset as u32
}

/// `objc_getProperty`: the ivar's value; an atomic read also retains it
/// (the second result says whether to send `retain`).
pub fn objc_getProperty(mem: &Mem, this: Id, offset: i32, atomic: bool) -> (r: (Id, bool))
    requires
        mem.wf(),
        offset >= 4,
        this + offset + 4 <= mem@.len(),
    ensures
        r.0 == read_u32_spec(mem@, this + offset),
        r.1 == (atomic && r.0 != NIL),
{
    proof {
        mem.lemma_wf();
    }
    let ivar = property_address(this, offset);
    let value = mem.read_u32(ivar);
    (value, atomic && retain(value).is_some())
}

/// `objc_setProperty`: store the new value (see [set_property_value]) in
/// the ivar and say whether the old value is to be released.
pub fn objc_setProperty(mem: &mut Mem, this: Id, offset: i32, new_value: Id) -> (r: bool)
    requires
        old(mem).wf(),
        offset >= 4,
        this + offset + 4 <= old(mem)@.len(),
    ensures
        final(mem).wf(),
        final(mem).next_free_spec() == old(mem).next_free_spec(),
        final(mem)@ == crate::mem::write_u32_spec(old(mem)@, this + offset, new_value),
        r == (read_u32_spec(old(mem)@, this + offset) != NIL),
{
    proof {
        mem.lemma_wf();
    }
    let ivar = property_address(this, offset);
    let old = mem.read_u32(ivar);
    mem.write_u32(ivar, new_value);
    release(old).is_some()
}

/// `objc_copyStruct`: copy `size` bytes; the ranges may overlap.
pub fn objc_copyStruct(mem: &mut Mem, dest: u32, src: u32, size: u32, _atomic: bool, _has_strong: bool)
    requires
        old(mem).wf(),
        src + size <= old(mem)@.len(),
        dest + size <= old(mem)@.len(),
    ensures
        final(mem).wf(),
        final(mem)@.len() == old(mem)@.len(),
        final(mem).next_free_spec() == old(mem).next_free_spec(),
        forall|i: int| 0 <= i < size ==> #[trigger] final(mem)@[dest + i] == old(mem)@[src + i],
        forall|i: int| 0 <= i < old(mem)@.len() && !(dest <= i < dest + size) ==> #[trigger] final(mem)@[i] == old(mem)@[i],
{
    mem.memmove(dest, src, size);
}

/// `objc_setProperty_nonatomic_copy`: store `value` at `offset` in `obj`
/// (nothing for nil) and say whether to retain it.
pub fn objc_setProperty_nonatomic_copy(mem: &mut Mem, obj: Id, offset: u32, value: Id) -> (r: bool)
    requires
        old(mem).wf(),
        obj != NIL ==> obj + offset + 4 <= old(mem)@.len(),
    ensures
        final(mem).wf(),
        final(mem).next_free_spec() == old(mem).next_free_spec(),
        obj == NIL ==> final(mem)@ == old(mem)@ && !r,
        obj != NIL ==> final(mem)@ == crate::mem::write_u32_spec(old(mem)@, obj + offset, value) && r == (value != NIL),
{
    proof {
        mem.lemma_wf();
    }
    if obj != NIL {
        mem.write_u32(obj + offset, value);
        retain(value).is_some()
    } else {
        false
    }
}

/// `objc_retainAutorelease`: a non-nil object gets `retain` and then
/// `autorelease`; the result is the object.
pub fn objc_retainAutorelease(obj: Id) -> (r: (Id, Option<Id>, Option<Id>))
    ensures
        r.0 == obj,
        r.1 == retain_target(obj),
        r.2 == retain_target(obj),
{
    if obj != NIL {
        (obj, retain(obj), autorelease(obj))
    } else {
        (obj, None, None)
    }
}

/// The object a retain or release message goes to.
pub open spec fn retain_target(obj: Id) -> Option<Id> {
    if obj == NIL { None } else { Some(obj) }
}

/// `_Block_object_dispose` for `__block` variables: nothing to do.
pub fn block_object_dispose(_object: u32, flags: i32)
    requires
        flags == 8,
{
}

/// `dispatch_once_f`: whether to call the initialization function now. It
/// is called once per predicate, which is then set to -1; NULL predicates
/// and functions are ignored.
pub fn dispatch_once_f(mem: &mut Mem, predicate: u32, function: u32) -> (r: bool)
    requires
        old(mem).wf(),
        predicate != 0 ==> predicate + 4 <= old(mem)@.len(),
    ensures
        final(mem).wf(),
        final(mem).next_free_spec() == old(mem).next_free_spec(),
        r == (predicate != 0 && function != 0 && read_u32_spec(old(mem)@, predicate as int) != 0xffff_ffff),
        r ==> final(mem)@ == crate::mem::write_u32_spec(old(mem)@, predicate as int, 0xffff_ffff),
        !r ==> final(mem)@ == old(mem)@,
{
    if predicate == 0 || function == 0 {
        return false;
    }
    if mem.read_u32(predicate) != 0xffff_ffff {
        mem.write_u32(predicate, 0xffff_ffff);
        true
    } else {
        false
    }
}

/// Allocate a NUL-terminated copy of `bytes` and return its address.
pub(crate) fn alloc_cstr(mem: &mut Mem, bytes: &[u8]) -> (a: u32)
    requires
        old(mem).wf(),
        bytes@.len() + 1 <= u32::MAX,
        crate::mem::alloc_size((bytes@.len() + 1) as u32) <= old(mem).free_space(),
    ensures
        final(mem).wf(),
        a == old(mem).next_free_spec(),
        final(mem).next_free_spec() == old(mem).next_free_spec() + crate::mem::alloc_size((bytes@.len() + 1) as u32),
        (forall|i: int| 0 <= i < bytes@.len() ==> bytes@[i] != 0) ==> crate::mem::cstr_spec(final(mem)@, a as int) == Some(bytes@),
        forall|i: int| 0 <= i < bytes@.len() ==> #[trigger] final(mem)@[a + i] == bytes@[i],
        final(mem)@[a + bytes@.len()] == 0,
{
    proof {
        mem.lemma_wf();
        crate::mem::lemma_alloc_size((bytes@.len() + 1) as u32);
    }
    let n = bytes.len() as u32;
    let a = mem.allocate(n + 1);
    proof {
        mem.lemma_wf();
    }
    let mut i: u32 = 0;
    while i < n
        invariant
            mem.wf(),
            mem@.len() <= u32::MAX,
            n == bytes@.len(),
            a + n + 1 <= mem@.len(),
            i <= n,
            mem.next_free_spec() == old(mem).next_free_spec() + crate::mem::alloc_size((n + 1) as u32),
            forall|j: int| 0 <= j < i ==> #[trigger] mem@[a + j] == bytes@[j],
            mem@[a + n] == 0,
        decreases n - i,
    {
        mem.write_u8(a + i, bytes[i as usize]);
        i = i + 1;
    }
    proof {
        if forall|i: int| 0 <= i < bytes@.len() ==> bytes@[i] != 0 {
            lemma_cstr_written(mem@, a as int, bytes@);
        }
    }
    a
}

proof fn lemma_cstr_written(m: Seq<u8>, a: int, bytes: Seq<u8>)
    requires
        0 <= a,
        a + bytes.len() < m.len(),
        forall|i: int| 0 <= i < bytes.len() ==> #[trigger] m[a + i] == bytes[i],
        forall|i: int| 0 <= i < bytes.len() ==> bytes[i] != 0,
        m[a + bytes.len()] == 0,
    ensures
        crate::mem::cstr_spec(m, a) == Some(bytes),
{
    lemma_cstr_from(m, a, bytes, a);
    assert forall|k: int| 0 <= k < bytes.len() implies #[trigger] m.subrange(a, a + bytes.len())[k] == bytes[k] by {
        assert(m[a + k] == bytes[k]);
    }
    assert(m.subrange(a, a + bytes.len()) =~= bytes);
}

proof fn lemma_cstr_from(m: Seq<u8>, a: int, bytes: Seq<u8>, i: int)
    requires
        0 <= a <= i <= a + bytes.len(),
        a + bytes.len() < m.len(),
        forall|k: int| 0 <= k < bytes.len() ==> #[trigger] m[a + k] == bytes[k],
        forall|k: int| 0 <= k < bytes.len() ==> bytes[k] != 0,
        m[a + bytes.len()] == 0,
    ensures
        crate::mem::cstr_from(m, a, i) == Some(m.subrange(a, a + bytes.len())),
    decreases a + bytes.len() - i,
{
    if i < a + bytes.len() {
        assert(m[a + (i - a)] == bytes[i - a]);
        lemma_cstr_from(m, a, bytes, i + 1);
    }
}

impl ObjC {
    /// `class_getName`: a NUL-terminated copy of the class's name, in
    /// memory allocated for it; NULL for nil.
    pub fn class_getName(&self, mem: &mut Mem, class: Id) -> (r: u32)
        requires
            self.wf(),
            old(mem).wf(),
            class != NIL ==> class_index(self.classes(), class) is Some,
            class != NIL ==> 4 * self.classes()[class_index(self.classes(), class)->0].1.name@.len() + 16 <= old(mem).free_space(),
        ensures
            final(mem).wf(),
            class == NIL ==> r == 0 && *final(mem) == *old(mem),
            class != NIL ==> {
                let bytes = crate::text::utf8_encode(self.classes()[class_index(self.classes(), class)->0].1.name@);
                &&& r == old(mem).next_free_spec()
                &&& forall|i: int| 0 <= i < bytes.len() ==> #[trigger] final(mem)@[r + i] == bytes[i]
                &&& final(mem)@[r + bytes.len()] == 0
            },
    {
        if class == NIL {
            return 0;
        }
        let k = self.find_class(class).unwrap();
        let bytes = crate::text::utf8_bytes(self.classes[k].1.name.as_str());
        proof {
            old(mem).lemma_wf();
            crate::mem::lemma_alloc_size((bytes@.len() + 1) as u32);
        }
        alloc_cstr(mem, bytes.as_slice())
    }
}

/// `protocol_getName`: protocols are not known; every protocol is named
/// "FakedProtocol", in memory allocated for it.
pub fn protocol_getName(mem: &mut Mem, _protocol: Id) -> (r: u32)
    requires
        old(mem).wf(),
        old(mem).free_space() >= 16,
    ensures
        final(mem).wf(),
        r == old(mem).next_free_spec(),
        final(mem).next_free_spec() == old(mem).next_free_spec() + 16,
        crate::mem::cstr_spec(final(mem)@, r as int) == Some(seq![
            'F' as u8, 'a' as u8, 'k' as u8, 'e' as u8, 'd' as u8, 'P' as u8, 'r' as u8,
            'o' as u8, 't' as u8, 'o' as u8, 'c' as u8, 'o' as u8, 'l' as u8,
        ]),
{
    let name: Vec<u8> = vec![0x46, 0x61, 0x6b, 0x65, 0x64, 0x50, 0x72, 0x6f, 0x74, 0x6f, 0x63, 0x6f, 0x6c];
    assert(crate::mem::alloc_size(14) == 16);
    let a = alloc_cstr(mem, name.as_slice());
    assert(name@ =~= seq![
        'F' as u8, 'a' as u8, 'k' as u8, 'e' as u8, 'd' as u8, 'P' as u8, 'r' as u8,
        'o' as u8, 't' as u8, 'o' as u8, 'c' as u8, 'o' as u8, 'l' as u8,
    ]);
    a
}


#[verifier::external_type_specification]
#[verifier::external_body]
pub struct ExTypeId(std::any::TypeId);

/// Trusted: wraps `std::any::TypeId::of`; nothing is claimed of the result.
#[verifier::external_body]
fn type_id_of<T: ?Sized + 'static>() -> std::any::TypeId {
    std::any::TypeId::of::<T>()
}

/// A message signature (return type and arguments) that the host may send:
/// identifies it, so that the receiving method's own signature can be
/// checked against it.
pub trait MsgSendSignature: 'static {
    /// The signature's type identifier, and the word `type` as its name.
    fn type_info() -> (r: (std::any::TypeId, &'static str))
        default_ensures
            r.1@ == "type"@,
    {
        proof {
            reveal_strlit("type");
        }
        (type_id_of::<Self>(), "type")
    }
}

/// A message signature sent to a superclass, and the same signature sent to
/// an ordinary receiver.
pub trait MsgSendSuperSignature: 'static {
    type WithoutSuper: MsgSendSignature;
}


/// The offset word and alignment of the ivar `n`, if there is one.
pub open spec fn ivar_lookup(ivars: Seq<(String, u32, u32)>, n: Seq<char>) -> Option<(u32, u32)> {
    match ivar_index_from(ivars, n, 0) {
        Some(j) => Some((ivars[j].1, ivars[j].2)),
        None => None,
    }
}

proof fn lemma_ivar_index_update_same_name(ivars: Seq<(String, u32, u32)>, j: int, e: (String, u32, u32), n: Seq<char>, i: int)
    requires
        0 <= j < ivars.len(),
        e.0@ == ivars[j].0@,
    ensures
        ivar_index_from(ivars.update(j, e), n, i) == ivar_index_from(ivars, n, i),
    decreases ivars.len() - i,
{
    if 0 <= i < ivars.len() {
        lemma_ivar_index_update_same_name(ivars, j, e, n, i + 1);
    }
}

proof fn lemma_ivar_index_push(ivars: Seq<(String, u32, u32)>, e: (String, u32, u32), n: Seq<char>, i: int)
    requires
        0 <= i <= ivars.len(),
    ensures
        ivar_index_from(ivars.push(e), n, i) == match ivar_index_from(ivars, n, i) {
            Some(k) => Some(k),
            None => if e.0@ == n { Some(ivars.len() as int) } else { None },
        },
    decreases ivars.len() - i,
{
    let pushed = ivars.push(e);
    if i < ivars.len() {
        assert(pushed[i] == ivars[i]);
        lemma_ivar_index_push(ivars, e, n, i + 1);
    } else {
        assert(pushed[i] == e);
        assert(ivar_index_from(pushed, n, i + 1) is None);
    }
}

proof fn lemma_ivar_index_found(ivars: Seq<(String, u32, u32)>, n: Seq<char>, i: int)
    ensures
        ivar_index_from(ivars, n, i) matches Some(k) ==> i <= k < ivars.len() && ivars[k].0@ == n,
    decreases ivars.len() - i,
{
    if 0 <= i < ivars.len() && ivars[i].0@ != n {
        lemma_ivar_index_found(ivars, n, i + 1);
    }
}

/// Address of entry `i` of the ivar list at `list` (entries of `entsize`
/// bytes after an eight-byte header).
pub open spec fn ivar_entry(list: int, entsize: int, i: int) -> int {
    list + 8 + i * entsize
}

/// The ivar `n` after the first `k` entries of the ivar list at `list` were
/// added to `old`: a later entry of the same name replaces an earlier one.
pub open spec fn ivar_lookup_after(m: Seq<u8>, list: int, entsize: int, k: int, old: Seq<(String, u32, u32)>, n: Seq<char>) -> Option<(u32, u32)>
    decreases k,
{
    if k <= 0 {
        ivar_lookup(old, n)
    } else {
        let a = ivar_entry(list, entsize, k - 1);
        if crate::libc::guest_str(m, read_u32_spec(m, a + 4) as int) == Some(n) {
            Some((read_u32_spec(m, a), read_u32_spec(m, a + 12)))
        } else {
            ivar_lookup_after(m, list, entsize, k - 1, old, n)
        }
    }
}

impl ClassHostObject {
    /// Add (or replace) the ivar `name`.
    pub fn add_ivar(&mut self, name: String, offset: u32, alignment: u32)
        ensures
            forall|n: Seq<char>| #[trigger] ivar_lookup(final(self).ivars@, n)
                == if n == name@ { Some((offset, alignment)) } else { ivar_lookup(old(self).ivars@, n) },
            final(self).name == old(self).name,
            final(self).superclass == old(self).superclass,
            final(self).is_metaclass == old(self).is_metaclass,
            final(self).methods == old(self).methods,
    {
        let ghost before = self.ivars@;
        match find_ivar(&self.ivars, name.as_str()) {
            Some(j) => {
                let ghost e = (name, offset, alignment);
                proof {
                    lemma_ivar_index_found(before, name@, 0);
                }
                self.ivars.set(j, (name, offset, alignment));
                proof {
                    assert forall|n: Seq<char>| #[trigger] ivar_lookup(self.ivars@, n)
                        == if n == e.0@ { Some((offset, alignment)) } else { ivar_lookup(before, n) } by {
                        lemma_ivar_index_update_same_name(before, j as int, e, n, 0);
                        lemma_ivar_index_found(before, n, 0);
                        assert(self.ivars@[j as int] == e);
                        if let Some(k) = ivar_index_from(before, n, 0) {
                            if k != j {
                                assert(self.ivars@[k] == before[k]);
                            }
                        }
                    }
                }
            },
            None => {
                let ghost e = (name, offset, alignment);
                self.ivars.push((name, offset, alignment));
                proof {
                    assert(self.ivars@[before.len() as int] == e);
                    assert forall|n: Seq<char>| #[trigger] ivar_lookup(self.ivars@, n)
                        == if n == e.0@ { Some((offset, alignment)) } else { ivar_lookup(before, n) } by {
                        lemma_ivar_index_push(before, e, n, 0);
                        lemma_ivar_index_found(before, n, 0);
                        if let Some(k) = ivar_index_from(before, n, 0) {
                            assert(self.ivars@[k] == before[k]);
                        }
                    }
                }
            },
        }
    }

    /// Add the ivars of the list at `ivar_list_ptr` in an app binary: each
    /// entry gives the address of the ivar's offset word, its name and its
    /// alignment.
    pub fn add_ivars_from_bin(&mut self, ivar_list_ptr: u32, mem: &Mem)
        requires
            mem.wf(),
            ivar_list_ptr + 8 <= mem@.len(),
            read_u32_spec(mem@, ivar_list_ptr as int) >= 20,
            ivar_entry(ivar_list_ptr as int, read_u32_spec(mem@, ivar_list_ptr as int) as int,
                read_u32_spec(mem@, ivar_list_ptr + 4) as int) <= mem@.len(),
            forall|i: int| 0 <= i < read_u32_spec(mem@, ivar_list_ptr + 4) ==> (#[trigger] crate::libc::guest_str(mem@,
                read_u32_spec(mem@, ivar_entry(ivar_list_ptr as int, read_u32_spec(mem@, ivar_list_ptr as int) as int, i) + 4) as int)) is Some,
        ensures
            forall|n: Seq<char>| #[trigger] ivar_lookup(final(self).ivars@, n) == ivar_lookup_after(mem@, ivar_list_ptr as int,
                read_u32_spec(mem@, ivar_list_ptr as int) as int, read_u32_spec(mem@, ivar_list_ptr + 4) as int, old(self).ivars@, n),
            final(self).name == old(self).name,
            final(self).superclass == old(self).superclass,
            final(self).is_metaclass == old(self).is_metaclass,
            final(self).methods == old(self).methods,
    {
        proof {
            mem.lemma_wf();
        }
        let entsize = mem.read_u32(ivar_list_ptr);
        let count = mem.read_u32(ivar_list_ptr + 4);
        let ghost list = ivar_list_ptr as int;
        let mut addr = ivar_list_ptr + 8;
        let mut i: u32 = 0;
        while i < count
            invariant
                mem.wf(),
                mem@.len() <= u32::MAX,
                entsize >= 20,
                i <= count,
                addr == ivar_entry(list, entsize as int, i as int),
                ivar_entry(list, entsize as int, count as int) <= mem@.len(),
                forall|k: int| 0 <= k < count ==> (#[trigger] crate::libc::guest_str(mem@,
                    read_u32_spec(mem@, ivar_entry(list, entsize as int, k) + 4) as int)) is Some,
                forall|n: Seq<char>| #[trigger] ivar_lookup(self.ivars@, n)
                    == ivar_lookup_after(mem@, list, entsize as int, i as int, old(self).ivars@, n),
                self.name == old(self).name,
                self.superclass == old(self).superclass,
                self.is_metaclass == old(self).is_metaclass,
                self.methods == old(self).methods,
            decreases count - i,
        {
            assert(i * entsize + entsize <= count * entsize) by (nonlinear_arith)
                requires
                    i < count,
            ;
            assert(ivar_entry(list, entsize as int, i + 1) == addr + entsize) by (nonlinear_arith)
                requires
                    addr == list + 8 + i * entsize,
            ;
            let offset = mem.read_u32(addr);
            let name_ptr = mem.read_u32(addr + 4);
            let alignment = mem.read_u32(addr + 12);
            assert(crate::libc::guest_str(mem@, read_u32_spec(mem@, ivar_entry(list, entsize as int, i as int) + 4) as int) is Some);
            let name = crate::libc::read_guest_string(mem, name_ptr).unwrap();
            self.add_ivar(name, offset, alignment);
            addr = addr + entsize;
            i = i + 1;
        }
    }
}

} // verus!

verus! {

/// The class `n` steps up the superclass chain from the class `c` (nil past
/// the root or past a class the table does not know).
pub open spec fn ancestor(classes: Seq<(Id, ClassHostObject)>, c: Id, n: nat) -> Id
    decreases n,
{
    if n == 0 {
        c
    } else {
        match class_index(classes, c) {
            Some(k) => ancestor(classes, classes[k].1.superclass, (n - 1) as nat),
            None => NIL,
        }
    }
}

/// The class `c` is registered and does not implement `sel` itself.
pub open spec fn lacks_method(classes: Seq<(Id, ClassHostObject)>, c: Id, sel: Sel) -> bool {
    &&& c != NIL
    &&& class_index(classes, c) matches Some(k) && assoc(classes[k].1.methods@, sel) is None
}

/// A method is inherited from any distance: when the classes from `c` up
/// to (not including) its `n`th ancestor do not implement `sel` and that
/// ancestor does, the search from `c` finds the ancestor's implementation.
pub proof fn lemma_method_inherited(classes: Seq<(Id, ClassHostObject)>, c: Id, sel: Sel, n: nat, imp: Imp)
    requires
        classes_ordered(classes),
        forall|t: nat| t < n ==> lacks_method(classes, #[trigger] ancestor(classes, c, t), sel),
        ancestor(classes, c, n) != NIL,
        class_index(classes, ancestor(classes, c, n)) matches Some(a)
            && assoc(classes[a].1.methods@, sel) == Some(imp),
    ensures
        class_index(classes, c) matches Some(k) && method_in_chain(classes, k, sel) == Some(imp),
    decreases n,
{
    lemma_class_index(classes, c);
    if n == 0 {
        assert(ancestor(classes, c, 0) == c);
    } else {
        assert(lacks_method(classes, ancestor(classes, c, 0), sel));
        let k = class_index(classes, c)->0;
        let sup = classes[k].1.superclass;
        assert forall|t: nat| t < (n - 1) as nat implies lacks_method(classes, #[trigger] ancestor(classes, sup, t), sel) by {
            assert(ancestor(classes, c, t + 1) == ancestor(classes, sup, t));
            assert(lacks_method(classes, ancestor(classes, c, t + 1), sel));
        }
        assert(ancestor(classes, c, n) == ancestor(classes, sup, (n - 1) as nat));
        if sup == NIL {
            // Past the root there is nothing, so no ancestor implements `sel`.
            if n - 1 == 0 {
                assert(ancestor(classes, sup, 0) == NIL);
            } else {
                lemma_class_index(classes, NIL);
                assert(class_index(classes, NIL) is None);
                assert(ancestor(classes, sup, (n - 1) as nat) == NIL);
            }
        } else {
            lemma_superclass_index(classes, k);
            lemma_method_inherited(classes, sup, sel, (n - 1) as nat, imp);
            let j = class_index(classes, sup)->0;
            assert(super_index(classes, k) == Some(j));
        }
    }
}

/// A method that no class on the chain implements is not found: when the
/// classes from `c` up to the root (its `n`th ancestor is nil) do not
/// implement `sel`, the search from `c` finds nothing.
pub proof fn lemma_method_not_inherited(classes: Seq<(Id, ClassHostObject)>, c: Id, sel: Sel, n: nat)
    requires
        classes_ordered(classes),
        forall|t: nat| t < n ==> lacks_method(classes, #[trigger] ancestor(classes, c, t), sel),
        ancestor(classes, c, n) == NIL,
    ensures
        class_index(classes, c) matches Some(k) ==> method_in_chain(classes, k, sel) is None,
    decreases n,
{
    lemma_class_index(classes, c);
    if n > 0 {
        assert(lacks_method(classes, ancestor(classes, c, 0), sel));
        let k = class_index(classes, c)->0;
        let sup = classes[k].1.superclass;
        assert forall|t: nat| t < (n - 1) as nat implies lacks_method(classes, #[trigger] ancestor(classes, sup, t), sel) by {
            assert(ancestor(classes, c, t + 1) == ancestor(classes, sup, t));
            assert(lacks_method(classes, ancestor(classes, c, t + 1), sel));
        }
        assert(ancestor(classes, c, n) == ancestor(classes, sup, (n - 1) as nat));
        if sup != NIL {
            lemma_superclass_index(classes, k);
            lemma_class_index(classes, sup);
            lemma_method_not_inherited(classes, sup, sel, (n - 1) as nat);
            let j = class_index(classes, sup)->0;
            assert(super_index(classes, k) == Some(j));
        }
    }
}

/// A message to an object whose class does not implement `sel`, with a
/// superclass `n` levels up that does (and none in between), goes to that
/// superclass's implementation.
pub proof fn lemma_dispatch_inherited(classes: Seq<(Id, ClassHostObject)>, m: Seq<u8>, receiver: Id, sel: Sel, depth: u32, n: nat, imp: Imp)
    requires
        classes_ordered(classes),
        receiver != NIL,
        depth <= MAX_DISPATCH_DEPTH,
        forall|t: nat| t < n ==> lacks_method(classes, #[trigger] ancestor(classes, read_u32_spec(m, receiver as int), t), sel),
        ancestor(classes, read_u32_spec(m, receiver as int), n) != NIL,
        class_index(classes, ancestor(classes, read_u32_spec(m, receiver as int), n)) matches Some(a)
            && assoc(classes[a].1.methods@, sel) == Some(imp),
    ensures
        dispatch(classes, m, receiver, sel, None, depth) == Some(imp),
{
    let c = read_u32_spec(m, receiver as int);
    lemma_method_inherited(classes, c, sel, n, imp);
    if c == NIL {
        lemma_class_index(classes, NIL);
    }
}

/// A message to `super` from the class `c` starts at `c`'s superclass:
/// when `sel` is implemented `n` levels above that superclass (and not in
/// between), the message goes to that implementation, whatever `c` and the
/// receiver's own class implement.
pub proof fn lemma_dispatch_super_inherited(classes: Seq<(Id, ClassHostObject)>, m: Seq<u8>, receiver: Id, c: Id, sel: Sel, depth: u32, n: nat, imp: Imp)
    requires
        classes_ordered(classes),
        receiver != NIL,
        depth <= MAX_DISPATCH_DEPTH,
        c != NIL,
        class_index(classes, c) matches Some(k) && ({
            let sup = classes[k].1.superclass;
            &&& forall|t: nat| t < n ==> lacks_method(classes, #[trigger] ancestor(classes, sup, t), sel)
            &&& ancestor(classes, sup, n) != NIL
            &&& class_index(classes, ancestor(classes, sup, n)) matches Some(a) && assoc(classes[a].1.methods@, sel) == Some(imp)
        }),
    ensures
        dispatch(classes, m, receiver, sel, Some(c), depth) == Some(imp),
{
    let k = class_index(classes, c)->0;
    let sup = classes[k].1.superclass;
    lemma_class_index(classes, c);
    lemma_method_inherited(classes, sup, sel, n, imp);
    if sup == NIL {
        lemma_class_index(classes, NIL);
    } else {
        lemma_superclass_index(classes, k);
        lemma_class_index(classes, sup);
    }
}

} // verus!
