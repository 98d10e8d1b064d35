//! Object model: class registry, interned selectors, method
//! implementations, and the per-object host payload registry with its
//! reference-count ledger.
//!
//! An object reference is an opaque guest address (`u32`); the reserved
//! null reference is `0`. A selector is an index into the interned
//! selector table, so selector equality is identity, not string
//! comparison. Classes form a singly-rooted inheritance chain: a class
//! can only name an already-registered class as its superclass, so the
//! chain can hold no cycle and lookup always terminates.

use vstd::prelude::*;

use crate::abi::GuestFunction;
use crate::views::ViewObject;

verus! {

/// The selector index of the teardown message: `Environment::new`
/// interns its name first, so it is always selector zero.
pub const DEALLOC_SEL: usize = 0;

/// A failure of the object model or of the dispatch engine.
///
/// `DuplicateClass`, `UnknownObject` and `TypeMismatch` indicate
/// host-side programming errors; `UnknownClass` and `DoesNotUnderstand`
/// are resolution failures surfaced to the calling layer;
/// `Integrity` marks malformed guest data or an overflowed ledger,
/// fatal for the emulated process; `Mem` carries a memory-range error.
#[derive(Clone, Copy, PartialEq, Eq, Structural, Debug)]
pub enum ObjcError {
    /// A class of this name is already registered.
    DuplicateClass,
    /// No class of this name is registered.
    UnknownClass,
    /// The payload was registered under a different shape than requested.
    TypeMismatch,
    /// The object reference is not currently live.
    UnknownObject,
    /// No class in the receiver's chain implements the selector.
    DoesNotUnderstand,
    /// Malformed guest-visible data; the emulated process must not go on.
    Integrity,
    /// A guest-memory access failed.
    Mem(crate::mem::MemError),
}

/// Type for any host function implementing a method.
///
/// Host-native implementations form a closed set dispatched through one
/// invocation contract (receiver and selector are always the first two
/// logical arguments), rather than open-ended dynamic dispatch.
#[derive(Clone, Copy, PartialEq, Eq, Structural, Debug)]
pub enum HostIMP {
    /// Answers the receiver's weak parent reference.
    ViewSuperview,
    /// Adds the first argument as the receiver's child.
    ViewAddSubview,
    /// Moves the first argument to the front of the receiver's children.
    ViewBringSubviewToFront,
    /// Detaches the receiver from its parent.
    ViewRemoveFromSuperview,
    /// Class-specific teardown run when the ledger reaches zero.
    ViewDealloc,
}

/// Type for any function implementing a method: either host-native
/// (called directly by host code) or guest-resident (an address in
/// guest memory, callable only through the ABI bridge). Both conform to
/// the same invocation contract.
#[derive(Clone, Copy, PartialEq, Eq, Structural, Debug)]
pub enum IMP {
    /// A host-native implementation.
    Host(HostIMP),
    /// A guest-resident implementation.
    Guest(GuestFunction),
}

/// A class: a named node in the inheritance chain with its selector
/// table.
pub struct ClassDef {
    /// The class's registered name.
    pub name: String,
    /// Index of the superclass, absent for a root class; always smaller
    /// than this class's own index.
    pub superclass: Option<usize>,
    /// Selector table: (selector, implementation) pairs, searched front
    /// to back.
    pub methods: Vec<(usize, IMP)>,
}

/// Host-side payload of one live object: the closed set of per-class
/// shapes this host implements.
pub enum HostPayload {
    /// Payload of a view-like object.
    View(ViewObject),
    /// Payload of a class that keeps no host-side state.
    Plain,
}

/// Registry entry of one live object reference.
pub struct ObjSlot {
    /// The object reference: its guest header address, never null.
    pub oid: u32,
    /// Index of the object's class.
    pub class: usize,
    /// Reference-count ledger entry, at least one while the object is
    /// live.
    pub refcount: u64,
    /// The host-side payload, owned exclusively by the registry.
    pub payload: HostPayload,
}

impl ObjSlot {
    /// The slot names a registered class, holds at least one reference,
    /// and its object reference is a non-null word-aligned address.
    pub open spec fn wf_in(self, nclasses: int) -> bool {
        &&& self.class < nclasses
        &&& self.refcount >= 1
        &&& self.oid != 0
        &&& self.oid % 4 == 0
    }
}

/// Every class's superclass stands earlier in the table, so every
/// superclass chain strictly descends and terminates.
pub open spec fn wf_classes(classes: Seq<ClassDef>) -> bool {
    forall|c: int|
        0 <= c < classes.len() ==> ((#[trigger] classes[c]).superclass matches Some(s) ==> s < c)
}

/// First match for `sel` in a selector table, searching from entry `i`.
pub open spec fn table_lookup_from(methods: Seq<(usize, IMP)>, sel: usize, i: int) -> Option<IMP>
    decreases methods.len() - i,
    when 0 <= i <= methods.len()
{
    if i >= methods.len() {
        None
    } else if methods[i].0 == sel {
        Some(methods[i].1)
    } else {
        table_lookup_from(methods, sel, i + 1)
    }
}

/// First match for `sel` in a selector table.
pub open spec fn table_lookup(methods: Seq<(usize, IMP)>, sel: usize) -> Option<IMP> {
    table_lookup_from(methods, sel, 0)
}

/// Ancestor-first resolution: the implementation found in the selector
/// table of `c` or, failing that, of its nearest ancestor that has one.
pub open spec fn resolve_in(classes: Seq<ClassDef>, c: int, sel: usize) -> Option<IMP>
    decreases c,
    when 0 <= c < classes.len() && wf_classes(classes)
{
    match table_lookup(classes[c].methods@, sel) {
        Some(imp) => Some(imp),
        None => match classes[c].superclass {
            Some(s) => resolve_in(classes, s as int, sel),
            None => None,
        },
    }
}

/// The class whose own selector table supplies the resolution of
/// `(c, sel)`: `c` itself or the nearest ancestor with a match.
pub open spec fn resolving_class(classes: Seq<ClassDef>, c: int, sel: usize) -> Option<int>
    decreases c,
    when 0 <= c < classes.len() && wf_classes(classes)
{
    match table_lookup(classes[c].methods@, sel) {
        Some(imp) => Some(c),
        None => match classes[c].superclass {
            Some(s) => resolving_class(classes, s as int, sel),
            None => None,
        },
    }
}

/// Some registry entry carries the reference `oid`.
pub open spec fn has_oid(objs: Seq<ObjSlot>, oid: u32) -> bool {
    exists|i: int| 0 <= i < objs.len() && objs[i].oid == oid
}

/// No two registry entries carry the same reference.
pub open spec fn unique_oids(objs: Seq<ObjSlot>) -> bool {
    forall|i: int, j: int|
        0 <= i < objs.len() && 0 <= j < objs.len() && i != j ==> (#[trigger] objs[i]).oid != (
        #[trigger] objs[j]).oid
}

/// Index of the registry entry carrying `oid` (meaningful when
/// `has_oid` holds; unique under `unique_oids`).
pub open spec fn oid_index(objs: Seq<ObjSlot>, oid: u32) -> int {
    choose|i: int| 0 <= i < objs.len() && objs[i].oid == oid
}

/// The registry entry carrying `oid`.
pub open spec fn slot_of(objs: Seq<ObjSlot>, oid: u32) -> ObjSlot {
    objs[oid_index(objs, oid)]
}

/// Under uniqueness, any index whose entry carries `oid` is the index
/// `oid_index` denotes.
pub proof fn lemma_oid_index(objs: Seq<ObjSlot>, oid: u32, i: int)
    requires
        unique_oids(objs),
        0 <= i < objs.len(),
        objs[i].oid == oid,
    ensures
        oid_index(objs, oid) == i,
        has_oid(objs, oid),
        slot_of(objs, oid) == objs[i],
{
    assert(has_oid(objs, oid));
}

/// The class registry, the interned selector table, and the object
/// registry with its ledger: the process-scoped state of the object
/// model, created once at emulated-process startup.
pub struct Runtime {
    /// Interned selector names; a selector value is an index here.
    pub selectors: Vec<String>,
    /// Registered classes; a class value is an index here.
    pub classes: Vec<ClassDef>,
    /// One entry per live object reference.
    pub objects: Vec<ObjSlot>,
}

impl Runtime {
    /// Well-formedness: superclass chains descend, class and selector
    /// names are distinct, class indices fit a guest header word,
    /// object references are distinct, and every entry is well-formed.
    pub open spec fn wf(self) -> bool {
        &&& self.selectors@.len() >= 1
        &&& self.selectors@[DEALLOC_SEL as int]@ == "dealloc"@
        &&& wf_classes(self.classes@)
        &&& self.classes@.len() <= 0xFFFF_FFFF
        &&& forall|i: int, j: int|
            0 <= i < self.classes@.len() && 0 <= j < self.classes@.len() && i != j ==> (
            #[trigger] self.classes@[i]).name@ != (#[trigger] self.classes@[j]).name@
        &&& forall|i: int, j: int|
            0 <= i < self.selectors@.len() && 0 <= j < self.selectors@.len() && i != j ==> (
            #[trigger] self.selectors@[i])@ != (#[trigger] self.selectors@[j])@
        &&& unique_oids(self.objects@)
        &&& forall|i: int|
            0 <= i < self.objects@.len() ==> (#[trigger] self.objects@[i]).wf_in(
                self.classes@.len() as int,
            )
    }

    /// A fresh object model: no classes and no objects, with the
    /// teardown selector interned first so that it is always selector
    /// [`DEALLOC_SEL`].
    pub fn new() -> (rt: Runtime)
        ensures
            rt.wf(),
            rt.selectors@.len() == 1,
            rt.selectors@[DEALLOC_SEL as int]@ == "dealloc"@,
            rt.classes@.len() == 0,
            rt.objects@.len() == 0,
    {
        let mut selectors: Vec<String> = Vec::new();
        selectors.push("dealloc".to_owned());
        Runtime { selectors, classes: Vec::new(), objects: Vec::new() }
    }

    /// Intern `name`: hand back the selector already carrying this name,
    /// or extend the table with it. After interning, selector equality
    /// is equality of the indices.
    pub fn intern_selector(&mut self, name: &str) -> (s: usize)
        requires
            old(self).wf(),
        ensures
            final(self).wf(),
            final(self).classes@ == old(self).classes@,
            final(self).objects@ == old(self).objects@,
            s < final(self).selectors@.len(),
            final(self).selectors@[s as int]@ == name@,
            (exists|j: int|
                0 <= j < old(self).selectors@.len() && (#[trigger] old(self).selectors@[j])@
                    == name@) ==> final(self).selectors@ == old(self).selectors@,
            !(exists|j: int|
                0 <= j < old(self).selectors@.len() && (#[trigger] old(self).selectors@[j])@
                    == name@) ==> {
                &&& final(self).selectors@.len() == old(self).selectors@.len() + 1
                &&& s == old(self).selectors@.len()
                &&& forall|k: int|
                    0 <= k < old(self).selectors@.len() ==> final(self).selectors@[k] == old(self).selectors@[k]
            },
    {
        let owned: String = name.to_owned();
        let n = self.selectors.len();
        let mut k: usize = 0;
        while k < n
            invariant
                *self == *old(self),
                self.wf(),
                n == self.selectors@.len(),
                k <= n,
                owned@ == name@,
                forall|j: int| 0 <= j < k ==> (#[trigger] self.selectors@[j])@ != name@,
            decreases n - k,
        {
            if self.selectors[k].eq(&owned) {
                return k;
            }
            k += 1;
        }
        let s = self.selectors.len();
        self.selectors.push(owned);
        s
    }

    /// Register a class under `name` with the given superclass and
    /// selector table. Fails with `DuplicateClass`, changing nothing,
    /// exactly when the name is already registered.
    pub fn register_class(
        &mut self,
        name: &str,
        superclass: Option<usize>,
        methods: Vec<(usize, IMP)>,
    ) -> (r: Result<usize, ObjcError>)
        requires
            old(self).wf(),
            superclass matches Some(s) ==> s < old(self).classes@.len(),
            old(self).classes@.len() < 0xFFFF_FFFF,
        ensures
            final(self).wf(),
            final(self).selectors@ == old(self).selectors@,
            final(self).objects@ == old(self).objects@,
            r is Err <==> exists|j: int|
                0 <= j < old(self).classes@.len() && (#[trigger] old(self).classes@[j]).name@
                    == name@,
            r is Err ==> r == Err::<usize, ObjcError>(ObjcError::DuplicateClass) && final(self).classes@ == old(self).classes@,
            r matches Ok(c) ==> {
                &&& c == old(self).classes@.len()
                &&& final(self).classes@.len() == old(self).classes@.len() + 1
                &&& final(self).classes@[c as int].name@ == name@
                &&& final(self).classes@[c as int].superclass == superclass
                &&& final(self).classes@[c as int].methods@ == methods@
                &&& forall|k: int|
                    0 <= k < old(self).classes@.len() ==> final(self).classes@[k] == old(self).classes@[k]
            },
    {
        let owned: String = name.to_owned();
        let n = self.classes.len();
        let mut k: usize = 0;
        while k < n
            invariant
                *self == *old(self),
                self.wf(),
                n == self.classes@.len(),
                k <= n,
                owned@ == name@,
                forall|j: int| 0 <= j < k ==> (#[trigger] self.classes@[j]).name@ != name@,
            decreases n - k,
        {
            if self.classes[k].name.eq(&owned) {
                return Err(ObjcError::DuplicateClass);
            }
            k += 1;
        }
        let c = self.classes.len();
        self.classes.push(ClassDef { name: owned, superclass, methods });
        Ok(c)
    }

    /// Look a host-known class up by name. Fails with `UnknownClass`
    /// exactly when no class of this name is registered.
    pub fn get_known_class(&self, name: &str) -> (r: Result<usize, ObjcError>)
        requires
            self.wf(),
        ensures
            r is Ok <==> exists|j: int|
                0 <= j < self.classes@.len() && (#[trigger] self.classes@[j]).name@ == name@,
            r matches Ok(c) ==> c < self.classes@.len() && self.classes@[c as int].name@ == name@,
            r is Err ==> r == Err::<usize, ObjcError>(ObjcError::UnknownClass),
    {
        let owned: String = name.to_owned();
        let n = self.classes.len();
        let mut k: usize = 0;
        while k < n
            invariant
                n == self.classes@.len(),
                k <= n,
                owned@ == name@,
                forall|j: int| 0 <= j < k ==> (#[trigger] self.classes@[j]).name@ != name@,
            decreases n - k,
        {
            if self.classes[k].name.eq(&owned) {
                return Ok(k);
            }
            k += 1;
        }
        Err(ObjcError::UnknownClass)
    }

    /// Resolve `sel` against class `class`, ancestor-first: the class's
    /// own selector table is searched before its superclass's, single
    /// inheritance only, matching the guest runtime's own order.
    pub fn resolve(&self, class: usize, sel: usize) -> (r: Option<IMP>)
        requires
            self.wf(),
            class < self.classes@.len(),
        ensures
            r == resolve_in(self.classes@, class as int, sel),
    {
        let mut cur: usize = class;
        loop
            invariant
                self.wf(),
                cur < self.classes@.len(),
                resolve_in(self.classes@, class as int, sel) == resolve_in(
                    self.classes@,
                    cur as int,
                    sel,
                ),
            decreases cur,
        {
            let found = lookup_in_table(&self.classes[cur].methods, sel);
            match found {
                Some(imp) => {
                    return Some(imp);
                },
                None => {
                    match self.classes[cur].superclass {
                        Some(s) => {
                            cur = s;
                        },
                        None => {
                            return None;
                        },
                    }
                },
            }
        }
    }

    /// Index of the registry entry for `oid`, if the reference is live.
    pub fn find_slot(&self, oid: u32) -> (r: Option<usize>)
        ensures
            r matches Some(i) ==> i < self.objects@.len() && self.objects@[i as int].oid == oid,
            r is None ==> !has_oid(self.objects@, oid),
    {
        let n = self.objects.len();
        let mut k: usize = 0;
        while k < n
            invariant
                n == self.objects@.len(),
                k <= n,
                forall|j: int| 0 <= j < k ==> (#[trigger] self.objects@[j]).oid != oid,
            decreases n - k,
        {
            if self.objects[k].oid == oid {
                return Some(k);
            }
            k += 1;
        }
        None
    }

    /// Whether `oid` is a live object reference.
    pub fn is_live(&self, oid: u32) -> (r: bool)
        ensures
            r == has_oid(self.objects@, oid),
    {
        self.find_slot(oid).is_some()
    }

    /// The ledger entry of `oid`; `UnknownObject` exactly when the
    /// reference is not live.
    pub fn retain_count(&self, oid: u32) -> (r: Result<u64, ObjcError>)
        requires
            self.wf(),
        ensures
            r is Ok <==> has_oid(self.objects@, oid),
            r matches Ok(n) ==> n == slot_of(self.objects@, oid).refcount,
            r is Err ==> r == Err::<u64, ObjcError>(ObjcError::UnknownObject),
    {
        match self.find_slot(oid) {
            Some(i) => {
                proof {
                    lemma_oid_index(self.objects@, oid, i as int);
                }
                Ok(self.objects[i].refcount)
            },
            None => Err(ObjcError::UnknownObject),
        }
    }

    /// The registered class of `oid`; `UnknownObject` exactly when the
    /// reference is not live.
    pub fn class_of(&self, oid: u32) -> (r: Result<usize, ObjcError>)
        requires
            self.wf(),
        ensures
            r is Ok <==> has_oid(self.objects@, oid),
            r matches Ok(c) ==> c == slot_of(self.objects@, oid).class,
            r is Err ==> r == Err::<usize, ObjcError>(ObjcError::UnknownObject),
    {
        match self.find_slot(oid) {
            Some(i) => {
                proof {
                    lemma_oid_index(self.objects@, oid, i as int);
                }
                Ok(self.objects[i].class)
            },
            None => Err(ObjcError::UnknownObject),
        }
    }

    /// Typed access to the host-side payload of a view object. Fails
    /// with `UnknownObject` when the reference is not live and with
    /// `TypeMismatch` when the payload was registered under another
    /// shape; both indicate host-side programming errors. Mutation of
    /// a payload flows through the dedicated view operations, which
    /// preserve the registry's invariants.
    pub fn borrow_view(&self, oid: u32) -> (r: Result<&ViewObject, ObjcError>)
        requires
            self.wf(),
        ensures
            r is Ok <==> has_oid(self.objects@, oid) && slot_of(self.objects@, oid).payload
                is View,
            r matches Ok(v) ==> slot_of(self.objects@, oid).payload matches HostPayload::View(w)
                && *v == w,
            !has_oid(self.objects@, oid) ==> r == Err::<&ViewObject, ObjcError>(
                ObjcError::UnknownObject,
            ),
            has_oid(self.objects@, oid) && !(slot_of(self.objects@, oid).payload is View) ==> r
                == Err::<&ViewObject, ObjcError>(ObjcError::TypeMismatch),
    {
        match self.find_slot(oid) {
            Some(i) => {
                proof {
                    lemma_oid_index(self.objects@, oid, i as int);
                }
                match &self.objects[i].payload {
                    HostPayload::View(v) => Ok(v),
                    HostPayload::Plain => Err(ObjcError::TypeMismatch),
                }
            },
            None => Err(ObjcError::UnknownObject),
        }
    }
}


/// The view payload of a registry entry (meaningful when the payload
/// has the view shape).
pub open spec fn view_of(s: ObjSlot) -> ViewObject {
    s.payload->View_0
}

/// The children sequence of the live view object `oid`.
pub open spec fn children_of(objs: Seq<ObjSlot>, oid: u32) -> Seq<u32> {
    view_of(slot_of(objs, oid)).subviews@
}

/// `s` with its view payload's weak parent reference nulled.
pub open spec fn with_parent_nulled(s: ObjSlot) -> ObjSlot {
    ObjSlot { payload: HostPayload::View(ViewObject { superview: 0, ..view_of(s) }), ..s }
}

/// The weak parent reference of the live view object `oid`.
pub open spec fn parent_of(objs: Seq<ObjSlot>, oid: u32) -> u32 {
    view_of(slot_of(objs, oid)).superview
}

impl Runtime {
    /// Set the ledger entry at registry index `i` to `n`.
    pub(crate) fn set_refcount(&mut self, i: usize, n: u64)
        requires
            i < old(self).objects@.len(),
        ensures
            final(self).selectors@ == old(self).selectors@,
            final(self).classes@ == old(self).classes@,
            final(self).objects@.len() == old(self).objects@.len(),
            forall|k: int|
                0 <= k < old(self).objects@.len() && k != i ==> final(self).objects@[k] == old(
                    self,
                ).objects@[k],
            final(self).objects@[i as int] == (ObjSlot {
                refcount: n,
                ..old(self).objects@[i as int]
            }),
    {
        let ghost s0 = self.objects@;
        let mut slot = self.objects.remove(i);
        slot.refcount = n;
        let ghost s1 = self.objects@;
        self.objects.insert(i, slot);
        proof {
            s0.remove_ensures(i as int);
            s1.insert_ensures(i as int, slot);
        }
    }

    /// Null or redirect the weak parent reference of the view object at
    /// registry index `i`.
    pub(crate) fn set_superview_at(&mut self, i: usize, parent: u32)
        requires
            i < old(self).objects@.len(),
            old(self).objects@[i as int].payload is View,
        ensures
            final(self).selectors@ == old(self).selectors@,
            final(self).classes@ == old(self).classes@,
            final(self).objects@.len() == old(self).objects@.len(),
            forall|k: int|
                0 <= k < old(self).objects@.len() && k != i ==> final(self).objects@[k] == old(
                    self,
                ).objects@[k],
            final(self).objects@[i as int] == (ObjSlot {
                payload: HostPayload::View(ViewObject {
                    superview: parent,
                    ..view_of(old(self).objects@[i as int])
                }),
                ..old(self).objects@[i as int]
            }),
    {
        let ghost s0 = self.objects@;
        let mut slot = self.objects.remove(i);
        match &mut slot.payload {
            HostPayload::View(v) => {
                v.superview = parent;
            },
            HostPayload::Plain => {
                proof {
                    assert(false);
                }
            },
        }
        let ghost s1 = self.objects@;
        self.objects.insert(i, slot);
        proof {
            s0.remove_ensures(i as int);
            s1.insert_ensures(i as int, slot);
        }
    }

    /// Replace the bounds rectangle of the view object at registry
    /// index `i`.
    pub(crate) fn set_bounds_at(&mut self, i: usize, bounds: crate::views::Rect)
        requires
            i < old(self).objects@.len(),
            old(self).objects@[i as int].payload is View,
        ensures
            final(self).selectors@ == old(self).selectors@,
            final(self).classes@ == old(self).classes@,
            final(self).objects@.len() == old(self).objects@.len(),
            forall|k: int|
                0 <= k < old(self).objects@.len() && k != i ==> final(self).objects@[k] == old(
                    self,
                ).objects@[k],
            final(self).objects@[i as int] == (ObjSlot {
                payload: HostPayload::View(ViewObject {
                    bounds,
                    ..view_of(old(self).objects@[i as int])
                }),
                ..old(self).objects@[i as int]
            }),
    {
        let ghost s0 = self.objects@;
        let mut slot = self.objects.remove(i);
        match &mut slot.payload {
            HostPayload::View(v) => {
                v.bounds = bounds;
            },
            HostPayload::Plain => {
                proof {
                    assert(false);
                }
            },
        }
        let ghost s1 = self.objects@;
        self.objects.insert(i, slot);
        proof {
            s0.remove_ensures(i as int);
            s1.insert_ensures(i as int, slot);
        }
    }

    /// Append `child` to the children of the view object at registry
    /// index `i`.
    pub(crate) fn push_subview_at(&mut self, i: usize, child: u32)
        requires
            i < old(self).objects@.len(),
            old(self).objects@[i as int].payload is View,
            view_of(old(self).objects@[i as int]).subviews@.len() < usize::MAX,
        ensures
            final(self).selectors@ == old(self).selectors@,
            final(self).classes@ == old(self).classes@,
            final(self).objects@.len() == old(self).objects@.len(),
            forall|k: int|
                0 <= k < old(self).objects@.len() && k != i ==> final(self).objects@[k] == old(
                    self,
                ).objects@[k],
            final(self).objects@[i as int].oid == old(self).objects@[i as int].oid,
            final(self).objects@[i as int].class == old(self).objects@[i as int].class,
            final(self).objects@[i as int].refcount == old(self).objects@[i as int].refcount,
            final(self).objects@[i as int].payload is View,
            view_of(final(self).objects@[i as int]).bounds == view_of(
                old(self).objects@[i as int],
            ).bounds,
            view_of(final(self).objects@[i as int]).superview == view_of(
                old(self).objects@[i as int],
            ).superview,
            view_of(final(self).objects@[i as int]).subviews@ == view_of(
                old(self).objects@[i as int],
            ).subviews@.push(child),
    {
        let ghost s0 = self.objects@;
        let mut slot = self.objects.remove(i);
        match &mut slot.payload {
            HostPayload::View(v) => {
                v.subviews.push(child);
            },
            HostPayload::Plain => {
                proof {
                    assert(false);
                }
            },
        }
        let ghost s1 = self.objects@;
        self.objects.insert(i, slot);
        proof {
            s0.remove_ensures(i as int);
            s1.insert_ensures(i as int, slot);
        }
    }

    /// Remove the child at position `k` of the children of the view
    /// object at registry index `i`.
    pub(crate) fn remove_subview_at(&mut self, i: usize, k: usize)
        requires
            i < old(self).objects@.len(),
            old(self).objects@[i as int].payload is View,
            k < view_of(old(self).objects@[i as int]).subviews@.len(),
        ensures
            final(self).selectors@ == old(self).selectors@,
            final(self).classes@ == old(self).classes@,
            final(self).objects@.len() == old(self).objects@.len(),
            forall|j: int|
                0 <= j < old(self).objects@.len() && j != i ==> final(self).objects@[j] == old(
                    self,
                ).objects@[j],
            final(self).objects@[i as int].oid == old(self).objects@[i as int].oid,
            final(self).objects@[i as int].class == old(self).objects@[i as int].class,
            final(self).objects@[i as int].refcount == old(self).objects@[i as int].refcount,
            final(self).objects@[i as int].payload is View,
            view_of(final(self).objects@[i as int]).bounds == view_of(
                old(self).objects@[i as int],
            ).bounds,
            view_of(final(self).objects@[i as int]).superview == view_of(
                old(self).objects@[i as int],
            ).superview,
            view_of(final(self).objects@[i as int]).subviews@ == view_of(
                old(self).objects@[i as int],
            ).subviews@.remove(k as int),
    {
        let ghost s0 = self.objects@;
        let mut slot = self.objects.remove(i);
        match &mut slot.payload {
            HostPayload::View(v) => {
                v.subviews.remove(k);
            },
            HostPayload::Plain => {
                proof {
                    assert(false);
                }
            },
        }
        let ghost s1 = self.objects@;
        self.objects.insert(i, slot);
        proof {
            s0.remove_ensures(i as int);
            s1.insert_ensures(i as int, slot);
        }
    }
}

/// Interned selector equality is identity: in a well-formed runtime,
/// two selector table entries carry the same name exactly when they
/// are the same selector, so dispatch never compares strings.
pub proof fn lemma_selector_identity(rt: Runtime, a: int, b: int)
    requires
        rt.wf(),
        0 <= a < rt.selectors@.len(),
        0 <= b < rt.selectors@.len(),
    ensures
        rt.selectors@[a]@ == rt.selectors@[b]@ <==> a == b,
{
}

/// First match for `sel` in the selector table, front to back.
pub fn lookup_in_table(methods: &Vec<(usize, IMP)>, sel: usize) -> (r: Option<IMP>)
    ensures
        r == table_lookup(methods@, sel),
{
    let n = methods.len();
    let mut k: usize = 0;
    while k < n
        invariant
            n == methods@.len(),
            k <= n,
            table_lookup(methods@, sel) == table_lookup_from(methods@, sel, k as int),
        decreases n - k,
    {
        let (s, imp) = methods[k];
        if s == sel {
            return Some(imp);
        }
        k += 1;
    }
    None
}

} // verus!
