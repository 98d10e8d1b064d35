//! A view-like parent/child ownership demonstration built on the object
//! model: each view object owns its children strongly (adding a child
//! retains it) and refers to its parent weakly (a plain object
//! reference with no ownership, nulled by the owning side's teardown).
//!
//! The compositor layer a real view would delegate its drawing to is a
//! framework collaborator outside this core; geometry is kept here as
//! plain host-side values.

use vstd::prelude::*;

verus! {

/// An axis-aligned rectangle in guest coordinates.
#[derive(Clone, Copy, PartialEq, Eq, Structural, Debug)]
pub struct Rect {
    /// Horizontal origin.
    pub x: i32,
    /// Vertical origin.
    pub y: i32,
    /// Width.
    pub w: i32,
    /// Height.
    pub h: i32,
}

/// Host-side payload of a view object.
pub struct ViewObject {
    /// The view's bounds rectangle.
    pub bounds: Rect,
    /// Children in back-to-front order. These are strong references:
    /// each entry was retained when it was added.
    pub subviews: Vec<u32>,
    /// The parent. This is a weak reference: the null reference when
    /// the view has no parent, and never an owned link.
    pub superview: u32,
}

/// Process-wide view bookkeeping: the list of live view objects.
pub struct State {
    /// Every live view object, in allocation order.
    pub views: Vec<u32>,
}

impl State {
    /// Bookkeeping with no views yet.
    pub fn new() -> (s: State)
        ensures
            s.views@.len() == 0,
    {
        State { views: Vec::new() }
    }
}


/// Position of the first occurrence of `x` in `s` at or after `i`.
pub open spec fn first_index_of(s: Seq<u32>, x: u32, i: int) -> Option<int>
    decreases s.len() - i,
    when 0 <= i <= s.len()
{
    if i >= s.len() {
        None
    } else if s[i] == x {
        Some(i)
    } else {
        first_index_of(s, x, i + 1)
    }
}

/// `s` without its first occurrence of `x`; `s` itself when `x` does
/// not occur.
pub open spec fn seq_without_first(s: Seq<u32>, x: u32) -> Seq<u32> {
    match first_index_of(s, x, 0) {
        Some(i) => s.remove(i),
        None => s,
    }
}

/// Drop the first occurrence of `oid` from the view bookkeeping, if any.
pub fn untrack_view(state: &mut State, oid: u32)
    ensures
        final(state).views@ == seq_without_first(old(state).views@, oid),
{
    let n = state.views.len();
    let mut k: usize = 0;
    while k < n
        invariant
            *state == *old(state),
            n == state.views@.len(),
            k <= n,
            first_index_of(state.views@, oid, 0) == first_index_of(state.views@, oid, k as int),
        decreases n - k,
    {
        if state.views[k] == oid {
            state.views.remove(k);
            return;
        }
        k += 1;
    }
}


/// First position of `x` in a child list.
pub fn find_id(ids: &Vec<u32>, x: u32) -> (r: Option<usize>)
    ensures
        r matches Some(k) ==> first_index_of(ids@, x, 0) == Some(k as int),
        r is None ==> first_index_of(ids@, x, 0) is None,
{
    let n = ids.len();
    let mut k: usize = 0;
    while k < n
        invariant
            n == ids@.len(),
            k <= n,
            first_index_of(ids@, x, 0) == first_index_of(ids@, x, k as int),
        decreases n - k,
    {
        if ids[k] == x {
            return Some(k);
        }
        k += 1;
    }
    None
}

/// The weak parent reference of the view object `this`; the null
/// reference when it has no parent. Fails like `borrow_view`.
pub fn superview(rt: &crate::objc::Runtime, this: u32) -> (r: Result<u32, crate::objc::ObjcError>)
    requires
        rt.wf(),
    ensures
        superview_post(*rt, this, r),{
    match rt.borrow_view(this) {
        Ok(v) => Ok(v.superview),
        Err(e) => Err(e),
    }
}

/// Move the child `child` of `this` to the front (the end of the
/// back-to-front child list), keeping every other child's order.
/// Fails with `UnknownObject`/`TypeMismatch` like `borrow_view`, and
/// with `Integrity` when `child` is not among the children.
pub fn bring_subview_to_front(env: &mut crate::env::Environment, this: u32, child: u32) -> (r:
    Result<(), crate::objc::ObjcError>)
    requires
        old(env).inv(),
    ensures
        final(env).inv(),
        bring_subview_post(*old(env), *final(env), this, child, result_word(r)),{
    let i = match env.objc.find_slot(this) {
        None => {
            return Err(crate::objc::ObjcError::UnknownObject);
        },
        Some(i) => i,
    };
    proof {
        crate::objc::lemma_oid_index(env.objc.objects@, this, i as int);
    }
    let pos = match &env.objc.objects[i].payload {
        crate::objc::HostPayload::View(v) => find_id(&v.subviews, child),
        crate::objc::HostPayload::Plain => {
            return Err(crate::objc::ObjcError::TypeMismatch);
        },
    };
    let k = match pos {
        None => {
            proof {
                let cs = crate::objc::children_of(env.objc.objects@, this);
                assert forall|w: int| 0 <= w < cs.len() implies cs[w] != child by {
                    if first_index_of(cs, child, 0) is None {
                        lemma_first_index_none(cs, child, w);
                    }
                }
            }
            return Err(crate::objc::ObjcError::Integrity);
        },
        Some(k) => k,
    };
    proof {
        lemma_first_index_some(crate::objc::children_of(env.objc.objects@, this), child, k as int);
    }
    let cur_len = match &env.objc.objects[i].payload {
        crate::objc::HostPayload::View(v) => v.subviews.len(),
        crate::objc::HostPayload::Plain => {
            proof {
                assert(false);
            }
            return Err(crate::objc::ObjcError::TypeMismatch);
        },
    };
    let ghost e0 = *env;
    env.objc.remove_subview_at(i, k);
    let ghost e1 = *env;
    proof {
        crate::env::lemma_inv_same_skeleton(e0, e1);
    }
    env.objc.push_subview_at(i, child);
    proof {
        crate::env::lemma_inv_same_skeleton(e1, *env);
        assert forall|o2: u32|
            o2 != this && crate::objc::has_oid(e0.objc.objects@, o2) implies #[trigger] crate::objc::slot_of(
            env.objc.objects@,
            o2,
        ) == crate::objc::slot_of(e0.objc.objects@, o2) && crate::objc::has_oid(
            env.objc.objects@,
            o2,
        ) by {
            let m = crate::objc::oid_index(e0.objc.objects@, o2);
            crate::objc::lemma_oid_index(env.objc.objects@, o2, m);
        }
        assert forall|o2: u32|
            o2 != this && crate::objc::has_oid(env.objc.objects@, o2) implies crate::objc::has_oid(
            e0.objc.objects@,
            o2,
        ) by {
            let m = crate::objc::oid_index(env.objc.objects@, o2);
            assert(e0.objc.objects@[m].oid == o2);
        }
        crate::objc::lemma_oid_index(env.objc.objects@, this, i as int);
    }
    Ok(())
}

/// `first_index_of` finding nothing means no position holds `x`.
pub proof fn lemma_first_index_none(s: Seq<u32>, x: u32, w: int)
    requires
        first_index_of(s, x, 0) is None,
        0 <= w < s.len(),
    ensures
        s[w] != x,
{
    lemma_first_index_none_from(s, x, 0, w);
}

/// Helper: nothing at or after `i` holds `x` when the search from `i`
/// fails.
proof fn lemma_first_index_none_from(s: Seq<u32>, x: u32, i: int, w: int)
    requires
        0 <= i <= s.len(),
        first_index_of(s, x, i) is None,
        i <= w < s.len(),
    ensures
        s[w] != x,
    decreases s.len() - i,
{
    if w > i {
        lemma_first_index_none_from(s, x, i + 1, w);
    }
}

/// `first_index_of` finding `k` means `k` holds `x` and no earlier
/// position does.
pub proof fn lemma_first_index_some(s: Seq<u32>, x: u32, k: int)
    requires
        first_index_of(s, x, 0) == Some(k),
    ensures
        0 <= k < s.len(),
        s[k] == x,
        forall|w: int| 0 <= w < k ==> s[w] != x,
        seq_without_first(s, x) == s.remove(k),
{
    lemma_first_index_some_from(s, x, 0, k);
}

/// Helper: the search from `i` finds the first hit at or after `i`.
proof fn lemma_first_index_some_from(s: Seq<u32>, x: u32, i: int, k: int)
    requires
        0 <= i <= s.len(),
        first_index_of(s, x, i) == Some(k),
    ensures
        i <= k < s.len(),
        s[k] == x,
        forall|w: int| i <= w < k ==> s[w] != x,
    decreases s.len() - i,
{
    if i < s.len() && s[i] != x {
        lemma_first_index_some_from(s, x, i + 1, k);
    }
}


/// Whether `this` is a live view with a parent whose own entry is a
/// live view listing `this` among its children: the consistent linkage
/// that detaching relies on.
pub open spec fn linked_to_parent(objs: Seq<crate::objc::ObjSlot>, this: u32, p: u32) -> bool {
    &&& p != 0
    &&& p != this
    &&& crate::objc::has_oid(objs, p)
    &&& crate::objc::slot_of(objs, p).payload is View
    &&& crate::objc::children_of(objs, p).contains(this)
}


/// The word-level result of an operation that yields no value: zero on
/// success, its error otherwise — the form in which dispatch hands the
/// outcome back to the sender.
pub open spec fn result_word(r: Result<(), crate::objc::ObjcError>) -> Result<
    u32,
    crate::objc::ObjcError,
> {
    match r {
        Ok(()) => Ok(0),
        Err(e) => Err(e),
    }
}

/// What `superview` answers: the weak parent reference of a live view,
/// `UnknownObject` for a dead reference, `TypeMismatch` for another
/// payload shape.
pub open spec fn superview_post(
    rt: crate::objc::Runtime,
    this: u32,
    r: Result<u32, crate::objc::ObjcError>,
) -> bool {
    &&& (r is Ok <==> crate::objc::has_oid(rt.objects@, this) && crate::objc::slot_of(
        rt.objects@,
        this,
    ).payload is View)
    &&& (r matches Ok(p) ==> p == crate::objc::parent_of(rt.objects@, this))
    &&& (!crate::objc::has_oid(rt.objects@, this) ==> r == Err::<u32, crate::objc::ObjcError>(
        crate::objc::ObjcError::UnknownObject,
    ))
    &&& (crate::objc::has_oid(rt.objects@, this) && !(crate::objc::slot_of(
        rt.objects@,
        this,
    ).payload is View) ==> r == Err::<u32, crate::objc::ObjcError>(
        crate::objc::ObjcError::TypeMismatch,
    ))
}

/// What `bring_subview_to_front` does, from state `pre` to state
/// `post`: the named child moves to the end of `this`'s child list and
/// nothing else changes; a dead or non-view receiver and a reference
/// that is no child fail as distinguished errors, changing nothing.
pub open spec fn bring_subview_post(
    pre: crate::env::Environment,
    post: crate::env::Environment,
    this: u32,
    child: u32,
    r: Result<u32, crate::objc::ObjcError>,
) -> bool {
    let objs = pre.objc.objects@;
    &&& post.objc.selectors@ == pre.objc.selectors@
    &&& post.objc.classes@ == pre.objc.classes@
    &&& r != Err::<u32, crate::objc::ObjcError>(crate::objc::ObjcError::DoesNotUnderstand)
    &&& (r is Err ==> post == pre)
    &&& (!crate::objc::has_oid(objs, this) ==> r == Err::<u32, crate::objc::ObjcError>(
        crate::objc::ObjcError::UnknownObject,
    ))
    &&& (crate::objc::has_oid(objs, this) && !(crate::objc::slot_of(objs, this).payload is View)
        ==> r == Err::<u32, crate::objc::ObjcError>(crate::objc::ObjcError::TypeMismatch))
    &&& (crate::objc::has_oid(objs, this) && crate::objc::slot_of(objs, this).payload is View
        && !crate::objc::children_of(objs, this).contains(child) ==> r == Err::<
        u32,
        crate::objc::ObjcError,
    >(crate::objc::ObjcError::Integrity))
    &&& (crate::objc::has_oid(objs, this) && crate::objc::slot_of(objs, this).payload is View
        && crate::objc::children_of(objs, this).contains(child) ==> {
        &&& r == Ok::<u32, crate::objc::ObjcError>(0)
        &&& crate::objc::children_of(post.objc.objects@, this) == seq_without_first(
            crate::objc::children_of(objs, this),
            child,
        ).push(child)
        &&& crate::objc::parent_of(post.objc.objects@, this) == crate::objc::parent_of(objs, this)
        &&& crate::objc::slot_of(post.objc.objects@, this).refcount == crate::objc::slot_of(
            objs,
            this,
        ).refcount
        &&& forall|o2: u32|
            o2 != this ==> ((crate::objc::has_oid(post.objc.objects@, o2)
                <==> crate::objc::has_oid(objs, o2)) && (crate::objc::has_oid(objs, o2)
                ==> #[trigger] crate::objc::slot_of(post.objc.objects@, o2)
                == crate::objc::slot_of(objs, o2)))
        &&& post.mem == pre.mem
        &&& post.views == pre.views
        &&& post.bridge == pre.bridge
    })
}

/// What `remove_from_superview` does, from state `pre` to state
/// `post`: a parented view is detached — back-reference nulled, child
/// list entry dropped, the parent's strong reference released — with
/// no window of inconsistency; an orphan is left untouched; malformed
/// linkage is a distinguished fatal error, changing nothing.
pub open spec fn remove_from_superview_post(
    pre: crate::env::Environment,
    post: crate::env::Environment,
    this: u32,
    r: Result<u32, crate::objc::ObjcError>,
) -> bool {
    let objs = pre.objc.objects@;
    let p = crate::objc::parent_of(objs, this);
    &&& post.objc.selectors@ == pre.objc.selectors@
    &&& post.objc.classes@ == pre.objc.classes@
    &&& r != Err::<u32, crate::objc::ObjcError>(crate::objc::ObjcError::DoesNotUnderstand)
    &&& (r is Err ==> post == pre)
    &&& (!crate::objc::has_oid(objs, this) ==> r == Err::<u32, crate::objc::ObjcError>(
        crate::objc::ObjcError::UnknownObject,
    ))
    &&& (crate::objc::has_oid(objs, this) && !(crate::objc::slot_of(objs, this).payload is View)
        ==> r == Err::<u32, crate::objc::ObjcError>(crate::objc::ObjcError::TypeMismatch))
    &&& (crate::objc::has_oid(objs, this) && crate::objc::slot_of(objs, this).payload is View && p
        == 0 ==> r == Ok::<u32, crate::objc::ObjcError>(0) && post == pre)
    &&& (crate::objc::has_oid(objs, this) && crate::objc::slot_of(objs, this).payload is View && p
        != 0 && !linked_to_parent(objs, this, p) ==> r == Err::<u32, crate::objc::ObjcError>(
        crate::objc::ObjcError::Integrity,
    ))
    &&& (crate::objc::has_oid(objs, this) && crate::objc::slot_of(objs, this).payload is View
        && linked_to_parent(objs, this, p) && crate::objc::slot_of(objs, this).refcount >= 2 ==> {
        &&& r == Ok::<u32, crate::objc::ObjcError>(0)
        &&& crate::objc::has_oid(post.objc.objects@, this)
        &&& crate::objc::slot_of(post.objc.objects@, this).payload is View
        &&& crate::objc::parent_of(post.objc.objects@, this) == 0
        &&& crate::objc::slot_of(post.objc.objects@, this).refcount == crate::objc::slot_of(
            objs,
            this,
        ).refcount - 1
        &&& crate::objc::children_of(post.objc.objects@, this) == crate::objc::children_of(
            objs,
            this,
        )
        &&& crate::objc::has_oid(post.objc.objects@, p)
        &&& crate::objc::children_of(post.objc.objects@, p) == seq_without_first(
            crate::objc::children_of(objs, p),
            this,
        )
        &&& crate::objc::slot_of(post.objc.objects@, p).refcount == crate::objc::slot_of(
            objs,
            p,
        ).refcount
        &&& crate::objc::parent_of(post.objc.objects@, p) == crate::objc::parent_of(objs, p)
        &&& forall|o2: u32|
            o2 != this && o2 != p ==> ((crate::objc::has_oid(post.objc.objects@, o2)
                <==> crate::objc::has_oid(objs, o2)) && (crate::objc::has_oid(objs, o2)
                ==> #[trigger] crate::objc::slot_of(post.objc.objects@, o2)
                == crate::objc::slot_of(objs, o2)))
        &&& post.mem.bytes@ == pre.mem.bytes@
        &&& post.mem.zones@ == pre.mem.zones@
        &&& post.views.views@ == pre.views.views@
        &&& post.bridge.calls@ == pre.bridge.calls@
    })
    &&& (crate::objc::has_oid(objs, this) && crate::objc::slot_of(objs, this).payload is View
        && linked_to_parent(objs, this, p) && crate::objc::slot_of(objs, this).refcount == 1 ==> {
        &&& r == Ok::<u32, crate::objc::ObjcError>(0)
        &&& !crate::objc::has_oid(post.objc.objects@, this)
        &&& forall|o2: u32|
            crate::objc::has_oid(post.objc.objects@, o2) ==> crate::objc::has_oid(objs, o2)
        &&& post.objc.selectors@ == pre.objc.selectors@
        &&& post.objc.classes@ == pre.objc.classes@
        &&& post.mem.bytes@ == pre.mem.bytes@
    })
}

/// What `add_subview` does, from state `pre` to state `post`: the
/// child is retained, detached from any prior parent, its weak
/// back-reference is pointed at `this`, and it is appended to `this`'s
/// child list; a child already under `this` is only moved to the
/// front; dead references, wrong payload shapes, self-parenting and
/// malformed prior linkage fail as distinguished errors, changing
/// nothing.
pub open spec fn add_subview_post(
    pre: crate::env::Environment,
    post: crate::env::Environment,
    this: u32,
    child: u32,
    r: Result<u32, crate::objc::ObjcError>,
) -> bool {
    let objs = pre.objc.objects@;
    let prior = crate::objc::parent_of(objs, child);
    let child_is_view = crate::objc::has_oid(objs, child) && crate::objc::slot_of(
        objs,
        child,
    ).payload is View;
    let in_new_parent_case = child_is_view && this != child && prior != this;
    &&& post.objc.selectors@ == pre.objc.selectors@
    &&& post.objc.classes@ == pre.objc.classes@
    &&& r != Err::<u32, crate::objc::ObjcError>(crate::objc::ObjcError::DoesNotUnderstand)
    &&& (r is Err ==> post == pre)
    &&& (!crate::objc::has_oid(objs, child) ==> r == Err::<u32, crate::objc::ObjcError>(
        crate::objc::ObjcError::UnknownObject,
    ))
    &&& (crate::objc::has_oid(objs, child) && !(crate::objc::slot_of(objs, child).payload is View)
        ==> r == Err::<u32, crate::objc::ObjcError>(crate::objc::ObjcError::TypeMismatch))
    &&& (child_is_view && this == child ==> r == Err::<u32, crate::objc::ObjcError>(
        crate::objc::ObjcError::Integrity,
    ))
    &&& (child_is_view && this != child && prior == this ==> bring_subview_post(
        pre,
        post,
        this,
        child,
        r,
    ))
    &&& (in_new_parent_case && crate::objc::slot_of(objs, child).refcount == u64::MAX ==> r
        == Err::<u32, crate::objc::ObjcError>(crate::objc::ObjcError::Integrity))
    &&& (in_new_parent_case && crate::objc::slot_of(objs, child).refcount < u64::MAX
        && !crate::objc::has_oid(objs, this) ==> r == Err::<u32, crate::objc::ObjcError>(
        crate::objc::ObjcError::UnknownObject,
    ))
    &&& (in_new_parent_case && crate::objc::slot_of(objs, child).refcount < u64::MAX
        && crate::objc::has_oid(objs, this) && !(crate::objc::slot_of(objs, this).payload is View)
        ==> r == Err::<u32, crate::objc::ObjcError>(crate::objc::ObjcError::TypeMismatch))
    &&& (in_new_parent_case && crate::objc::slot_of(objs, child).refcount < u64::MAX
        && crate::objc::has_oid(objs, this) && crate::objc::slot_of(objs, this).payload is View
        && crate::objc::children_of(objs, this).len() == usize::MAX ==> r == Err::<
        u32,
        crate::objc::ObjcError,
    >(crate::objc::ObjcError::Integrity))
    &&& (in_new_parent_case && crate::objc::slot_of(objs, child).refcount < u64::MAX
        && crate::objc::has_oid(objs, this) && crate::objc::slot_of(objs, this).payload is View
        && crate::objc::children_of(objs, this).len() < usize::MAX && prior != 0
        && !linked_to_parent(objs, child, prior) ==> r == Err::<u32, crate::objc::ObjcError>(
        crate::objc::ObjcError::Integrity,
    ))
    &&& (in_new_parent_case && crate::objc::has_oid(objs, this) && crate::objc::slot_of(
        objs,
        this,
    ).payload is View && crate::objc::slot_of(objs, child).refcount < u64::MAX
        && crate::objc::children_of(objs, this).len() < usize::MAX && (prior == 0
        || linked_to_parent(objs, child, prior)) ==> {
        &&& r == Ok::<u32, crate::objc::ObjcError>(0)
        &&& crate::objc::children_of(post.objc.objects@, this) == crate::objc::children_of(
            objs,
            this,
        ).push(child)
        &&& crate::objc::parent_of(post.objc.objects@, child) == this
        &&& crate::objc::children_of(post.objc.objects@, child) == crate::objc::children_of(
            objs,
            child,
        )
        &&& (prior == 0 ==> crate::objc::slot_of(post.objc.objects@, child).refcount
            == crate::objc::slot_of(objs, child).refcount + 1)
        &&& (prior != 0 ==> crate::objc::slot_of(post.objc.objects@, child).refcount
            == crate::objc::slot_of(objs, child).refcount)
        &&& (prior != 0 && prior != this ==> crate::objc::children_of(post.objc.objects@, prior)
            == seq_without_first(crate::objc::children_of(objs, prior), child))
        &&& crate::objc::slot_of(post.objc.objects@, this).refcount == crate::objc::slot_of(
            objs,
            this,
        ).refcount
        &&& crate::objc::parent_of(post.objc.objects@, this) == crate::objc::parent_of(objs, this)
        &&& forall|o2: u32|
            o2 != this && o2 != child && o2 != prior ==> ((crate::objc::has_oid(
                post.objc.objects@,
                o2,
            ) <==> crate::objc::has_oid(objs, o2)) && (crate::objc::has_oid(objs, o2)
                ==> #[trigger] crate::objc::slot_of(post.objc.objects@, o2)
                == crate::objc::slot_of(objs, o2)))
        &&& post.mem.bytes@ == pre.mem.bytes@
        &&& post.mem.zones@ == pre.mem.zones@
        &&& post.views.views@ == pre.views.views@
        &&& post.bridge.calls@ == pre.bridge.calls@
    })
}

/// Detach `this` from its parent: null the weak back-reference, drop
/// `this` from the parent's child list, and release the parent's
/// strong reference, with no window where the link is inconsistent.
/// A view without a parent is left untouched. A parent link that does
/// not match the parent's child list is malformed state and fails with
/// `Integrity`, changing nothing.
pub fn remove_from_superview(env: &mut crate::env::Environment, this: u32) -> (r: Result<
    (),
    crate::objc::ObjcError,
>)
    requires
        old(env).inv(),
    ensures
        final(env).inv(),
        remove_from_superview_post(*old(env), *final(env), this, result_word(r)),{
    let i = match env.objc.find_slot(this) {
        None => {
            return Err(crate::objc::ObjcError::UnknownObject);
        },
        Some(i) => i,
    };
    proof {
        crate::objc::lemma_oid_index(env.objc.objects@, this, i as int);
    }
    let p = match &env.objc.objects[i].payload {
        crate::objc::HostPayload::View(v) => v.superview,
        crate::objc::HostPayload::Plain => {
            return Err(crate::objc::ObjcError::TypeMismatch);
        },
    };
    if p == 0 {
        return Ok(());
    }
    if p == this {
        return Err(crate::objc::ObjcError::Integrity);
    }
    let j = match env.objc.find_slot(p) {
        None => {
            return Err(crate::objc::ObjcError::Integrity);
        },
        Some(j) => j,
    };
    proof {
        crate::objc::lemma_oid_index(env.objc.objects@, p, j as int);
    }
    let pos = match &env.objc.objects[j].payload {
        crate::objc::HostPayload::View(v) => find_id(&v.subviews, this),
        crate::objc::HostPayload::Plain => {
            return Err(crate::objc::ObjcError::Integrity);
        },
    };
    let k = match pos {
        None => {
            proof {
                let cs = crate::objc::children_of(env.objc.objects@, p);
                assert forall|w: int| 0 <= w < cs.len() implies cs[w] != this by {
                    lemma_first_index_none(cs, this, w);
                }
            }
            return Err(crate::objc::ObjcError::Integrity);
        },
        Some(k) => k,
    };
    proof {
        lemma_first_index_some(crate::objc::children_of(env.objc.objects@, p), this, k as int);
    }
    let ghost e0 = *env;
    env.objc.set_superview_at(i, 0);
    let ghost e1 = *env;
    proof {
        crate::env::lemma_inv_same_skeleton(e0, e1);
    }
    env.objc.remove_subview_at(j, k);
    let ghost e2 = *env;
    proof {
        crate::env::lemma_inv_same_skeleton(e1, e2);
        crate::objc::lemma_oid_index(e2.objc.objects@, this, i as int);
        assert forall|o2: u32|
            crate::objc::has_oid(e2.objc.objects@, o2) implies crate::objc::has_oid(
            e0.objc.objects@,
            o2,
        ) by {
            let m = crate::objc::oid_index(e2.objc.objects@, o2);
            assert(e0.objc.objects@[m].oid == o2);
        }
    }
    let rr = crate::lifecycle::release(env, this);
    if rr.is_err() {
        proof {
            assert(false);
        }
        return rr;
    }
    proof {
        if crate::objc::slot_of(e0.objc.objects@, this).refcount >= 2 {
            assert(env.objc.objects@ =~= e2.objc.objects@.update(
                i as int,
                env.objc.objects@[i as int],
            ));
            assert forall|m: int| 0 <= m < e0.objc.objects@.len() implies (
            #[trigger] env.objc.objects@[m]).oid == e0.objc.objects@[m].oid
                && env.objc.objects@[m].refcount >= 1 by {
                assert(e1.objc.objects@[m].oid == e0.objc.objects@[m].oid);
                assert(e2.objc.objects@[m].oid == e1.objc.objects@[m].oid);
            }
            crate::objc::lemma_oid_index(env.objc.objects@, this, i as int);
            crate::objc::lemma_oid_index(env.objc.objects@, p, j as int);
            assert forall|o2: u32|
                o2 != this && o2 != p && crate::objc::has_oid(e0.objc.objects@, o2)
                    implies #[trigger] crate::objc::slot_of(env.objc.objects@, o2)
                == crate::objc::slot_of(e0.objc.objects@, o2) && crate::objc::has_oid(
                env.objc.objects@,
                o2,
            ) by {
                let m = crate::objc::oid_index(e0.objc.objects@, o2);
                crate::objc::lemma_oid_index(env.objc.objects@, o2, m);
            }
            assert forall|o2: u32|
                o2 != this && o2 != p && crate::objc::has_oid(env.objc.objects@, o2)
                    implies crate::objc::has_oid(e0.objc.objects@, o2) by {
                let m = crate::objc::oid_index(env.objc.objects@, o2);
                assert(e0.objc.objects@[m].oid == o2);
            }
        }
    }
    Ok(())
}


/// Add `child` to `this`'s children: retain the child (strong, owning
/// link from parent to child), detach it from any previous parent, set
/// its weak back-reference to `this`, and append it to `this`'s child
/// list. A child already under `this` is only moved to the front.
/// Cyclic links (a view as its own parent) are malformed ownership and
/// fail with `Integrity`, changing nothing.
#[verifier::rlimit(100)]
pub fn add_subview(env: &mut crate::env::Environment, this: u32, child: u32) -> (r: Result<
    (),
    crate::objc::ObjcError,
>)
    requires
        old(env).inv(),
    ensures
        final(env).inv(),
        add_subview_post(*old(env), *final(env), this, child, result_word(r)),{
    let ci = match env.objc.find_slot(child) {
        None => {
            return Err(crate::objc::ObjcError::UnknownObject);
        },
        Some(ci) => ci,
    };
    proof {
        crate::objc::lemma_oid_index(env.objc.objects@, child, ci as int);
    }
    let prior_parent = match &env.objc.objects[ci].payload {
        crate::objc::HostPayload::View(v) => v.superview,
        crate::objc::HostPayload::Plain => {
            return Err(crate::objc::ObjcError::TypeMismatch);
        },
    };
    if this == child {
        return Err(crate::objc::ObjcError::Integrity);
    }
    if prior_parent == this {
        return bring_subview_to_front(env, this, child);
    }
    let crc = env.objc.objects[ci].refcount;
    if crc == u64::MAX {
        return Err(crate::objc::ObjcError::Integrity);
    }
    let pj = match env.objc.find_slot(this) {
        None => {
            return Err(crate::objc::ObjcError::UnknownObject);
        },
        Some(pj) => pj,
    };
    proof {
        crate::objc::lemma_oid_index(env.objc.objects@, this, pj as int);
    }
    let plen = match &env.objc.objects[pj].payload {
        crate::objc::HostPayload::View(v) => v.subviews.len(),
        crate::objc::HostPayload::Plain => {
            return Err(crate::objc::ObjcError::TypeMismatch);
        },
    };
    if plen == usize::MAX {
        return Err(crate::objc::ObjcError::Integrity);
    }
    if prior_parent != 0 {
        if prior_parent == child {
            return Err(crate::objc::ObjcError::Integrity);
        }
        let qj = match env.objc.find_slot(prior_parent) {
            None => {
                return Err(crate::objc::ObjcError::Integrity);
            },
            Some(qj) => qj,
        };
        proof {
            crate::objc::lemma_oid_index(env.objc.objects@, prior_parent, qj as int);
        }
        let ok = match &env.objc.objects[qj].payload {
            crate::objc::HostPayload::View(v) => find_id(&v.subviews, child).is_some(),
            crate::objc::HostPayload::Plain => false,
        };
        if !ok {
            proof {
                let cs = crate::objc::children_of(env.objc.objects@, prior_parent);
                if crate::objc::slot_of(env.objc.objects@, prior_parent).payload is View
                    && first_index_of(cs, child, 0) is None {
                    assert forall|w: int| 0 <= w < cs.len() implies cs[w] != child by {
                        lemma_first_index_none(cs, child, w);
                    }
                }
            }
            return Err(crate::objc::ObjcError::Integrity);
        }
        proof {
            let cs = crate::objc::children_of(env.objc.objects@, prior_parent);
            let k = choose|k: int| first_index_of(cs, child, 0) == Some(k);
            lemma_first_index_some(cs, child, k);
        }
    }
    let ghost e0 = *env;
    let rr = crate::lifecycle::retain(env, child);
    if rr.is_err() {
        proof {
            assert(false);
        }
        return rr;
    }
    let ghost ea = *env;
    proof {
        let ic = crate::objc::oid_index(e0.objc.objects@, child);
        assert forall|o2: u32|
            o2 != child && crate::objc::has_oid(e0.objc.objects@, o2) implies (
        #[trigger] crate::objc::slot_of(ea.objc.objects@, o2)) == crate::objc::slot_of(
            e0.objc.objects@,
            o2,
        ) && crate::objc::has_oid(ea.objc.objects@, o2) by {
            let m = crate::objc::oid_index(e0.objc.objects@, o2);
            assert(m != ic);
            assert(ea.objc.objects@[m] == e0.objc.objects@[m]);
            crate::objc::lemma_oid_index(ea.objc.objects@, o2, m);
        }
        crate::objc::lemma_oid_index(ea.objc.objects@, child, ic);
        assert forall|o2: u32|
            crate::objc::has_oid(ea.objc.objects@, o2) implies crate::objc::has_oid(
            e0.objc.objects@,
            o2,
        ) by {
            let m = crate::objc::oid_index(ea.objc.objects@, o2);
            assert(e0.objc.objects@[m].oid == o2);
        }
    }
    let rd = remove_from_superview(env, child);
    if rd.is_err() {
        proof {
            assert(false);
        }
        return rd;
    }
    let ghost eb = *env;
    let ghost prior_parent_snap = crate::objc::parent_of(e0.objc.objects@, child);
    proof {
        if prior_parent_snap != 0 {
            assert(crate::objc::slot_of(eb.objc.objects@, child).refcount == crate::objc::slot_of(
                e0.objc.objects@,
                child,
            ).refcount);
            // Naming the new parent's entry in the detach post-state
            // lets the detach contract's quantifier instantiate there.
            let this_entry = crate::objc::slot_of(eb.objc.objects@, this);
            assert(crate::objc::has_oid(eb.objc.objects@, this));
        } else {
            assert(eb == ea);
        }
    }
    let ci2 = match env.objc.find_slot(child) {
        None => {
            proof {
                assert(false);
            }
            return Err(crate::objc::ObjcError::UnknownObject);
        },
        Some(ci2) => ci2,
    };
    proof {
        crate::objc::lemma_oid_index(eb.objc.objects@, child, ci2 as int);
    }
    env.objc.set_superview_at(ci2, this);
    let ghost ec = *env;
    proof {
        crate::env::lemma_inv_same_skeleton(eb, ec);
        crate::objc::lemma_oid_index(ec.objc.objects@, child, ci2 as int);
        assert forall|o2: u32|
            o2 != child && crate::objc::has_oid(eb.objc.objects@, o2) implies (
        #[trigger] crate::objc::slot_of(ec.objc.objects@, o2)) == crate::objc::slot_of(
            eb.objc.objects@,
            o2,
        ) && crate::objc::has_oid(ec.objc.objects@, o2) by {
            let m = crate::objc::oid_index(eb.objc.objects@, o2);
            assert(m != ci2 as int);
            assert(ec.objc.objects@[m] == eb.objc.objects@[m]);
            crate::objc::lemma_oid_index(ec.objc.objects@, o2, m);
        }
        assert forall|o2: u32|
            crate::objc::has_oid(ec.objc.objects@, o2) implies crate::objc::has_oid(
            eb.objc.objects@,
            o2,
        ) by {
            let m = crate::objc::oid_index(ec.objc.objects@, o2);
            assert(eb.objc.objects@[m].oid == o2);
        }
    }
    let pj2 = match env.objc.find_slot(this) {
        None => {
            proof {
                assert(false);
            }
            return Err(crate::objc::ObjcError::UnknownObject);
        },
        Some(pj2) => pj2,
    };
    proof {
        crate::objc::lemma_oid_index(ec.objc.objects@, this, pj2 as int);
        assert(crate::objc::children_of(ec.objc.objects@, this) == crate::objc::children_of(
            e0.objc.objects@,
            this,
        ));
    }
    env.objc.push_subview_at(pj2, child);
    proof {
        crate::env::lemma_inv_same_skeleton(ec, *env);
        crate::objc::lemma_oid_index(env.objc.objects@, this, pj2 as int);
        crate::objc::lemma_oid_index(env.objc.objects@, child, ci2 as int);
        assert forall|o2: u32|
            o2 != this && crate::objc::has_oid(ec.objc.objects@, o2) implies (
        #[trigger] crate::objc::slot_of(env.objc.objects@, o2)) == crate::objc::slot_of(
            ec.objc.objects@,
            o2,
        ) && crate::objc::has_oid(env.objc.objects@, o2) by {
            let m = crate::objc::oid_index(ec.objc.objects@, o2);
            assert(m != pj2 as int);
            assert(env.objc.objects@[m] == ec.objc.objects@[m]);
            crate::objc::lemma_oid_index(env.objc.objects@, o2, m);
        }
        assert forall|o2: u32|
            crate::objc::has_oid(env.objc.objects@, o2) implies crate::objc::has_oid(
            ec.objc.objects@,
            o2,
        ) by {
            let m = crate::objc::oid_index(env.objc.objects@, o2);
            assert(ec.objc.objects@[m].oid == o2);
        }
        assert forall|o2: u32|
            o2 != this && o2 != child && o2 != prior_parent_snap && crate::objc::has_oid(e0.objc.objects@, o2)
                implies crate::objc::has_oid(env.objc.objects@, o2)
                && (#[trigger] crate::objc::slot_of(env.objc.objects@, o2))
                == crate::objc::slot_of(e0.objc.objects@, o2) by {
            assert(crate::objc::slot_of(ea.objc.objects@, o2) == crate::objc::slot_of(
                e0.objc.objects@,
                o2,
            ));
            assert(crate::objc::slot_of(eb.objc.objects@, o2) == crate::objc::slot_of(
                ea.objc.objects@,
                o2,
            ));
            assert(crate::objc::slot_of(ec.objc.objects@, o2) == crate::objc::slot_of(
                eb.objc.objects@,
                o2,
            ));
        }
        assert forall|o2: u32|
            o2 != this && o2 != child && o2 != prior_parent_snap && crate::objc::has_oid(env.objc.objects@, o2)
                implies crate::objc::has_oid(e0.objc.objects@, o2) by {
            assert(crate::objc::has_oid(ec.objc.objects@, o2));
            assert(crate::objc::has_oid(eb.objc.objects@, o2));
            // Naming the middle state's entry lets the detach
            // contract's quantifier instantiate at this reference.
            let eb_entry = crate::objc::slot_of(eb.objc.objects@, o2);
            assert(crate::objc::has_oid(ea.objc.objects@, o2));
        }
        assert forall|o2: u32|
            o2 != this && o2 != child && o2 != prior_parent_snap implies (crate::objc::has_oid(
            env.objc.objects@,
            o2,
        ) <==> crate::objc::has_oid(e0.objc.objects@, o2)) by {
            if crate::objc::has_oid(e0.objc.objects@, o2) {
                assert(crate::objc::slot_of(env.objc.objects@, o2) == crate::objc::slot_of(
                    e0.objc.objects@,
                    o2,
                ));
                assert(crate::objc::has_oid(env.objc.objects@, o2));
            }
            if crate::objc::has_oid(env.objc.objects@, o2) {
                assert(crate::objc::has_oid(e0.objc.objects@, o2));
            }
        }
        if prior_parent_snap != 0 && prior_parent_snap != this {
            assert(crate::objc::slot_of(ea.objc.objects@, prior_parent_snap) == crate::objc::slot_of(
                e0.objc.objects@,
                prior_parent_snap,
            ));
            assert(crate::objc::children_of(eb.objc.objects@, prior_parent_snap) == seq_without_first(
                crate::objc::children_of(ea.objc.objects@, prior_parent_snap),
                child,
            ));
            assert(crate::objc::slot_of(ec.objc.objects@, prior_parent_snap) == crate::objc::slot_of(
                eb.objc.objects@,
                prior_parent_snap,
            ));
            assert(crate::objc::slot_of(env.objc.objects@, prior_parent_snap) == crate::objc::slot_of(
                ec.objc.objects@,
                prior_parent_snap,
            ));
        }
    }
    Ok(())
}


/// The add/remove round-trip law: appending a view that is not yet
/// among a parent's children and then detaching it restores the child
/// list exactly. `add_subview` appends the child and `remove_from_superview`
/// drops its first occurrence; this law supplies the sequence step, so
/// the round trip is the identity on the parent's child list — and the
/// child's weak back-reference, null before the add by the scenario's
/// premise, is null again after the remove by that function's contract.
pub proof fn lemma_add_remove_round_trip(children: Seq<u32>, child: u32)
    requires
        !children.contains(child),
    ensures
        seq_without_first(children.push(child), child) == children,
{
    lemma_first_index_push(children, child, 0);
    assert(children.push(child).remove(children.len() as int) =~= children);
}

/// Helper: searching a child list that nowhere holds `x` beyond `i`,
/// extended by `x`, finds exactly the appended position.
proof fn lemma_first_index_push(s: Seq<u32>, x: u32, i: int)
    requires
        0 <= i <= s.len(),
        !s.contains(x),
    ensures
        first_index_of(s.push(x), x, i) == Some(s.len() as int),
    decreases s.len() - i,
{
    if i < s.len() {
        assert(s[i] != x);
        assert(s.push(x)[i] == s[i]);
        lemma_first_index_push(s, x, i + 1);
    } else {
        assert(s.push(x)[i] == x);
    }
}


/// The bounds rectangle of the view object `this`. Fails like
/// `borrow_view`.
pub fn bounds(rt: &crate::objc::Runtime, this: u32) -> (r: Result<Rect, crate::objc::ObjcError>)
    requires
        rt.wf(),
    ensures
        r is Ok <==> crate::objc::has_oid(rt.objects@, this) && crate::objc::slot_of(
            rt.objects@,
            this,
        ).payload is View,
        r matches Ok(b) ==> b == crate::objc::view_of(
            crate::objc::slot_of(rt.objects@, this),
        ).bounds,
        !crate::objc::has_oid(rt.objects@, this) ==> r == Err::<Rect, crate::objc::ObjcError>(
            crate::objc::ObjcError::UnknownObject,
        ),
        crate::objc::has_oid(rt.objects@, this) && !(crate::objc::slot_of(
            rt.objects@,
            this,
        ).payload is View) ==> r == Err::<Rect, crate::objc::ObjcError>(
            crate::objc::ObjcError::TypeMismatch,
        ),
{
    match rt.borrow_view(this) {
        Ok(v) => Ok(v.bounds),
        Err(e) => Err(e),
    }
}

/// Replace the bounds rectangle of the view object `this`, leaving
/// every other object and the rest of the view's state untouched.
/// Fails like `borrow_view`.
pub fn set_bounds(env: &mut crate::env::Environment, this: u32, new_bounds: Rect) -> (r: Result<
    (),
    crate::objc::ObjcError,
>)
    requires
        old(env).inv(),
    ensures
        final(env).inv(),
        r is Err ==> *final(env) == *old(env),
        !crate::objc::has_oid(old(env).objc.objects@, this) ==> r == Err::<
            (),
            crate::objc::ObjcError,
        >(crate::objc::ObjcError::UnknownObject),
        crate::objc::has_oid(old(env).objc.objects@, this) && !(crate::objc::slot_of(
            old(env).objc.objects@,
            this,
        ).payload is View) ==> r == Err::<(), crate::objc::ObjcError>(
            crate::objc::ObjcError::TypeMismatch,
        ),
        crate::objc::has_oid(old(env).objc.objects@, this) && crate::objc::slot_of(
            old(env).objc.objects@,
            this,
        ).payload is View ==> {
            &&& r == Ok::<(), crate::objc::ObjcError>(())
            &&& crate::objc::view_of(
                crate::objc::slot_of(final(env).objc.objects@, this),
            ).bounds == new_bounds
            &&& crate::objc::children_of(final(env).objc.objects@, this)
                == crate::objc::children_of(old(env).objc.objects@, this)
            &&& crate::objc::parent_of(final(env).objc.objects@, this) == crate::objc::parent_of(
                old(env).objc.objects@,
                this,
            )
            &&& crate::objc::slot_of(final(env).objc.objects@, this).refcount
                == crate::objc::slot_of(old(env).objc.objects@, this).refcount
            &&& forall|o2: u32|
                o2 != this ==> ((crate::objc::has_oid(final(env).objc.objects@, o2)
                    <==> crate::objc::has_oid(old(env).objc.objects@, o2)) && (crate::objc::has_oid(
                    old(env).objc.objects@,
                    o2,
                ) ==> #[trigger] crate::objc::slot_of(final(env).objc.objects@, o2)
                    == crate::objc::slot_of(old(env).objc.objects@, o2)))
            &&& final(env).mem == old(env).mem
            &&& final(env).views == old(env).views
            &&& final(env).bridge == old(env).bridge
            &&& final(env).objc.selectors@ == old(env).objc.selectors@
            &&& final(env).objc.classes@ == old(env).objc.classes@
        },
{
    let i = match env.objc.find_slot(this) {
        None => {
            return Err(crate::objc::ObjcError::UnknownObject);
        },
        Some(i) => i,
    };
    proof {
        crate::objc::lemma_oid_index(env.objc.objects@, this, i as int);
    }
    match &env.objc.objects[i].payload {
        crate::objc::HostPayload::View(_) => {},
        crate::objc::HostPayload::Plain => {
            return Err(crate::objc::ObjcError::TypeMismatch);
        },
    }
    let ghost e0 = *env;
    env.objc.set_bounds_at(i, new_bounds);
    proof {
        crate::env::lemma_inv_same_skeleton(e0, *env);
        crate::objc::lemma_oid_index(env.objc.objects@, this, i as int);
        assert forall|o2: u32|
            o2 != this && crate::objc::has_oid(e0.objc.objects@, o2)
                implies #[trigger] crate::objc::slot_of(env.objc.objects@, o2)
            == crate::objc::slot_of(e0.objc.objects@, o2) && crate::objc::has_oid(
            env.objc.objects@,
            o2,
        ) by {
            let m = crate::objc::oid_index(e0.objc.objects@, o2);
            crate::objc::lemma_oid_index(env.objc.objects@, o2, m);
        }
        assert forall|o2: u32|
            o2 != this && crate::objc::has_oid(env.objc.objects@, o2) implies crate::objc::has_oid(
            e0.objc.objects@,
            o2,
        ) by {
            let m = crate::objc::oid_index(env.objc.objects@, o2);
            assert(e0.objc.objects@[m].oid == o2);
        }
    }
    Ok(())
}

} // verus!
