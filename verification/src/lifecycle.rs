//! Reference-counted object lifecycle: allocation, retain/release, and
//! deallocation driven through the dispatch engine.
//!
//! Every ledger entry starts at one on allocation; `retain` increments
//! it and `release` decrements it. The moment an entry reaches zero the
//! object's class-specific teardown runs and the registry entry is
//! removed, synchronously — there is no deferred collection and no
//! cycle detector. The ownership discipline (strong links form a
//! rooted, cycle-free structure; only leaf links are weak) is enforced
//! by the owning side's code, not by a runtime safety net.

use vstd::prelude::*;

use crate::env::Environment;
use crate::mem::MemError;
use crate::objc::{
    has_oid, oid_index, slot_of, unique_oids, view_of, HostPayload, ObjSlot, ObjcError,
};

verus! {

/// Total of all ledger entries: every pending release must decrement
/// one of these, which bounds how much teardown work can remain.
pub open spec fn rc_sum(objs: Seq<ObjSlot>) -> nat
    decreases objs.len(),
{
    if objs.len() == 0 {
        0
    } else {
        (rc_sum(objs.drop_last()) + objs.last().refcount) as nat
    }
}

/// Replacing one entry moves the ledger total by the difference of the
/// two counts.
pub proof fn lemma_rc_sum_update(s: Seq<ObjSlot>, i: int, v: ObjSlot)
    requires
        0 <= i < s.len(),
    ensures
        rc_sum(s.update(i, v)) + s[i].refcount == rc_sum(s) + v.refcount,
    decreases s.len(),
{
    if i == s.len() - 1 {
        assert(s.update(i, v).drop_last() =~= s.drop_last());
    } else {
        assert(s.update(i, v).drop_last() =~= s.drop_last().update(i, v));
        lemma_rc_sum_update(s.drop_last(), i, v);
    }
}

/// Removing one entry lowers the ledger total by exactly its count.
pub proof fn lemma_rc_sum_remove(s: Seq<ObjSlot>, i: int)
    requires
        0 <= i < s.len(),
    ensures
        rc_sum(s.remove(i)) + s[i].refcount == rc_sum(s),
    decreases s.len(),
{
    if i == s.len() - 1 {
        assert(s.remove(i) =~= s.drop_last());
    } else {
        assert(s.remove(i).drop_last() =~= s.drop_last().remove(i));
        assert(s.remove(i).last() == s.last());
        lemma_rc_sum_remove(s.drop_last(), i);
    }
}


/// Entries `m` of `a` and `b` agree on reference, class and ledger
/// count.
pub open spec fn same_skeleton_at(a: Seq<ObjSlot>, b: Seq<ObjSlot>, m: int) -> bool {
    &&& b[m].oid == a[m].oid
    &&& b[m].class == a[m].class
    &&& b[m].refcount == a[m].refcount
}

/// How teardown of `oid` leaves the entry of another live reference
/// `o2`: reference, class and count are kept; the entry is unchanged
/// unless it was a view child of `oid`, in which case only its weak
/// parent reference has been nulled.
pub open spec fn teardown_slot_rel(g0: Seq<ObjSlot>, fin: Seq<ObjSlot>, oid: u32, o2: u32) -> bool {
    let a = slot_of(g0, o2);
    let b = slot_of(fin, o2);
    let parent = slot_of(g0, oid);
    let was_child = parent.payload is View && a.payload is View && view_of(
        parent,
    ).subviews@.contains(o2);
    &&& b.oid == a.oid
    &&& b.class == a.class
    &&& b.refcount == a.refcount
    &&& (!was_child ==> b == a)
    &&& (was_child ==> b == crate::objc::with_parent_nulled(a))
}

/// Allocate a new object of class `class` with the given host-side
/// payload: reserve a fresh reference from the default zone, write the
/// guest-visible class header, and open its ledger entry at one. The
/// returned reference is never null and never collides with a live
/// one. View-shaped objects are entered into the view bookkeeping.
/// Fails only when the default zone is exhausted.
pub fn alloc_object(env: &mut Environment, class: usize, payload: HostPayload) -> (r: Result<
    u32,
    ObjcError,
>)
    requires
        old(env).inv(),
        class < old(env).objc.classes@.len(),
    ensures
        final(env).inv(),
        r is Ok <==> 4 <= old(env).mem.zones@[0].size - old(env).mem.zones@[0].used,
        r is Err ==> r == Err::<u32, ObjcError>(ObjcError::Mem(MemError::OutOfBounds)) && *final(env) == *old(env),
        r matches Ok(oid) ==> {
            &&& oid != 0
            &&& !has_oid(old(env).objc.objects@, oid)
            &&& final(env).objc.objects@ == old(env).objc.objects@.push(
                ObjSlot { oid, class, refcount: 1, payload },
            )
            &&& final(env).objc.selectors@ == old(env).objc.selectors@
            &&& final(env).objc.classes@ == old(env).objc.classes@
            &&& final(env).mem.bytes@.len() == old(env).mem.bytes@.len()
            &&& crate::mem::word_at(final(env).mem.bytes@, oid as int) == class as u32
            &&& forall|b: int|
                0 <= b < old(env).mem.bytes@.len() && (b < oid || b >= oid + 4) ==> final(env).mem.bytes@[b] == old(env).mem.bytes@[b]
            &&& (payload is View ==> final(env).views.views@ == old(env).views.views@.push(oid))
            &&& (!(payload is View) ==> final(env).views.views@ == old(env).views.views@)
            &&& final(env).bridge.calls@ == old(env).bridge.calls@
        },
{
    let a = env.mem.allocate(0, 4);
    let oid = match a {
        Err(e) => {
            return Err(ObjcError::Mem(e));
        },
        Ok(oid) => oid,
    };
    proof {
        assert forall|i: int| 0 <= i < env.objc.objects@.len() implies (
        #[trigger] env.objc.objects@[i]).oid != oid by {
            assert(env.objc.objects@[i].oid + 4 <= oid);
        }
    }
    let w = env.mem.write_u32(oid, class as u32);
    if let Err(e) = w {
        proof {
            assert(false);
        }
        return Err(ObjcError::Mem(e));
    }
    let is_view = matches!(payload, HostPayload::View(_));
    env.objc.objects.push(ObjSlot { oid, class, refcount: 1, payload });
    if is_view {
        env.views.views.push(oid);
    }
    Ok(oid)
}

/// Remove the registry entry and the guest-visible header of `oid`,
/// returning the header range to the default zone. This reclaims
/// bookkeeping and backing memory only: the caller is responsible for
/// the payload's resources, and normally reaches this through the
/// teardown that `release` dispatches. Fails with `UnknownObject`
/// exactly when the reference is not live.
pub fn dealloc_object(env: &mut Environment, oid: u32) -> (r: Result<(), ObjcError>)
    requires
        old(env).inv(),
    ensures
        final(env).inv(),
        r is Ok <==> has_oid(old(env).objc.objects@, oid),
        r is Err ==> r == Err::<(), ObjcError>(ObjcError::UnknownObject) && *final(env) == *old(env),
        r is Ok ==> {
            &&& final(env).objc.objects@ == old(env).objc.objects@.remove(
                oid_index(old(env).objc.objects@, oid),
            )
            &&& !has_oid(final(env).objc.objects@, oid)
            &&& rc_sum(final(env).objc.objects@) + slot_of(old(env).objc.objects@, oid).refcount
                == rc_sum(old(env).objc.objects@)
            &&& final(env).objc.selectors@ == old(env).objc.selectors@
            &&& final(env).objc.classes@ == old(env).objc.classes@
            &&& final(env).mem.bytes@ == old(env).mem.bytes@
            &&& final(env).views.views@ == old(env).views.views@
            &&& final(env).bridge.calls@ == old(env).bridge.calls@
        },
{
    let i = match env.objc.find_slot(oid) {
        None => {
            return Err(ObjcError::UnknownObject);
        },
        Some(i) => i,
    };
    proof {
        crate::objc::lemma_oid_index(env.objc.objects@, oid, i as int);
    }
    let ghost s0 = env.objc.objects@;
    let slot = env.objc.objects.remove(i);
    proof {
        s0.remove_ensures(i as int);
        lemma_rc_sum_remove(s0, i as int);
        assert forall|a: int, b: int|
            0 <= a < env.objc.objects@.len() && 0 <= b < env.objc.objects@.len() && a != b implies (
        #[trigger] env.objc.objects@[a]).oid != (#[trigger] env.objc.objects@[b]).oid by {
            let a0: int = if a < i { a } else { a + 1 };
            let b0: int = if b < i { b } else { b + 1 };
            assert(env.objc.objects@[a] == s0[a0]);
            assert(env.objc.objects@[b] == s0[b0]);
        }
        assert forall|k: int| 0 <= k < env.objc.objects@.len() implies (
        #[trigger] env.objc.objects@[k]).oid != oid by {
            let k0: int = if k < i { k } else { k + 1 };
            assert(env.objc.objects@[k] == s0[k0]);
        }
    }
    let f = env.mem.free(0, oid, 4);
    if f.is_err() {
        proof {
            assert(false);
        }
        return Err(ObjcError::UnknownObject);
    }
    Ok(())
}

/// Increment the ledger entry of `oid`. Valid on any live object
/// however often; fails with `UnknownObject` exactly when the
/// reference is not live, and with `Integrity` in the (physically
/// unreachable) case that the ledger cannot count any higher.
pub fn retain(env: &mut Environment, oid: u32) -> (r: Result<(), ObjcError>)
    requires
        old(env).inv(),
    ensures
        final(env).inv(),
        r is Ok <==> has_oid(old(env).objc.objects@, oid) && slot_of(
            old(env).objc.objects@,
            oid,
        ).refcount < u64::MAX,
        !has_oid(old(env).objc.objects@, oid) ==> r == Err::<(), ObjcError>(
            ObjcError::UnknownObject,
        ) && *final(env) == *old(env),
        has_oid(old(env).objc.objects@, oid) && slot_of(old(env).objc.objects@, oid).refcount
            == u64::MAX ==> r == Err::<(), ObjcError>(ObjcError::Integrity) && *final(env) == *old(env),
        r is Ok ==> {
            &&& final(env).objc.objects@ == old(env).objc.objects@.update(
                oid_index(old(env).objc.objects@, oid),
                ObjSlot {
                    refcount: (slot_of(old(env).objc.objects@, oid).refcount + 1) as u64,
                    ..slot_of(old(env).objc.objects@, oid)
                },
            )
            &&& final(env).objc.selectors@ == old(env).objc.selectors@
            &&& final(env).objc.classes@ == old(env).objc.classes@
            &&& final(env).mem.bytes@ == old(env).mem.bytes@
            &&& final(env).mem.zones@ == old(env).mem.zones@
            &&& final(env).views.views@ == old(env).views.views@
            &&& final(env).bridge.calls@ == old(env).bridge.calls@
        },
{
    let i = match env.objc.find_slot(oid) {
        None => {
            return Err(ObjcError::UnknownObject);
        },
        Some(i) => i,
    };
    proof {
        crate::objc::lemma_oid_index(env.objc.objects@, oid, i as int);
    }
    let n = env.objc.objects[i].refcount;
    if n == u64::MAX {
        return Err(ObjcError::Integrity);
    }
    env.objc.set_refcount(i, n + 1);
    proof {
        assert(env.objc.objects@ =~= old(env).objc.objects@.update(
            i as int,
            ObjSlot {
                refcount: (n + 1) as u64,
                ..slot_of(old(env).objc.objects@, oid)
            },
        ));
    }
    Ok(())
}


/// Copy a child list out of a payload.
fn copy_ids(src: &Vec<u32>) -> (r: Vec<u32>)
    ensures
        r@ == src@,
{
    let n = src.len();
    let mut r: Vec<u32> = Vec::new();
    let mut k: usize = 0;
    while k < n
        invariant
            n == src@.len(),
            k <= n,
            r@ == src@.subrange(0, k as int),
        decreases n - k,
    {
        r.push(src[k]);
        proof {
            assert(r@ =~= src@.subrange(0, k + 1 as int));
        }
        k += 1;
    }
    proof {
        assert(src@.subrange(0, n as int) =~= src@);
    }
    r
}

/// Tear the live object `oid` down: null the weak back-reference of
/// every view child it owns, dispatch the teardown message (a
/// guest-resident implementation is crossed into via the bridge),
/// drop the object from the view bookkeeping, and reclaim its registry
/// entry and guest header. Hands back the children it owned, whose
/// strong references the caller must release.
pub(crate) fn teardown(env: &mut Environment, oid: u32) -> (children: Vec<u32>)
    requires
        old(env).inv(),
        has_oid(old(env).objc.objects@, oid),
    ensures
        final(env).inv(),
        !has_oid(final(env).objc.objects@, oid),
        forall|o2: u32|
            o2 != oid ==> (has_oid(final(env).objc.objects@, o2) <==> has_oid(
                old(env).objc.objects@,
                o2,
            )),
        rc_sum(final(env).objc.objects@) + slot_of(old(env).objc.objects@, oid).refcount == rc_sum(
            old(env).objc.objects@,
        ),
        children@ == (if slot_of(old(env).objc.objects@, oid).payload is View {
            view_of(slot_of(old(env).objc.objects@, oid)).subviews@
        } else {
            Seq::<u32>::empty()
        }),
        slot_of(old(env).objc.objects@, oid).payload is View ==> final(env).views.views@
            == crate::views::seq_without_first(old(env).views.views@, oid),
        !(slot_of(old(env).objc.objects@, oid).payload is View) ==> final(env).views.views@ == old(
            env,
        ).views.views@,
        final(env).objc.selectors@ == old(env).objc.selectors@,
        final(env).objc.classes@ == old(env).objc.classes@,
        final(env).mem.bytes@ == old(env).mem.bytes@,
        (crate::objc::resolve_in(
            old(env).objc.classes@,
            slot_of(old(env).objc.objects@, oid).class as int,
            crate::objc::DEALLOC_SEL,
        ) matches Some(crate::objc::IMP::Guest(f)) ==> {
            &&& final(env).bridge.calls@.len() == old(env).bridge.calls@.len() + 1
            &&& forall|k: int|
                0 <= k < old(env).bridge.calls@.len() ==> final(env).bridge.calls@[k] == old(
                    env,
                ).bridge.calls@[k]
            &&& final(env).bridge.calls@.last().addr == f.addr
        }),
        !(crate::objc::resolve_in(
            old(env).objc.classes@,
            slot_of(old(env).objc.objects@, oid).class as int,
            crate::objc::DEALLOC_SEL,
        ) matches Some(crate::objc::IMP::Guest(f))) ==> final(env).bridge.calls@ == old(
            env,
        ).bridge.calls@,
        (slot_of(old(env).objc.objects@, oid).payload is Plain || view_of(
            slot_of(old(env).objc.objects@, oid),
        ).subviews@.len() == 0) ==> final(env).objc.objects@ == old(env).objc.objects@.remove(
            oid_index(old(env).objc.objects@, oid),
        ),
        forall|o2: u32|
            o2 != oid && has_oid(old(env).objc.objects@, o2)
                ==> #[trigger] teardown_slot_rel(
                old(env).objc.objects@,
                final(env).objc.objects@,
                oid,
                o2,
            ),
{
    let ghost g0 = old(env).objc.objects@;
    let i = match env.objc.find_slot(oid) {
        None => {
            proof {
                assert(false);
            }
            return Vec::new();
        },
        Some(i) => i,
    };
    proof {
        crate::objc::lemma_oid_index(g0, oid, i as int);
    }
    let class = env.objc.objects[i].class;
    let is_view = matches!(env.objc.objects[i].payload, HostPayload::View(_));
    let children: Vec<u32> = match &env.objc.objects[i].payload {
        HostPayload::View(v) => copy_ids(&v.subviews),
        HostPayload::Plain => Vec::new(),
    };
    let n = children.len();
    let mut k: usize = 0;
    while k < n
        invariant
            env.inv(),
            n == children@.len(),
            k <= n,
            env.objc.objects@.len() == g0.len(),
            i < g0.len(),
            g0[i as int].oid == oid,
            oid_index(g0, oid) == i,
            unique_oids(g0),
            is_view == (g0[i as int].payload is View),
            children@ == (if g0[i as int].payload is View {
                view_of(g0[i as int]).subviews@
            } else {
                Seq::<u32>::empty()
            }),
            class == g0[i as int].class,
            forall|m: int|
                0 <= m < g0.len() ==> #[trigger] same_skeleton_at(g0, env.objc.objects@, m),
            forall|m: int|
                0 <= m < g0.len() && m != i && !(children@.contains(g0[m].oid)
                    && g0[m].payload is View) ==> (#[trigger] env.objc.objects@[m]) == g0[m],
            forall|m: int|
                0 <= m < g0.len() && m != i && children@.contains(g0[m].oid)
                    && !children@.subrange(0, k as int).contains(g0[m].oid)
                    && g0[m].payload is View ==> (#[trigger] env.objc.objects@[m]) == g0[m],
            forall|m: int|
                0 <= m < g0.len() && m != i && children@.subrange(0, k as int).contains(g0[m].oid)
                    && g0[m].payload is View ==> (#[trigger] env.objc.objects@[m])
                    == crate::objc::with_parent_nulled(g0[m]),
            env.objc.objects@[i as int] == g0[i as int],
            rc_sum(env.objc.objects@) == rc_sum(g0),
            env.mem == old(env).mem,
            env.views == old(env).views,
            env.bridge == old(env).bridge,
            env.objc.selectors@ == old(env).objc.selectors@,
            env.objc.classes@ == old(env).objc.classes@,
        decreases n - k,
    {
        let c = children[k];
        let ghost prev = env.objc.objects@;
        match env.objc.find_slot(c) {
            None => {},
            Some(j) => {
                if j != i {
                    let child_is_view = matches!(
                        env.objc.objects[j].payload,
                        HostPayload::View(_)
                    );
                    if child_is_view {
                        env.objc.set_superview_at(j, 0);
                        proof {
                            assert(env.objc.objects@ =~= prev.update(
                                j as int,
                                env.objc.objects@[j as int],
                            ));
                            lemma_rc_sum_update(prev, j as int, env.objc.objects@[j as int]);
                        }
                    }
                }
            },
        }
        proof {
            assert(children@.subrange(0, (k + 1) as int) =~= children@.subrange(0, k as int).push(
                c,
            ));
            assert(children@.subrange(0, (k + 1) as int)[k as int] == c);
            assert(children@.contains(c)) by {
                assert(children@[k as int] == c);
            }
            assert forall|x: u32|
                children@.subrange(0, k as int).contains(x) implies children@.subrange(
                0,
                (k + 1) as int,
            ).contains(x) by {
                let w = choose|w: int|
                    0 <= w < k && #[trigger] children@.subrange(0, k as int)[w] == x;
                assert(children@.subrange(0, (k + 1) as int)[w] == x);
            }
            assert forall|m: int|
                0 <= m < g0.len() implies #[trigger] same_skeleton_at(g0, env.objc.objects@, m) by {
                assert(same_skeleton_at(g0, prev, m));
            }
            assert forall|m: int|
                0 <= m < g0.len() && m != i && children@.contains(g0[m].oid)
                    && !children@.subrange(0, (k + 1) as int).contains(g0[m].oid)
                    && g0[m].payload is View implies (#[trigger] env.objc.objects@[m]) == g0[m] by {
                assert(!children@.subrange(0, k as int).contains(g0[m].oid));
                assert(prev[m] == g0[m]);
                assert(g0[m].oid != c);
            }
            assert forall|m: int|
                0 <= m < g0.len() && m != i && children@.subrange(0, (k + 1) as int).contains(
                    g0[m].oid,
                ) && g0[m].payload is View implies (#[trigger] env.objc.objects@[m])
                == crate::objc::with_parent_nulled(g0[m]) by {
                assert(children@.contains(g0[m].oid)) by {
                    let w = choose|w: int|
                        0 <= w < k + 1 && #[trigger] children@.subrange(0, (k + 1) as int)[w]
                            == g0[m].oid;
                    assert(children@[w] == g0[m].oid);
                }
                if children@.subrange(0, k as int).contains(g0[m].oid) {
                    assert(prev[m] == crate::objc::with_parent_nulled(g0[m]));
                } else {
                    assert(g0[m].oid == c);
                    assert(prev[m] == g0[m]);
                    assert(prev[m].oid == c);
                    assert(has_oid(prev, c));
                }
            }
        }
        k += 1;
    }
    proof {
        assert(children@.subrange(0, n as int) =~= children@);
    }
    let imp = env.objc.resolve(class, crate::objc::DEALLOC_SEL);
    match imp {
        Some(crate::objc::IMP::Guest(f)) => {
            let mut args: Vec<u32> = Vec::new();
            args.push(oid);
            args.push(crate::objc::DEALLOC_SEL as u32);
            env.bridge.call_guest(f, args);
        },
        _ => {},
    }
    if is_view {
        crate::views::untrack_view(&mut env.views, oid);
    }
    let ghost cur = env.objc.objects@;
    proof {
        crate::objc::lemma_oid_index(cur, oid, i as int);
    }
    let d = dealloc_object(env, oid);
    if d.is_err() {
        proof {
            assert(false);
        }
    }
    proof {
        cur.remove_ensures(i as int);
        if slot_of(g0, oid).payload is Plain || view_of(slot_of(g0, oid)).subviews@.len() == 0 {
            assert(cur =~= g0);
        }
        assert forall|o2: u32|
            o2 != oid && has_oid(env.objc.objects@, o2) implies has_oid(g0, o2) by {
            let m2 = choose|t: int|
                0 <= t < env.objc.objects@.len() && env.objc.objects@[t].oid == o2;
            let m: int = if m2 < i {
                m2
            } else {
                m2 + 1
            };
            assert(env.objc.objects@[m2] == cur[m]);
            assert(same_skeleton_at(g0, cur, m));
            assert(0 <= m < g0.len() && g0[m].oid == o2);
            assert(has_oid(g0, o2));
        }
        assert forall|o2: u32| o2 != oid && has_oid(g0, o2) implies has_oid(env.objc.objects@, o2)
            && #[trigger] teardown_slot_rel(g0, env.objc.objects@, oid, o2) by {
            let m = oid_index(g0, o2);
            assert(g0[m].oid == o2);
            assert(m != i);
            assert(same_skeleton_at(g0, cur, m));
            assert(cur[m].oid == o2);
            crate::objc::lemma_oid_index(cur, o2, m);
            let m2: int = if m < i {
                m
            } else {
                m - 1
            };
            assert(env.objc.objects@[m2] == cur[m]);
            crate::objc::lemma_oid_index(env.objc.objects@, o2, m2);
        }
        assert forall|o2: u32|
            o2 != oid implies (has_oid(env.objc.objects@, o2) <==> has_oid(g0, o2)) by {
            if has_oid(env.objc.objects@, o2) {
                assert(has_oid(g0, o2));
            }
            if has_oid(g0, o2) {
                assert(teardown_slot_rel(g0, env.objc.objects@, oid, o2));
                assert(has_oid(env.objc.objects@, o2));
            }
        }
    }
    children
}

/// Release every reference named in `pending`, tearing down any object
/// whose ledger reaches zero and cascading to the children that
/// teardown hands back. Entries that are no longer live are skipped:
/// with ownership forming a cycle-free structure, a reference is handed
/// to this worklist once per strong link.
pub(crate) fn release_all(env: &mut Environment, pending: Vec<u32>)
    requires
        old(env).inv(),
    ensures
        final(env).inv(),
        forall|o2: u32|
            has_oid(final(env).objc.objects@, o2) ==> has_oid(old(env).objc.objects@, o2),
        forall|o2: u32|
            has_oid(final(env).objc.objects@, o2) ==> #[trigger] slot_of(
                final(env).objc.objects@,
                o2,
            ).class == slot_of(old(env).objc.objects@, o2).class && slot_of(
                final(env).objc.objects@,
                o2,
            ).refcount <= slot_of(old(env).objc.objects@, o2).refcount,
        final(env).objc.selectors@ == old(env).objc.selectors@,
        final(env).objc.classes@ == old(env).objc.classes@,
        final(env).mem.bytes@ == old(env).mem.bytes@,
{
    let mut pending = pending;
    while pending.len() > 0
        invariant
            env.inv(),
            forall|o2: u32|
                has_oid(env.objc.objects@, o2) ==> has_oid(old(env).objc.objects@, o2),
            forall|o2: u32|
                has_oid(env.objc.objects@, o2) ==> #[trigger] slot_of(
                    env.objc.objects@,
                    o2,
                ).class == slot_of(old(env).objc.objects@, o2).class && slot_of(
                    env.objc.objects@,
                    o2,
                ).refcount <= slot_of(old(env).objc.objects@, o2).refcount,
            env.objc.selectors@ == old(env).objc.selectors@,
            env.objc.classes@ == old(env).objc.classes@,
            env.mem.bytes@ == old(env).mem.bytes@,
        decreases rc_sum(env.objc.objects@), pending@.len(),
    {
        let c = match pending.pop() {
            Some(c) => c,
            None => {
                proof {
                    assert(false);
                }
                return ;
            },
        };
        let ghost prev = env.objc.objects@;
        match env.objc.find_slot(c) {
            None => {},
            Some(j) => {
                let cnt = env.objc.objects[j].refcount;
                if cnt >= 2 {
                    env.objc.set_refcount(j, cnt - 1);
                    proof {
                        assert(env.objc.objects@ =~= prev.update(
                            j as int,
                            env.objc.objects@[j as int],
                        ));
                        lemma_rc_sum_update(prev, j as int, env.objc.objects@[j as int]);
                        assert forall|o2: u32| has_oid(env.objc.objects@, o2) implies has_oid(
                            prev,
                            o2,
                        ) && #[trigger] slot_of(env.objc.objects@, o2).class == slot_of(
                            prev,
                            o2,
                        ).class && slot_of(env.objc.objects@, o2).refcount <= slot_of(
                            prev,
                            o2,
                        ).refcount by {
                            let m = choose|m: int|
                                0 <= m < env.objc.objects@.len() && env.objc.objects@[m].oid == o2;
                            assert(prev[m].oid == o2);
                            crate::objc::lemma_oid_index(prev, o2, m);
                            crate::objc::lemma_oid_index(env.objc.objects@, o2, m);
                        }
                    }
                } else {
                    proof {
                        crate::objc::lemma_oid_index(prev, c, j as int);
                    }
                    let mut cs = teardown(env, c);
                    pending.append(&mut cs);
                    proof {
                        assert forall|o2: u32|
                            has_oid(env.objc.objects@, o2) implies #[trigger] slot_of(
                            env.objc.objects@,
                            o2,
                        ).class == slot_of(prev, o2).class && slot_of(
                            env.objc.objects@,
                            o2,
                        ).refcount <= slot_of(prev, o2).refcount by {
                            assert(o2 != c);
                            assert(teardown_slot_rel(prev, env.objc.objects@, c, o2));
                        }
                    }
                }
            },
        }
        proof {
            assert forall|o2: u32|
                has_oid(env.objc.objects@, o2) implies #[trigger] slot_of(
                env.objc.objects@,
                o2,
            ).class == slot_of(old(env).objc.objects@, o2).class && slot_of(
                env.objc.objects@,
                o2,
            ).refcount <= slot_of(old(env).objc.objects@, o2).refcount by {
                assert(has_oid(prev, o2));
                assert(slot_of(prev, o2).class == slot_of(old(env).objc.objects@, o2).class
                    && slot_of(prev, o2).refcount <= slot_of(old(env).objc.objects@, o2).refcount);
            }
        }
    }
}


/// What sending the teardown message directly does, from state `pre`
/// to state `post`: a live receiver is torn down whatever its ledger
/// read — the ownership discipline, not a runtime safety net, keeps
/// hosts from doing this early — and a dead reference is a
/// distinguished error, changing nothing.
pub open spec fn dealloc_send_post(
    pre: Environment,
    post: Environment,
    receiver: u32,
    r: Result<u32, ObjcError>,
) -> bool {
    let objs = pre.objc.objects@;
    &&& (r is Ok <==> has_oid(objs, receiver))
    &&& (r is Err ==> r == Err::<u32, ObjcError>(ObjcError::UnknownObject) && post == pre)
    &&& (r is Ok ==> {
        &&& r == Ok::<u32, ObjcError>(0)
        &&& !has_oid(post.objc.objects@, receiver)
        &&& forall|o2: u32| has_oid(post.objc.objects@, o2) ==> has_oid(objs, o2)
        &&& forall|o2: u32|
            has_oid(post.objc.objects@, o2) ==> #[trigger] slot_of(
                post.objc.objects@,
                o2,
            ).class == slot_of(objs, o2).class && slot_of(post.objc.objects@, o2).refcount
                <= slot_of(objs, o2).refcount
        &&& post.objc.selectors@ == pre.objc.selectors@
        &&& post.objc.classes@ == pre.objc.classes@
        &&& post.mem.bytes@ == pre.mem.bytes@
        &&& ((slot_of(objs, receiver).payload is Plain || view_of(
            slot_of(objs, receiver),
        ).subviews@.len() == 0) ==> {
            &&& post.objc.objects@ == objs.remove(oid_index(objs, receiver))
            &&& (slot_of(objs, receiver).payload is View ==> post.views.views@
                == crate::views::seq_without_first(pre.views.views@, receiver))
            &&& (slot_of(objs, receiver).payload is Plain ==> post.views.views@
                == pre.views.views@)
        })
    })
}

/// Tear the live object `receiver` down now, as the dispatch engine
/// does when the teardown message reaches its host-native
/// implementation: class-specific teardown runs, the children's strong
/// references are released in turn, and the registry entry and guest
/// header are reclaimed. Fails with `UnknownObject` exactly when the
/// reference is not live.
pub(crate) fn dealloc_now(env: &mut Environment, receiver: u32) -> (r: Result<u32, ObjcError>)
    requires
        old(env).inv(),
    ensures
        final(env).inv(),
        dealloc_send_post(*old(env), *final(env), receiver, r),
{
    match env.objc.find_slot(receiver) {
        None => {
            return Err(ObjcError::UnknownObject);
        },
        Some(_) => {},
    }
    let ghost e0 = *env;
    let cs = teardown(env, receiver);
    let ghost et = *env;
    if cs.len() > 0 {
        release_all(env, cs);
    }
    proof {
        assert forall|o2: u32|
            has_oid(env.objc.objects@, o2) implies #[trigger] slot_of(
            env.objc.objects@,
            o2,
        ).class == slot_of(e0.objc.objects@, o2).class && slot_of(
            env.objc.objects@,
            o2,
        ).refcount <= slot_of(e0.objc.objects@, o2).refcount && has_oid(e0.objc.objects@, o2) by {
            assert(has_oid(et.objc.objects@, o2));
            assert(slot_of(env.objc.objects@, o2).class == slot_of(et.objc.objects@, o2).class
                && slot_of(env.objc.objects@, o2).refcount <= slot_of(
                et.objc.objects@,
                o2,
            ).refcount);
            assert(o2 != receiver);
            assert(teardown_slot_rel(e0.objc.objects@, et.objc.objects@, receiver, o2));
        }
    }
    Ok(0)
}

/// Decrement the ledger entry of `oid`. When it reaches zero, the
/// teardown message is dispatched on the object (so class-specific
/// teardown logic runs), its children's strong references are released
/// in turn, and the registry entry and guest header are reclaimed, all
/// synchronously. Fails with `UnknownObject` exactly when the
/// reference is not live.
pub fn release(env: &mut Environment, oid: u32) -> (r: Result<(), ObjcError>)
    requires
        old(env).inv(),
    ensures
        final(env).inv(),
        r is Ok <==> has_oid(old(env).objc.objects@, oid),
        r is Err ==> r == Err::<(), ObjcError>(ObjcError::UnknownObject) && *final(env) == *old(env),
        has_oid(old(env).objc.objects@, oid) && slot_of(old(env).objc.objects@, oid).refcount >= 2
            ==> {
            &&& final(env).objc.objects@ == old(env).objc.objects@.update(
                oid_index(old(env).objc.objects@, oid),
                ObjSlot {
                    refcount: (slot_of(old(env).objc.objects@, oid).refcount - 1) as u64,
                    ..slot_of(old(env).objc.objects@, oid)
                },
            )
            &&& final(env).objc.selectors@ == old(env).objc.selectors@
            &&& final(env).objc.classes@ == old(env).objc.classes@
            &&& final(env).mem.bytes@ == old(env).mem.bytes@
            &&& final(env).mem.zones@ == old(env).mem.zones@
            &&& final(env).views.views@ == old(env).views.views@
            &&& final(env).bridge.calls@ == old(env).bridge.calls@
        },
        has_oid(old(env).objc.objects@, oid) && slot_of(old(env).objc.objects@, oid).refcount == 1
            ==> {
            &&& !has_oid(final(env).objc.objects@, oid)
            &&& forall|o2: u32|
                has_oid(final(env).objc.objects@, o2) ==> has_oid(old(env).objc.objects@, o2)
            &&& forall|o2: u32|
                has_oid(final(env).objc.objects@, o2) ==> #[trigger] slot_of(
                    final(env).objc.objects@,
                    o2,
                ).class == slot_of(old(env).objc.objects@, o2).class && slot_of(
                    final(env).objc.objects@,
                    o2,
                ).refcount <= slot_of(old(env).objc.objects@, o2).refcount
            &&& final(env).objc.selectors@ == old(env).objc.selectors@
            &&& final(env).objc.classes@ == old(env).objc.classes@
            &&& final(env).mem.bytes@ == old(env).mem.bytes@
        },
        has_oid(old(env).objc.objects@, oid) && slot_of(old(env).objc.objects@, oid).refcount == 1
            && (slot_of(old(env).objc.objects@, oid).payload is Plain || view_of(
            slot_of(old(env).objc.objects@, oid),
        ).subviews@.len() == 0) ==> {
            &&& final(env).objc.objects@ == old(env).objc.objects@.remove(
                oid_index(old(env).objc.objects@, oid),
            )
            &&& (slot_of(old(env).objc.objects@, oid).payload is View ==> final(env).views.views@
                == crate::views::seq_without_first(old(env).views.views@, oid))
            &&& (slot_of(old(env).objc.objects@, oid).payload is Plain ==> final(env).views.views@
                == old(env).views.views@)
        },
{
    let i = match env.objc.find_slot(oid) {
        None => {
            return Err(ObjcError::UnknownObject);
        },
        Some(i) => i,
    };
    proof {
        crate::objc::lemma_oid_index(env.objc.objects@, oid, i as int);
    }
    let cnt = env.objc.objects[i].refcount;
    if cnt >= 2 {
        let ghost prev = env.objc.objects@;
        env.objc.set_refcount(i, cnt - 1);
        proof {
            assert(env.objc.objects@ =~= prev.update(i as int, env.objc.objects@[i as int]));
        }
        Ok(())
    } else {
        let ghost e0 = *env;
        let cs = teardown(env, oid);
        let ghost et = *env;
        if cs.len() > 0 {
            release_all(env, cs);
        }
        proof {
            assert forall|o2: u32|
                has_oid(env.objc.objects@, o2) implies #[trigger] slot_of(
                env.objc.objects@,
                o2,
            ).class == slot_of(e0.objc.objects@, o2).class && slot_of(
                env.objc.objects@,
                o2,
            ).refcount <= slot_of(e0.objc.objects@, o2).refcount && has_oid(
                e0.objc.objects@,
                o2,
            ) by {
                assert(has_oid(et.objc.objects@, o2));
                assert(slot_of(env.objc.objects@, o2).class == slot_of(et.objc.objects@, o2).class
                    && slot_of(env.objc.objects@, o2).refcount <= slot_of(
                    et.objc.objects@,
                    o2,
                ).refcount);
                assert(o2 != oid);
                assert(teardown_slot_rel(e0.objc.objects@, et.objc.objects@, oid, o2));
            }
        }
        Ok(())
    }
}


/// One step of the reference-count ledger: what `retain` and `release`
/// do to one object's count.
#[derive(Clone, Copy, PartialEq, Eq, Structural, Debug)]
pub enum RcOp {
    /// Increment the ledger.
    Retain,
    /// Decrement the ledger; at one, the object is deallocated.
    Release,
}

/// Number of retains in `ops`.
pub open spec fn retains(ops: Seq<RcOp>) -> nat
    decreases ops.len(),
{
    if ops.len() == 0 {
        0
    } else {
        (retains(ops.drop_last()) + if ops.last() is Retain {
            1nat
        } else {
            0nat
        }) as nat
    }
}

/// Number of releases in `ops`.
pub open spec fn releases(ops: Seq<RcOp>) -> nat
    decreases ops.len(),
{
    if ops.len() == 0 {
        0
    } else {
        (releases(ops.drop_last()) + if ops.last() is Release {
            1nat
        } else {
            0nat
        }) as nat
    }
}

/// Whether a newly allocated object (ledger at one) is still live after
/// the sequence `ops` of retains and releases: it dies at the release
/// that finds the ledger at one, exactly as `release`'s contract
/// removes the entry then.
pub open spec fn live_after(ops: Seq<RcOp>) -> bool
    decreases ops.len(),
{
    if ops.len() == 0 {
        true
    } else {
        let prefix = ops.drop_last();
        live_after(prefix) && !(ops.last() is Release && 1 + retains(prefix) == 1 + releases(
            prefix,
        ))
    }
}

/// The reference-count liveness law: a newly allocated object remains
/// live exactly as long as, over every prefix of the retain/release
/// history, the releases have not caught up with one (the initial
/// reference) plus the retains; while it is live, its ledger reads one
/// plus retains minus releases. `retain` and `release` implement
/// precisely these ledger steps, and once the object is dead,
/// `borrow_view` fails with `UnknownObject` by its own contract.
pub proof fn lemma_refcount_liveness(ops: Seq<RcOp>)
    ensures
        live_after(ops) <==> (forall|p: int|
            0 <= p <= ops.len() ==> releases(#[trigger] ops.subrange(0, p)) <= retains(
                ops.subrange(0, p),
            )),
        live_after(ops) ==> 1 + retains(ops) - releases(ops) >= 1,
    decreases ops.len(),
{
    if ops.len() == 0 {
        assert(ops.subrange(0, 0) =~= ops);
    } else {
        let prefix = ops.drop_last();
        lemma_refcount_liveness(prefix);
        assert(ops.subrange(0, ops.len() as int) =~= ops);
        assert forall|p: int| 0 <= p <= prefix.len() implies #[trigger] ops.subrange(0, p)
            == prefix.subrange(0, p) by {
            assert(ops.subrange(0, p) =~= prefix.subrange(0, p));
        }
        if live_after(ops) {
            assert forall|p: int|
                0 <= p <= ops.len() implies releases(#[trigger] ops.subrange(0, p)) <= retains(
                ops.subrange(0, p),
            ) by {
                if p <= prefix.len() {
                    assert(ops.subrange(0, p) == prefix.subrange(0, p));
                }
            }
        } else {
            if live_after(prefix) {
                assert(releases(ops) > retains(ops));
                assert(!(releases(ops.subrange(0, ops.len() as int)) <= retains(
                    ops.subrange(0, ops.len() as int),
                )));
            } else {
                let p = choose|p: int|
                    0 <= p <= prefix.len() && !(releases(#[trigger] prefix.subrange(0, p))
                        <= retains(prefix.subrange(0, p)));
                assert(ops.subrange(0, p) == prefix.subrange(0, p));
                assert(!(releases(ops.subrange(0, p)) <= retains(ops.subrange(0, p))));
            }
        }
    }
}

} // verus!
