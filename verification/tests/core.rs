//! End-to-end tests of the object model, lifecycle, dispatch, memory
//! model and the one-shot initialization primitive.

use emucore::abi::{Bridge, GuestFunction};
use emucore::dispatch::{send_message, send_message_super};
use emucore::env::Environment;
use emucore::lifecycle::{alloc_object, release, retain};
use emucore::mem::{GuestMem, MemError};
use emucore::objc::{HostIMP, HostPayload, ObjcError, IMP};
use emucore::once::{pthread_once, OnceError, MAGIC_ONCE, ONCE_DONE};
use emucore::views::{
    add_subview, bounds, bring_subview_to_front, remove_from_superview, set_bounds, superview,
    Rect, ViewObject,
};

fn view_payload() -> HostPayload {
    HostPayload::View(ViewObject {
        bounds: Rect { x: 0, y: 0, w: 0, h: 0 },
        subviews: Vec::new(),
        superview: 0,
    })
}

fn widget_env() -> (Environment, usize) {
    let mut env = Environment::new(4096);
    let class = env.objc.register_class("Widget", None, Vec::new()).unwrap();
    (env, class)
}

#[test]
fn refcount_keeps_object_live_until_releases_balance() {
    let (mut env, class) = widget_env();
    let oid = alloc_object(&mut env, class, view_payload()).unwrap();
    assert_eq!(env.objc.retain_count(oid).unwrap(), 1);
    retain(&mut env, oid).unwrap();
    retain(&mut env, oid).unwrap();
    assert_eq!(env.objc.retain_count(oid).unwrap(), 3);
    // Releases one and two: still live, since releases < 1 + retains.
    release(&mut env, oid).unwrap();
    assert!(env.objc.borrow_view(oid).is_ok());
    release(&mut env, oid).unwrap();
    assert!(env.objc.borrow_view(oid).is_ok());
    assert_eq!(env.objc.retain_count(oid).unwrap(), 1);
    // Release three balances 1 (initial) + 2 (retains): deallocated.
    release(&mut env, oid).unwrap();
    assert!(matches!(env.objc.borrow_view(oid), Err(ObjcError::UnknownObject)));
    // A further release on the dead reference is an error.
    assert_eq!(release(&mut env, oid), Err(ObjcError::UnknownObject));
}

#[test]
fn add_then_remove_restores_parent_child_state() {
    let (mut env, class) = widget_env();
    let parent = alloc_object(&mut env, class, view_payload()).unwrap();
    let child = alloc_object(&mut env, class, view_payload()).unwrap();
    // Weak back-reference is null before the add.
    assert_eq!(superview(&env.objc, child).unwrap(), 0);
    assert!(env.objc.borrow_view(parent).unwrap().subviews.is_empty());
    retain(&mut env, child).unwrap(); // an outside owner, so the remove does not deallocate
    add_subview(&mut env, parent, child).unwrap();
    assert_eq!(env.objc.borrow_view(parent).unwrap().subviews, vec![child]);
    assert_eq!(superview(&env.objc, child).unwrap(), parent);
    remove_from_superview(&mut env, child).unwrap();
    // The round trip restores the prior state exactly.
    assert!(env.objc.borrow_view(parent).unwrap().subviews.is_empty());
    assert_eq!(superview(&env.objc, child).unwrap(), 0);
    assert_eq!(env.objc.retain_count(child).unwrap(), 2);
}

#[test]
fn widget_round_trip_scenario() {
    let mut env = Environment::new(4096);
    let class = env.objc.register_class("Widget", None, Vec::new()).unwrap();
    let a = alloc_object(
        &mut env,
        class,
        HostPayload::View(ViewObject {
            bounds: Rect { x: 0, y: 0, w: 100, h: 50 },
            subviews: Vec::new(),
            superview: 0,
        }),
    )
    .unwrap();
    let b = alloc_object(&mut env, class, view_payload()).unwrap();
    add_subview(&mut env, a, b).unwrap();
    assert_eq!(env.objc.borrow_view(a).unwrap().subviews, vec![b]);
    assert_eq!(superview(&env.objc, b).unwrap(), a);
    assert_eq!(env.objc.borrow_view(a).unwrap().bounds, Rect { x: 0, y: 0, w: 100, h: 50 });
    remove_from_superview(&mut env, b).unwrap();
    assert!(env.objc.borrow_view(a).unwrap().subviews.is_empty());
    assert_eq!(superview(&env.objc, b).unwrap(), 0);
    // Deallocate B: its only remaining reference goes away.
    release(&mut env, b).unwrap();
    assert!(matches!(env.objc.borrow_view(b), Err(ObjcError::UnknownObject)));
}

#[test]
fn deallocating_parent_nulls_child_back_reference() {
    let (mut env, class) = widget_env();
    let parent = alloc_object(&mut env, class, view_payload()).unwrap();
    let child = alloc_object(&mut env, class, view_payload()).unwrap();
    retain(&mut env, child).unwrap(); // keep the child alive past the parent
    add_subview(&mut env, parent, child).unwrap();
    assert_eq!(superview(&env.objc, child).unwrap(), parent);
    // The parent's teardown nulls the weak back-reference and releases
    // its strong link; the child survives through the outside owner.
    release(&mut env, parent).unwrap();
    assert!(matches!(env.objc.borrow_view(parent), Err(ObjcError::UnknownObject)));
    assert_eq!(superview(&env.objc, child).unwrap(), 0);
    assert_eq!(env.objc.retain_count(child).unwrap(), 2);
}

#[test]
fn override_beats_superclass_and_super_send_skips_it() {
    let mut env = Environment::new(4096);
    let sel = env.objc.intern_selector("poke");
    let base_imp = IMP::Guest(GuestFunction { addr: 0x1000 });
    let sub_imp = IMP::Guest(GuestFunction { addr: 0x2000 });
    let base = env.objc.register_class("Base", None, vec![(sel, base_imp)]).unwrap();
    let sub = env.objc.register_class("Sub", Some(base), vec![(sel, sub_imp)]).unwrap();
    let receiver = alloc_object(&mut env, sub, HostPayload::Plain).unwrap();
    // Dispatch on the subclass finds the override.
    send_message(&mut env, receiver, sel, &Vec::new()).unwrap();
    assert_eq!(env.bridge.calls.last().unwrap().addr, 0x2000);
    assert_eq!(env.bridge.calls.last().unwrap().args, vec![receiver, sel as u32]);
    // A super-directed send from within the override reaches the
    // superclass implementation, never the override itself.
    send_message_super(&mut env, receiver, sub, sel, &vec![7, 9]).unwrap();
    assert_eq!(env.bridge.calls.last().unwrap().addr, 0x1000);
    assert_eq!(env.bridge.calls.last().unwrap().args, vec![receiver, sel as u32, 7, 9]);
    assert_eq!(env.bridge.calls.len(), 2);
}

#[test]
fn unregistered_selector_is_does_not_understand() {
    let mut env = Environment::new(4096);
    let sel = env.objc.intern_selector("poke");
    let missing = env.objc.intern_selector("undefinedMessage");
    let base = env
        .objc
        .register_class("Base", None, vec![(sel, IMP::Guest(GuestFunction { addr: 0x1000 }))])
        .unwrap();
    let sub = env.objc.register_class("Sub", Some(base), Vec::new()).unwrap();
    let receiver = alloc_object(&mut env, sub, HostPayload::Plain).unwrap();
    // Neither the class nor any ancestor implements it: never a no-op.
    assert_eq!(
        send_message(&mut env, receiver, missing, &Vec::new()),
        Err(ObjcError::DoesNotUnderstand)
    );
    assert!(env.bridge.calls.is_empty());
}

#[test]
fn host_native_superview_dispatches() {
    let mut env = Environment::new(4096);
    let sel = env.objc.intern_selector("superview");
    let class = env
        .objc
        .register_class("Widget", None, vec![(sel, IMP::Host(HostIMP::ViewSuperview))])
        .unwrap();
    let parent = alloc_object(&mut env, class, view_payload()).unwrap();
    let child = alloc_object(&mut env, class, view_payload()).unwrap();
    add_subview(&mut env, parent, child).unwrap();
    assert_eq!(send_message(&mut env, child, sel, &Vec::new()), Ok(parent));
    assert_eq!(send_message(&mut env, parent, sel, &Vec::new()), Ok(0));
}

#[test]
fn host_native_add_subview_dispatches() {
    let mut env = Environment::new(4096);
    let sel = env.objc.intern_selector("addSubview:");
    let class = env
        .objc
        .register_class("Widget", None, vec![(sel, IMP::Host(HostIMP::ViewAddSubview))])
        .unwrap();
    let parent = alloc_object(&mut env, class, view_payload()).unwrap();
    let child = alloc_object(&mut env, class, view_payload()).unwrap();
    send_message(&mut env, parent, sel, &vec![child]).unwrap();
    assert_eq!(env.objc.borrow_view(parent).unwrap().subviews, vec![child]);
    assert_eq!(superview(&env.objc, child).unwrap(), parent);
    assert_eq!(env.objc.retain_count(child).unwrap(), 2);
}

#[test]
fn bring_subview_to_front_reorders() {
    let (mut env, class) = widget_env();
    let parent = alloc_object(&mut env, class, view_payload()).unwrap();
    let c1 = alloc_object(&mut env, class, view_payload()).unwrap();
    let c2 = alloc_object(&mut env, class, view_payload()).unwrap();
    let c3 = alloc_object(&mut env, class, view_payload()).unwrap();
    add_subview(&mut env, parent, c1).unwrap();
    add_subview(&mut env, parent, c2).unwrap();
    add_subview(&mut env, parent, c3).unwrap();
    assert_eq!(env.objc.borrow_view(parent).unwrap().subviews, vec![c1, c2, c3]);
    bring_subview_to_front(&mut env, parent, c1).unwrap();
    assert_eq!(env.objc.borrow_view(parent).unwrap().subviews, vec![c2, c3, c1]);
    // Re-adding an existing child only moves it to the front.
    add_subview(&mut env, parent, c3).unwrap();
    assert_eq!(env.objc.borrow_view(parent).unwrap().subviews, vec![c2, c1, c3]);
    // A reference that is not a child at all is a malformed request.
    let stranger = alloc_object(&mut env, class, view_payload()).unwrap();
    assert_eq!(bring_subview_to_front(&mut env, parent, stranger), Err(ObjcError::Integrity));
}

#[test]
fn reparenting_moves_child_between_parents() {
    let (mut env, class) = widget_env();
    let p1 = alloc_object(&mut env, class, view_payload()).unwrap();
    let p2 = alloc_object(&mut env, class, view_payload()).unwrap();
    let child = alloc_object(&mut env, class, view_payload()).unwrap();
    add_subview(&mut env, p1, child).unwrap();
    assert_eq!(env.objc.retain_count(child).unwrap(), 2);
    add_subview(&mut env, p2, child).unwrap();
    assert!(env.objc.borrow_view(p1).unwrap().subviews.is_empty());
    assert_eq!(env.objc.borrow_view(p2).unwrap().subviews, vec![child]);
    assert_eq!(superview(&env.objc, child).unwrap(), p2);
    // The old strong link was released and a new one taken: net one owner.
    assert_eq!(env.objc.retain_count(child).unwrap(), 2);
}

#[test]
fn class_registry_errors() {
    let mut env = Environment::new(4096);
    env.objc.register_class("Widget", None, Vec::new()).unwrap();
    assert_eq!(
        env.objc.register_class("Widget", None, Vec::new()),
        Err(ObjcError::DuplicateClass)
    );
    assert!(env.objc.get_known_class("Widget").is_ok());
    assert_eq!(env.objc.get_known_class("Gadget"), Err(ObjcError::UnknownClass));
}

#[test]
fn payload_shape_errors() {
    let (mut env, class) = widget_env();
    let plain = alloc_object(&mut env, class, HostPayload::Plain).unwrap();
    assert!(matches!(env.objc.borrow_view(plain), Err(ObjcError::TypeMismatch)));
    assert_eq!(superview(&env.objc, plain), Err(ObjcError::TypeMismatch));
    assert!(matches!(env.objc.borrow_view(0), Err(ObjcError::UnknownObject)));
    assert_eq!(retain(&mut env, 0), Err(ObjcError::UnknownObject));
}

#[test]
fn selector_interning_is_identity() {
    let mut env = Environment::new(4096);
    let a = env.objc.intern_selector("poke");
    let b = env.objc.intern_selector("prod");
    let a2 = env.objc.intern_selector("poke");
    assert_eq!(a, a2);
    assert_ne!(a, b);
    assert_eq!(env.objc.intern_selector("dealloc"), 0);
}

#[test]
fn alloc_object_writes_class_header() {
    let mut env = Environment::new(4096);
    let c0 = env.objc.register_class("Base", None, Vec::new()).unwrap();
    let c1 = env.objc.register_class("Widget", Some(c0), Vec::new()).unwrap();
    let oid = alloc_object(&mut env, c1, HostPayload::Plain).unwrap();
    assert_ne!(oid, 0);
    assert_eq!(env.mem.read_u32(oid).unwrap(), c1 as u32);
    let oid2 = alloc_object(&mut env, c0, HostPayload::Plain).unwrap();
    assert_ne!(oid, oid2);
    assert_eq!(env.mem.read_u32(oid2).unwrap(), c0 as u32);
}

#[test]
fn word_round_trip_little_endian() {
    let mut mem = GuestMem::new(64);
    mem.write_u32(8, 0x1234_5678).unwrap();
    assert_eq!(mem.read_u8(8).unwrap(), 0x78);
    assert_eq!(mem.read_u8(9).unwrap(), 0x56);
    assert_eq!(mem.read_u8(10).unwrap(), 0x34);
    assert_eq!(mem.read_u8(11).unwrap(), 0x12);
    assert_eq!(mem.read_u32(8).unwrap(), 0x1234_5678);
    mem.write_u8(12, 0xAA).unwrap();
    mem.write_u8(13, 0xBB).unwrap();
    mem.write_u8(14, 0xCC).unwrap();
    mem.write_u8(15, 0xDD).unwrap();
    assert_eq!(mem.read_u32(12).unwrap(), 0xDDCC_BBAA);
}

#[test]
fn memory_range_errors() {
    let mut mem = GuestMem::new(64);
    assert_eq!(mem.read_u32(10), Err(MemError::Unaligned));
    assert_eq!(mem.write_u32(10, 1), Err(MemError::Unaligned));
    assert_eq!(mem.read_u32(64), Err(MemError::OutOfBounds));
    assert_eq!(mem.read_u32(62 / 2 * 2 + 2), Err(MemError::OutOfBounds));
    assert_eq!(mem.read_u8(64), Err(MemError::OutOfBounds));
    assert_eq!(mem.write_u8(64, 0), Err(MemError::OutOfBounds));
}

#[test]
fn zone_allocation_bumps_and_records_frees() {
    let mut mem = GuestMem::new(256);
    let a = mem.allocate(0, 10).unwrap(); // rounded to 12
    let b = mem.allocate(0, 4).unwrap();
    assert_eq!(a, 8);
    assert_eq!(b, 20);
    assert_eq!(mem.allocate(1, 4), Err(MemError::OutOfBounds));
    mem.free(0, a, 12).unwrap();
    assert_eq!(mem.zones[0].freed, vec![(a, 12)]);
    // Freed ranges are bookkeeping: the cursor does not move back.
    let c = mem.allocate(0, 4).unwrap();
    assert_eq!(c, 24);
    // Exhaustion fails rather than handing out an unmapped range.
    assert_eq!(mem.allocate(0, 4096), Err(MemError::OutOfBounds));
}

#[test]
fn once_runs_initializer_exactly_once() {
    let mut mem = GuestMem::new(64);
    let mut bridge = Bridge::new();
    mem.write_u32(8, MAGIC_ONCE).unwrap();
    assert_eq!(mem.read_u32(12).unwrap(), 0); // freshly zeroed flag
    let routine = GuestFunction { addr: 0x4000 };
    assert_eq!(pthread_once(&mut mem, &mut bridge, 8, routine), Ok(0));
    assert_eq!(pthread_once(&mut mem, &mut bridge, 8, routine), Ok(0));
    assert_eq!(bridge.calls.len(), 1);
    assert_eq!(bridge.calls[0].addr, 0x4000);
    assert!(bridge.calls[0].args.is_empty());
    // Both callers observe the initialized state.
    assert_eq!(mem.read_u32(12).unwrap(), ONCE_DONE);
    assert_eq!(mem.read_u32(8).unwrap(), MAGIC_ONCE);
}

#[test]
fn once_rejects_malformed_records() {
    let mut mem = GuestMem::new(64);
    let mut bridge = Bridge::new();
    let routine = GuestFunction { addr: 0x4000 };
    // Zeroed magic word: guest data integrity violation.
    assert_eq!(pthread_once(&mut mem, &mut bridge, 8, routine), Err(OnceError::BadMagic));
    mem.write_u32(16, MAGIC_ONCE).unwrap();
    mem.write_u32(20, 5).unwrap(); // neither recognized flag state
    assert_eq!(pthread_once(&mut mem, &mut bridge, 16, routine), Err(OnceError::BadFlag));
    assert_eq!(
        pthread_once(&mut mem, &mut bridge, 10, routine),
        Err(OnceError::Mem(MemError::Unaligned))
    );
    assert_eq!(
        pthread_once(&mut mem, &mut bridge, 60, routine),
        Err(OnceError::Mem(MemError::OutOfBounds))
    );
    assert!(bridge.calls.is_empty());
}

#[test]
fn view_bookkeeping_tracks_live_views() {
    let (mut env, class) = widget_env();
    let v1 = alloc_object(&mut env, class, view_payload()).unwrap();
    let plain = alloc_object(&mut env, class, HostPayload::Plain).unwrap();
    let v2 = alloc_object(&mut env, class, view_payload()).unwrap();
    assert_eq!(env.views.views, vec![v1, v2]);
    release(&mut env, v1).unwrap();
    assert_eq!(env.views.views, vec![v2]);
    release(&mut env, plain).unwrap();
    assert_eq!(env.views.views, vec![v2]);
}

#[test]
fn dispatch_header_integrity() {
    let mut env = Environment::new(4096);
    let sel = env.objc.intern_selector("poke");
    // A receiver whose header names no registered class is fatal.
    assert_eq!(send_message(&mut env, 6, sel, &Vec::new()), Err(ObjcError::Mem(MemError::Unaligned)));
    env.mem.write_u32(8, 999).unwrap();
    assert_eq!(send_message(&mut env, 8, sel, &Vec::new()), Err(ObjcError::Integrity));
    assert_eq!(
        send_message(&mut env, 4096, sel, &Vec::new()),
        Err(ObjcError::Mem(MemError::OutOfBounds))
    );
}

#[test]
fn bounds_are_stored_per_view() {
    let (mut env, class) = widget_env();
    let v = alloc_object(&mut env, class, view_payload()).unwrap();
    assert_eq!(bounds(&env.objc, v).unwrap(), Rect { x: 0, y: 0, w: 0, h: 0 });
    set_bounds(&mut env, v, Rect { x: 5, y: -3, w: 320, h: 480 }).unwrap();
    assert_eq!(bounds(&env.objc, v).unwrap(), Rect { x: 5, y: -3, w: 320, h: 480 });
    let plain = alloc_object(&mut env, class, HostPayload::Plain).unwrap();
    assert_eq!(bounds(&env.objc, plain), Err(ObjcError::TypeMismatch));
    assert_eq!(
        set_bounds(&mut env, plain, Rect { x: 0, y: 0, w: 1, h: 1 }),
        Err(ObjcError::TypeMismatch)
    );
}

#[test]
fn releasing_a_parent_cascades_through_grandchildren() {
    let (mut env, class) = widget_env();
    let root = alloc_object(&mut env, class, view_payload()).unwrap();
    let mid = alloc_object(&mut env, class, view_payload()).unwrap();
    let leaf = alloc_object(&mut env, class, view_payload()).unwrap();
    add_subview(&mut env, root, mid).unwrap();
    add_subview(&mut env, mid, leaf).unwrap();
    // Drop the allocation references: each node is now owned by its parent alone.
    release(&mut env, mid).unwrap();
    release(&mut env, leaf).unwrap();
    assert!(env.objc.is_live(mid) && env.objc.is_live(leaf));
    // Releasing the root's last reference tears down the whole subtree.
    release(&mut env, root).unwrap();
    assert!(!env.objc.is_live(root));
    assert!(!env.objc.is_live(mid));
    assert!(!env.objc.is_live(leaf));
    assert!(env.views.views.is_empty());
}

#[test]
fn allocation_fails_when_the_zone_is_exhausted() {
    let mut env = Environment::new(16); // default zone spans 8 bytes
    let class = env.objc.register_class("Widget", None, Vec::new()).unwrap();
    alloc_object(&mut env, class, HostPayload::Plain).unwrap();
    alloc_object(&mut env, class, HostPayload::Plain).unwrap();
    assert_eq!(
        alloc_object(&mut env, class, HostPayload::Plain),
        Err(ObjcError::Mem(MemError::OutOfBounds))
    );
}

#[test]
fn dispatched_add_subview_rejects_missing_argument() {
    let mut env = Environment::new(4096);
    let sel = env.objc.intern_selector("addSubview:");
    let class = env
        .objc
        .register_class("Widget", None, vec![(sel, IMP::Host(HostIMP::ViewAddSubview))])
        .unwrap();
    let parent = alloc_object(&mut env, class, view_payload()).unwrap();
    // No argument word stands for the null reference, which is no object.
    assert_eq!(send_message(&mut env, parent, sel, &Vec::new()), Err(ObjcError::UnknownObject));
}

#[test]
fn super_send_from_a_root_class_exhausts_the_chain() {
    let mut env = Environment::new(4096);
    let sel = env.objc.intern_selector("poke");
    let base = env
        .objc
        .register_class("Base", None, vec![(sel, IMP::Guest(GuestFunction { addr: 0x1000 }))])
        .unwrap();
    let receiver = alloc_object(&mut env, base, HostPayload::Plain).unwrap();
    assert_eq!(
        send_message_super(&mut env, receiver, base, sel, &Vec::new()),
        Err(ObjcError::DoesNotUnderstand)
    );
}

#[test]
fn removing_an_orphan_view_is_a_no_op() {
    let (mut env, class) = widget_env();
    let v = alloc_object(&mut env, class, view_payload()).unwrap();
    remove_from_superview(&mut env, v).unwrap();
    assert_eq!(superview(&env.objc, v).unwrap(), 0);
    assert_eq!(env.objc.retain_count(v).unwrap(), 1);
}

#[test]
fn host_native_remove_and_dealloc_dispatch() {
    let mut env = Environment::new(4096);
    let remove_sel = env.objc.intern_selector("removeFromSuperview");
    let dealloc_sel = env.objc.intern_selector("dealloc");
    let class = env
        .objc
        .register_class(
            "Widget",
            None,
            vec![
                (remove_sel, IMP::Host(HostIMP::ViewRemoveFromSuperview)),
                (dealloc_sel, IMP::Host(HostIMP::ViewDealloc)),
            ],
        )
        .unwrap();
    let parent = alloc_object(&mut env, class, view_payload()).unwrap();
    let child = alloc_object(&mut env, class, view_payload()).unwrap();
    retain(&mut env, child).unwrap();
    add_subview(&mut env, parent, child).unwrap();
    assert_eq!(send_message(&mut env, child, remove_sel, &Vec::new()), Ok(0));
    assert!(env.objc.borrow_view(parent).unwrap().subviews.is_empty());
    assert_eq!(superview(&env.objc, child).unwrap(), 0);
    // Sending the teardown message tears the receiver down directly.
    assert_eq!(send_message(&mut env, child, dealloc_sel, &Vec::new()), Ok(0));
    assert!(!env.objc.is_live(child));
    // The header word survives as stale guest data, so a second send
    // still resolves, and the host teardown rejects the dead receiver.
    assert_eq!(
        send_message(&mut env, child, dealloc_sel, &Vec::new()),
        Err(ObjcError::UnknownObject)
    );
}

#[test]
fn host_native_bring_to_front_dispatches() {
    let mut env = Environment::new(4096);
    let sel = env.objc.intern_selector("bringSubviewToFront:");
    let class = env
        .objc
        .register_class("Widget", None, vec![(sel, IMP::Host(HostIMP::ViewBringSubviewToFront))])
        .unwrap();
    let parent = alloc_object(&mut env, class, view_payload()).unwrap();
    let c1 = alloc_object(&mut env, class, view_payload()).unwrap();
    let c2 = alloc_object(&mut env, class, view_payload()).unwrap();
    add_subview(&mut env, parent, c1).unwrap();
    add_subview(&mut env, parent, c2).unwrap();
    assert_eq!(send_message(&mut env, parent, sel, &vec![c1]), Ok(0));
    assert_eq!(env.objc.borrow_view(parent).unwrap().subviews, vec![c2, c1]);
}
