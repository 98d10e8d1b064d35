//! Message-dispatch engine: resolve a (receiver, selector) pair to an
//! implementation and invoke it.
//!
//! A send (1) resolves the receiver's class from its guest-visible
//! header, (2) searches that class's selector table and then each
//! successive superclass until a match is found, (3) fails with
//! `DoesNotUnderstand` when the chain is exhausted, and (4) invokes the
//! match: host-native implementations are called directly, guest-resident
//! ones cross the ABI bridge. "Super" sends start one level above an
//! explicit class instead of the receiver's dynamic class — the one
//! deviation from the default lookup-start rule, which initializer
//! chaining depends on to avoid resending the same override.

use vstd::prelude::*;

use crate::env::Environment;
use crate::mem::word_at;
use crate::objc::{
    resolve_in, resolving_class, table_lookup, wf_classes, ClassDef, HostIMP, ObjcError, IMP,
};

verus! {


/// What invoking a host-native implementation on `receiver` does: each
/// variant behaves exactly as the operation it names, with the first
/// argument word (the null reference when absent) naming the other
/// object where the operation takes one.
pub open spec fn host_invoke_post(
    h: HostIMP,
    pre: Environment,
    post: Environment,
    receiver: u32,
    args: Seq<u32>,
    r: Result<u32, ObjcError>,
) -> bool {
    let child = if args.len() >= 1 {
        args[0]
    } else {
        0u32
    };
    match h {
        HostIMP::ViewSuperview => post == pre && crate::views::superview_post(
            pre.objc,
            receiver,
            r,
        ),
        HostIMP::ViewAddSubview => crate::views::add_subview_post(pre, post, receiver, child, r),
        HostIMP::ViewBringSubviewToFront => crate::views::bring_subview_post(
            pre,
            post,
            receiver,
            child,
            r,
        ),
        HostIMP::ViewRemoveFromSuperview => crate::views::remove_from_superview_post(
            pre,
            post,
            receiver,
            r,
        ),
        HostIMP::ViewDealloc => crate::lifecycle::dealloc_send_post(pre, post, receiver, r),
    }
}

/// Marshal a send into the guest calling convention's argument order:
/// receiver and selector first, then the method-specific words.
fn marshal_args(receiver: u32, sel: usize, args: &Vec<u32>) -> (r: Vec<u32>)
    requires
        sel <= 0xFFFF_FFFF,
    ensures
        r@ == seq![receiver, sel as u32].add(args@),
{
    let mut call_args: Vec<u32> = Vec::new();
    call_args.push(receiver);
    call_args.push(sel as u32);
    let n = args.len();
    let mut k: usize = 0;
    while k < n
        invariant
            sel <= 0xFFFF_FFFF,
            n == args@.len(),
            k <= n,
            call_args@ == seq![receiver, sel as u32].add(args@.subrange(0, k as int)),
        decreases n - k,
    {
        call_args.push(args[k]);
        proof {
            assert(call_args@ =~= seq![receiver, sel as u32].add(
                args@.subrange(0, (k + 1) as int),
            ));
        }
        k += 1;
    }
    proof {
        assert(args@.subrange(0, n as int) =~= args@);
    }
    call_args
}

/// Invoke the resolved host-native implementation `h` on `receiver`.
/// The first argument word, where one is expected, names the other
/// object of the operation; a missing argument stands for the null
/// reference, which the operation then rejects. Effects and failures
/// are exactly those of the named operation.
fn invoke_host(env: &mut Environment, h: HostIMP, receiver: u32, args: &Vec<u32>) -> (r: Result<
    u32,
    ObjcError,
>)
    requires
        old(env).inv(),
    ensures
        final(env).inv(),
        final(env).objc.selectors@ == old(env).objc.selectors@,
        final(env).objc.classes@ == old(env).objc.classes@,
        r != Err::<u32, ObjcError>(ObjcError::DoesNotUnderstand),
        host_invoke_post(h, *old(env), *final(env), receiver, args@, r),
{
    match h {
        HostIMP::ViewSuperview => {
            match crate::views::superview(&env.objc, receiver) {
                Ok(p) => Ok(p),
                Err(e) => Err(e),
            }
        },
        HostIMP::ViewAddSubview => {
            let child = if args.len() >= 1 {
                args[0]
            } else {
                0
            };
            match crate::views::add_subview(env, receiver, child) {
                Ok(()) => Ok(0),
                Err(e) => Err(e),
            }
        },
        HostIMP::ViewBringSubviewToFront => {
            let child = if args.len() >= 1 {
                args[0]
            } else {
                0
            };
            match crate::views::bring_subview_to_front(env, receiver, child) {
                Ok(()) => Ok(0),
                Err(e) => Err(e),
            }
        },
        HostIMP::ViewRemoveFromSuperview => {
            match crate::views::remove_from_superview(env, receiver) {
                Ok(()) => Ok(0),
                Err(e) => Err(e),
            }
        },
        HostIMP::ViewDealloc => crate::lifecycle::dealloc_now(env, receiver),
    }
}

/// The class index the guest-visible header of `receiver` names in
/// `bytes`.
pub open spec fn header_class(bytes: Seq<u8>, receiver: u32) -> int {
    word_at(bytes, receiver as int) as int
}

/// Send the message `sel` to `receiver` with argument words `args`:
/// the single universal entry point through which behavior is reached.
/// The receiver's class comes from its guest-visible header; an
/// unmapped or misaligned header is a memory error, a header naming no
/// registered class is a fatal integrity violation, and an exhausted
/// superclass chain fails with `DoesNotUnderstand` — never a silent
/// no-op. A guest-resident match crosses the bridge with receiver and
/// selector as the first two argument words; a host-native match runs
/// the named operation directly.
pub fn send_message(env: &mut Environment, receiver: u32, sel: usize, args: &Vec<u32>) -> (r:
    Result<u32, ObjcError>)
    requires
        old(env).inv(),
        sel <= 0xFFFF_FFFF,
    ensures
        final(env).inv(),
        receiver % 4 != 0 ==> r == Err::<u32, ObjcError>(
            ObjcError::Mem(crate::mem::MemError::Unaligned),
        ) && *final(env) == *old(env),
        receiver % 4 == 0 && !old(env).mem.word_in_bounds(receiver) ==> r == Err::<u32, ObjcError>(
            ObjcError::Mem(crate::mem::MemError::OutOfBounds),
        ) && *final(env) == *old(env),
        receiver % 4 == 0 && old(env).mem.word_in_bounds(receiver) && header_class(
            old(env).mem.bytes@,
            receiver,
        ) >= old(env).objc.classes@.len() ==> r == Err::<u32, ObjcError>(ObjcError::Integrity)
            && *final(env) == *old(env),
        receiver % 4 == 0 && old(env).mem.word_in_bounds(receiver) && header_class(
            old(env).mem.bytes@,
            receiver,
        ) < old(env).objc.classes@.len() ==> {
            &&& (r == Err::<u32, ObjcError>(ObjcError::DoesNotUnderstand) <==> resolve_in(
                old(env).objc.classes@,
                header_class(old(env).mem.bytes@, receiver),
                sel,
            ) is None)
            &&& (resolve_in(old(env).objc.classes@, header_class(old(env).mem.bytes@, receiver), sel)
                is None ==> *final(env) == *old(env))
            &&& (resolve_in(old(env).objc.classes@, header_class(old(env).mem.bytes@, receiver), sel)
                matches Some(IMP::Guest(f)) ==> {
                &&& r == Ok::<u32, ObjcError>(0)
                &&& final(env).bridge.calls@.len() == old(env).bridge.calls@.len() + 1
                &&& forall|k: int|
                    0 <= k < old(env).bridge.calls@.len() ==> final(env).bridge.calls@[k] == old(
                        env,
                    ).bridge.calls@[k]
                &&& final(env).bridge.calls@.last().addr == f.addr
                &&& final(env).bridge.calls@.last().args@ == seq![
                    receiver,
                    sel as u32,
                ].add(args@)
                &&& final(env).objc.objects@ == old(env).objc.objects@
                &&& final(env).mem.bytes@ == old(env).mem.bytes@
                &&& final(env).views.views@ == old(env).views.views@
            })
            &&& (resolve_in(old(env).objc.classes@, header_class(old(env).mem.bytes@, receiver), sel)
                matches Some(IMP::Host(h)) ==> host_invoke_post(
                h,
                *old(env),
                *final(env),
                receiver,
                args@,
                r,
            ))
            &&& final(env).objc.selectors@ == old(env).objc.selectors@
            &&& final(env).objc.classes@ == old(env).objc.classes@
        },
{
    let w = match env.mem.read_u32(receiver) {
        Err(e) => {
            return Err(ObjcError::Mem(e));
        },
        Ok(w) => w,
    };
    let cls = w as usize;
    if cls >= env.objc.classes.len() {
        return Err(ObjcError::Integrity);
    }
    let imp = env.objc.resolve(cls, sel);
    match imp {
        None => Err(ObjcError::DoesNotUnderstand),
        Some(IMP::Guest(f)) => {
            let call_args = marshal_args(receiver, sel, args);
            env.bridge.call_guest(f, call_args);
            Ok(0)
        },
        Some(IMP::Host(h)) => invoke_host(env, h, receiver, args),
    }
}

/// A "super"-directed send: resolution starts at the superclass of
/// `defining_class` (the class the sending override belongs to)
/// instead of the receiver's dynamic class, so it reaches an ancestor's
/// implementation and never the override itself. A root class has no
/// superclass, so the chain is exhausted at once.
pub fn send_message_super(
    env: &mut Environment,
    receiver: u32,
    defining_class: usize,
    sel: usize,
    args: &Vec<u32>,
) -> (r: Result<u32, ObjcError>)
    requires
        old(env).inv(),
        defining_class < old(env).objc.classes@.len(),
        sel <= 0xFFFF_FFFF,
    ensures
        final(env).inv(),
        old(env).objc.classes@[defining_class as int].superclass is None ==> r == Err::<
            u32,
            ObjcError,
        >(ObjcError::DoesNotUnderstand) && *final(env) == *old(env),
        old(env).objc.classes@[defining_class as int].superclass matches Some(s) ==> {
            &&& (r == Err::<u32, ObjcError>(ObjcError::DoesNotUnderstand) <==> resolve_in(
                old(env).objc.classes@,
                s as int,
                sel,
            ) is None)
            &&& (resolve_in(old(env).objc.classes@, s as int, sel) is None ==> *final(env) == *old(
                env,
            ))
            &&& (resolve_in(old(env).objc.classes@, s as int, sel) matches Some(IMP::Guest(f)) ==> {
                &&& r == Ok::<u32, ObjcError>(0)
                &&& final(env).bridge.calls@.len() == old(env).bridge.calls@.len() + 1
                &&& forall|k: int|
                    0 <= k < old(env).bridge.calls@.len() ==> final(env).bridge.calls@[k] == old(
                        env,
                    ).bridge.calls@[k]
                &&& final(env).bridge.calls@.last().addr == f.addr
                &&& final(env).bridge.calls@.last().args@ == seq![
                    receiver,
                    sel as u32,
                ].add(args@)
                &&& final(env).objc.objects@ == old(env).objc.objects@
                &&& final(env).mem.bytes@ == old(env).mem.bytes@
                &&& final(env).views.views@ == old(env).views.views@
            })
            &&& (resolve_in(old(env).objc.classes@, s as int, sel) matches Some(IMP::Host(h))
                ==> host_invoke_post(h, *old(env), *final(env), receiver, args@, r))
            &&& final(env).objc.selectors@ == old(env).objc.selectors@
            &&& final(env).objc.classes@ == old(env).objc.classes@
        },
{
    let sup = match env.objc.classes[defining_class].superclass {
        None => {
            return Err(ObjcError::DoesNotUnderstand);
        },
        Some(s) => s,
    };
    let imp = env.objc.resolve(sup, sel);
    match imp {
        None => Err(ObjcError::DoesNotUnderstand),
        Some(IMP::Guest(f)) => {
            let call_args = marshal_args(receiver, sel, args);
            env.bridge.call_guest(f, call_args);
            Ok(0)
        },
        Some(IMP::Host(h)) => invoke_host(env, h, receiver, args),
    }
}

/// Resolution finds an implementation at the receiver's class or its
/// nearest ancestor: the class it comes from, what it is, and that the
/// chain fails only when no ancestor has the selector.
pub proof fn lemma_resolving_class(classes: Seq<ClassDef>, c: int, sel: usize)
    requires
        wf_classes(classes),
        0 <= c < classes.len(),
    ensures
        match resolving_class(classes, c, sel) {
            Some(rc) => 0 <= rc <= c && table_lookup(classes[rc].methods@, sel) is Some
                && resolve_in(classes, c, sel) == table_lookup(classes[rc].methods@, sel),
            None => resolve_in(classes, c, sel) is None,
        },
    decreases c,
{
    if table_lookup(classes[c].methods@, sel) is Some {
    } else {
        match classes[c].superclass {
            Some(s) => {
                lemma_resolving_class(classes, s as int, sel);
            },
            None => {},
        }
    }
}

/// Dispatch on a subclass finds its override before its superclass's
/// implementation of the same selector: when the receiver's own class
/// has an entry for the selector, resolution returns exactly that
/// entry.
pub proof fn lemma_override_wins(classes: Seq<ClassDef>, c: int, sel: usize)
    requires
        wf_classes(classes),
        0 <= c < classes.len(),
        table_lookup(classes[c].methods@, sel) is Some,
    ensures
        resolve_in(classes, c, sel) == table_lookup(classes[c].methods@, sel),
        resolving_class(classes, c, sel) == Some(c),
{
}

/// A "super"-directed send from within an override never reaches the
/// override itself: starting resolution at the defining class's
/// superclass, whatever it finds comes from a strictly earlier class
/// in the table — an ancestor — and so is the superclass chain's
/// implementation, not the override at the defining class.
pub proof fn lemma_super_send_skips_override(classes: Seq<ClassDef>, c: int, sel: usize)
    requires
        wf_classes(classes),
        0 <= c < classes.len(),
        classes[c].superclass is Some,
    ensures
        match resolving_class(classes, classes[c].superclass->0 as int, sel) {
            Some(rc) => rc < c && rc != c && resolve_in(
                classes,
                classes[c].superclass->0 as int,
                sel,
            ) == table_lookup(classes[rc].methods@, sel),
            None => resolve_in(classes, classes[c].superclass->0 as int, sel) is None,
        },
{
    let s = classes[c].superclass->0 as int;
    lemma_resolving_class(classes, s, sel);
}

} // verus!
