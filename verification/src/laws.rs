//! The engine's global guarantees, proved from the command transitions.
//!
//! Each law quantifies over every object model, path and value its
//! hypotheses allow, and speaks through the same transition functions
//! ([`set_swap_vm`], [`add_execute_vm`], [`add_revert_vm`],
//! [`remove_execute_vm`], [`remove_revert_vm`]) that the commands'
//! `execute`/`revert` contracts are stated with.

use vstd::prelude::*;

use crate::command::add_execute_vm;
use crate::command::add_revert_vm;
use crate::command::remove_execute_vm;
use crate::command::remove_revert_vm;
use crate::command::set_swap_vm;
use crate::path::parse_path;
use crate::reflect::ErrorKind;
use crate::reflect::lemma_resolve_update;
use crate::reflect::lemma_resolve_wf;
use crate::reflect::lemma_update_roundtrip;
use crate::reflect::resolve_vm;
use crate::value::Vm;
use crate::value::kind_of;
use crate::value::wf_vm;

verus! {

/// Set invertibility: wherever a swap succeeds, swapping again restores the
/// object exactly and recovers the value first installed, and a third swap
/// re-installs it — execute and revert are the same self-inverse step.
pub proof fn lemma_set_invertible(m: Vm, path: Seq<char>, v1: Vm)
    requires
        set_swap_vm(m, path, v1).err is None,
    ensures
        ({
            let segs = parse_path(path).unwrap();
            let o1 = set_swap_vm(m, path, v1);
            let o2 = set_swap_vm(o1.model, path, o1.pending);
            let o3 = set_swap_vm(o2.model, path, o2.pending);
            &&& o1.pending == resolve_vm(m, segs).unwrap()
            &&& resolve_vm(o1.model, segs) == Some(v1)
            &&& o2.err is None
            &&& o2.model == m
            &&& o2.pending == v1
            &&& o3 == o1
        }),
{
    let segs = parse_path(path).unwrap();
    lemma_resolve_update(m, segs, v1);
    lemma_update_roundtrip(m, segs, v1);
}

/// Stale path safety: where the path does not parse or does not resolve, a
/// swap reports `NoSuchProperty` and leaves both the object and the pending
/// value exactly as they were.
pub proof fn lemma_set_stale_path_safe(m: Vm, path: Seq<char>, v: Vm)
    requires
        parse_path(path) is None || resolve_vm(m, parse_path(path).unwrap()) is None,
    ensures
        ({
            let o = set_swap_vm(m, path, v);
            &&& o.model == m
            &&& o.pending == v
            &&& o.err == Some(ErrorKind::NoSuchProperty)
        }),
{
}

/// Idempotent retry: a failed swap changes nothing, so swapping again with
/// the same state fails the same way and changes nothing again.
pub proof fn lemma_set_retry_idempotent(m: Vm, path: Seq<char>, v: Vm)
    requires
        set_swap_vm(m, path, v).err is Some,
    ensures
        ({
            let o = set_swap_vm(m, path, v);
            &&& o.model == m
            &&& o.pending == v
            &&& set_swap_vm(o.model, path, o.pending) == o
        }),
{
}

/// AddItem/RemoveItem duality, AddItem half: executing an AddItem on a
/// collection of fitting kind appends exactly the pending item; reverting
/// removes exactly that tail item, recovers it for reuse, and restores the
/// object exactly.
pub proof fn lemma_add_item_dual(m: Vm, path: Seq<char>, x: Vm)
    requires
        parse_path(path) is Some,
        resolve_vm(m, parse_path(path).unwrap()) matches Some(t) && t matches Vm::List {
            elem,
            items,
        } && kind_of(x) == elem,
    ensures
        ({
            let segs = parse_path(path).unwrap();
            let t = resolve_vm(m, segs).unwrap();
            let oe = add_execute_vm(m, path, x);
            let or = add_revert_vm(oe.model, path, None);
            &&& oe.err is None
            &&& oe.slot is None
            &&& resolve_vm(oe.model, segs) == Some(
                Vm::List { elem: t->List_elem, items: t->List_items.push(x) },
            )
            &&& resolve_vm(oe.model, segs).unwrap()->List_items.len() == t->List_items.len() + 1
            &&& or.err is None
            &&& or.slot == Some(x)
            &&& or.model == m
        }),
{
    let segs = parse_path(path).unwrap();
    let t = resolve_vm(m, segs).unwrap();
    let pushed = Vm::List { elem: t->List_elem, items: t->List_items.push(x) };
    lemma_resolve_update(m, segs, pushed);
    lemma_update_roundtrip(m, segs, pushed);
    assert(pushed->List_items.drop_last() =~= t->List_items);
}

/// RemoveItem duality: executing a RemoveItem at a valid index takes exactly
/// the item at that index out, keeping the order of the remaining items;
/// reverting re-inserts the captured item at the same index and restores the
/// object exactly.
pub proof fn lemma_remove_item_dual(m: Vm, path: Seq<char>, index: int, slot0: Option<Vm>)
    requires
        wf_vm(m),
        parse_path(path) is Some,
        resolve_vm(m, parse_path(path).unwrap()) matches Some(t) && t is List && 0 <= index
            < t->List_items.len(),
    ensures
        ({
            let segs = parse_path(path).unwrap();
            let t = resolve_vm(m, segs).unwrap();
            let taken = t->List_items[index];
            let oe = remove_execute_vm(m, path, index, slot0);
            let or = remove_revert_vm(oe.model, path, index, taken);
            &&& oe.err is None
            &&& oe.slot == Some(taken)
            &&& resolve_vm(oe.model, segs) == Some(
                Vm::List { elem: t->List_elem, items: t->List_items.remove(index) },
            )
            &&& t->List_items.remove(index).len() == t->List_items.len() - 1
            &&& forall|k: int|
                0 <= k < index ==> #[trigger] t->List_items.remove(index)[k]
                    == t->List_items[k]
            &&& forall|k: int|
                index <= k < t->List_items.len() - 1 ==> #[trigger] t->List_items.remove(
                    index,
                )[k] == t->List_items[k + 1]
            &&& or.err is None
            &&& or.slot is None
            &&& or.model == m
        }),
{
    let segs = parse_path(path).unwrap();
    let t = resolve_vm(m, segs).unwrap();
    let items = t->List_items;
    let taken = items[index];
    let shrunk = Vm::List { elem: t->List_elem, items: items.remove(index) };
    lemma_resolve_update(m, segs, shrunk);
    lemma_update_roundtrip(m, segs, shrunk);
    lemma_resolve_wf(m, segs);
    assert(kind_of(taken) == t->List_elem);
    assert(items.remove(index).insert(index, taken) =~= items);
    assert(Vm::List { elem: t->List_elem, items: items.remove(index).insert(index, taken) } == t);
}

/// Type mismatch safety: pushing an item whose kind disagrees with the
/// collection's element kind reports `TypeMismatch`, leaves the object
/// untouched, and keeps the item in the pending slot for a corrected retry.
pub proof fn lemma_add_item_type_mismatch_safe(m: Vm, path: Seq<char>, x: Vm)
    requires
        parse_path(path) is Some,
        resolve_vm(m, parse_path(path).unwrap()) matches Some(t) && t matches Vm::List {
            elem,
            items,
        } && kind_of(x) != elem,
    ensures
        ({
            let o = add_execute_vm(m, path, x);
            &&& o.model == m
            &&& o.slot == Some(x)
            &&& o.err == Some(ErrorKind::TypeMismatch)
        }),
{
}

} // verus!
