//! The property command set.
//!
//! Three reversible commands — set a field, add a collection item, remove a
//! collection item — share a handle naming the root entity they target and a
//! textual path into it. Their paths are re-resolved on every call, so a
//! command whose path or value has gone stale logs one error and leaves the
//! graph exactly as it was, keeping its pending value for a later retry.

use vstd::prelude::*;
use vstd::string::StringExecFns;

use crate::log::ErrorLog;
use crate::path::PropertyPath;
use crate::path::dec_digits;
use crate::path::dec_string;
use crate::path::parse_path;
use crate::reflect::ErrorKind;
use crate::reflect::MutOp;
use crate::reflect::OpVm;
use crate::reflect::Reflective;
use crate::reflect::apply_vm;
use crate::reflect::lemma_apply_vm_wf;
use crate::reflect::lemma_resolve_wf;
use crate::reflect::lemma_vm_of_list_update;
use crate::reflect::resolve_vm;
use crate::value::Value;
use crate::value::Vm;
use crate::value::kind_of;
use crate::value::lemma_vm_of_list_index;
use crate::value::lemma_vm_of_list_len;
use crate::value::opt_vm;
use crate::value::slot_wf;
use crate::value::vm_of;
use crate::value::vm_of_list;
use crate::value::wf_vm;

verus! {

/// Names one root entity of an [`EntityGraph`].
#[derive(Clone, Copy, PartialEq, Eq, Structural, Debug)]
pub struct EntityHandle {
    pub index: usize,
}

/// The live object graph: the root entities a command's handle can name.
#[derive(Debug)]
pub struct EntityGraph {
    pub entities: Vec<Value>,
}

impl View for EntityGraph {
    type V = Seq<Vm>;

    open spec fn view(&self) -> Seq<Vm> {
        vm_of_list(self.entities@)
    }
}

/// Every entity of the graph is well-formed.
pub open spec fn graph_wf(g: EntityGraph) -> bool {
    forall|i: int| 0 <= i < g@.len() ==> wf_vm(#[trigger] g@[i])
}

impl EntityGraph {
    /// A graph holding the given root entities.
    pub fn new(entities: Vec<Value>) -> (g: EntityGraph)
        ensures
            g@ == vm_of_list(entities@),
    {
        EntityGraph { entities }
    }

    /// How many root entities the graph holds.
    pub fn len(&self) -> (n: usize)
        ensures
            n == self@.len(),
    {
        proof {
            lemma_vm_of_list_len(self.entities@);
        }
        self.entities.len()
    }
}

/// The log line reported for a skipped mutation at `path`.
pub open spec fn error_text(kind: ErrorKind, path: Seq<char>) -> Seq<char> {
    match kind {
        ErrorKind::NoSuchProperty => "No such property "@ + path,
        ErrorKind::TypeMismatch => "Incompatible types at "@ + path,
        ErrorKind::NotACollection => "Property "@ + path + " is not a collection"@,
        ErrorKind::CollectionUnderflow => "Missing item in collection "@ + path,
    }
}

/// Builds the log line for a skipped mutation.
fn error_text_exec(kind: ErrorKind, path: &String) -> (r: String)
    ensures
        r@ == error_text(kind, path@),
{
    match kind {
        ErrorKind::NoSuchProperty => String::from_str("No such property ").concat(path.as_str()),
        ErrorKind::TypeMismatch => String::from_str("Incompatible types at ").concat(
            path.as_str(),
        ),
        ErrorKind::NotACollection => String::from_str("Property ").concat(path.as_str()).concat(
            " is not a collection",
        ),
        ErrorKind::CollectionUnderflow => String::from_str("Missing item in collection ").concat(
            path.as_str(),
        ),
    }
}

/// The outcome of one `swap` of a Set command: the entity afterwards, the
/// pending value afterwards, and the error reported, if any.
pub struct SetSwapVm {
    pub model: Vm,
    pub pending: Vm,
    pub err: Option<ErrorKind>,
}

/// What one `swap` does: resolve the path and exchange the pending value
/// with the addressed field. On any failure the entity and the pending value
/// are kept exactly as they were, so the same swap can be retried.
pub open spec fn set_swap_vm(m: Vm, path: Seq<char>, pending: Vm) -> SetSwapVm {
    match parse_path(path) {
        None => SetSwapVm { model: m, pending, err: Some(ErrorKind::NoSuchProperty) },
        Some(segs) => {
            let a = apply_vm(m, segs, OpVm::Replace(pending));
            match a.result {
                Ok(payload) => SetSwapVm { model: a.model, pending: payload.unwrap(), err: None },
                Err(e) => SetSwapVm { model: m, pending, err: Some(e.kind) },
            }
        },
    }
}

/// Sets the field at a path to a pending value, recovering the field's old
/// value into the same slot; its own exact inverse.
#[derive(Debug)]
pub struct SetPropertyCommand {
    pub handle: EntityHandle,
    pub path: String,
    pub value: Value,
}

impl SetPropertyCommand {
    /// A Set command about to install `value` at `path` inside the entity
    /// named by `handle`.
    pub fn new(handle: EntityHandle, path: String, value: Value) -> (c: SetPropertyCommand)
        ensures
            c.handle == handle,
            c.path == path,
            c.value == value,
    {
        SetPropertyCommand { handle, path, value }
    }

    /// Exchanges the pending value with the field the path addresses inside
    /// any reflective entity; the generic core shared by every target type.
    pub fn swap_on<R: Reflective>(&mut self, entity: &mut R, log: &mut ErrorLog)
        requires
            wf_vm(old(entity).model()),
            wf_vm(old(self).value@),
        ensures
            ({
                let o = set_swap_vm(old(entity).model(), old(self).path@, old(self).value@);
                &&& final(self).path == old(self).path
                &&& final(self).handle == old(self).handle
                &&& final(self).value@ == o.pending
                &&& final(entity).model() == o.model
                &&& wf_vm(final(entity).model())
                &&& wf_vm(final(self).value@)
                &&& match o.err {
                    None => final(log)@ == old(log)@,
                    Some(k) => final(log)@ == old(log)@.push(error_text(k, old(self).path@)),
                }
            }),
    {
        match PropertyPath::parse(self.path.as_str()) {
            None => {
                let msg = error_text_exec(ErrorKind::NoSuchProperty, &self.path);
                log.error(msg);
            },
            Some(p) => {
                let mut pending = Value::Bool(false);
                core::mem::swap(&mut self.value, &mut pending);
                match entity.reflect_apply(&p, MutOp::Replace(pending)) {
                    Ok(opt) => {
                        self.value = opt.unwrap();
                    },
                    Err(e) => {
                        let msg = error_text_exec(e.kind, &self.path);
                        log.error(msg);
                        self.value = match e.returned {
                            Some(v) => v,
                            None => Value::Bool(false),
                        };
                    },
                }
                proof {
                    let o = set_swap_vm(old(entity).model(), old(self).path@, old(self).value@);
                    if o.err is None {
                        lemma_resolve_wf(old(entity).model(), p@);
                    }
                    lemma_apply_vm_wf(old(entity).model(), p@, OpVm::Replace(old(self).value@));
                }
            },
        }
    }

    /// Exchanges the pending value with the field the path addresses; both
    /// `execute` and `revert` are exactly this. On failure, one error is
    /// logged and the entity and the pending slot keep their values.
    pub fn swap(&mut self, graph: &mut EntityGraph, log: &mut ErrorLog)
        requires
            old(self).handle.index < old(graph)@.len(),
            graph_wf(*old(graph)),
            wf_vm(old(self).value@),
        ensures
            ({
                let i = old(self).handle.index as int;
                let o = set_swap_vm(old(graph)@[i], old(self).path@, old(self).value@);
                &&& final(self).path == old(self).path
                &&& final(self).handle == old(self).handle
                &&& final(self).value@ == o.pending
                &&& final(graph)@ == old(graph)@.update(i, o.model)
                &&& graph_wf(*final(graph))
                &&& wf_vm(final(self).value@)
                &&& match o.err {
                    None => final(log)@ == old(log)@,
                    Some(k) => final(log)@ == old(log)@.push(error_text(k, old(self).path@)),
                }
            }),
    {
        let ghost i = self.handle.index as int;
        proof {
            lemma_vm_of_list_len(graph.entities@);
            lemma_vm_of_list_index(graph.entities@, i);
        }
        let target = &mut graph.entities[self.handle.index];
        self.swap_on(target, log);
        proof {
            lemma_vm_of_list_update(old(graph).entities@, i, graph.entities@[i]);
            assert forall|k: int| 0 <= k < final(graph)@.len() implies wf_vm(
                #[trigger] final(graph)@[k],
            ) by {
                if k != i {
                    assert(final(graph)@[k] == old(graph)@[k]);
                }
            }
        }
    }

    /// Executes the command: one swap.
    pub fn execute(&mut self, graph: &mut EntityGraph, log: &mut ErrorLog)
        requires
            old(self).handle.index < old(graph)@.len(),
            graph_wf(*old(graph)),
            wf_vm(old(self).value@),
        ensures
            ({
                let i = old(self).handle.index as int;
                let o = set_swap_vm(old(graph)@[i], old(self).path@, old(self).value@);
                &&& final(self).path == old(self).path
                &&& final(self).handle == old(self).handle
                &&& final(self).value@ == o.pending
                &&& final(graph)@ == old(graph)@.update(i, o.model)
                &&& graph_wf(*final(graph))
                &&& wf_vm(final(self).value@)
                &&& match o.err {
                    None => final(log)@ == old(log)@,
                    Some(k) => final(log)@ == old(log)@.push(error_text(k, old(self).path@)),
                }
            }),
    {
        self.swap(graph, log)
    }

    /// Reverts the command: the same swap, in the complementary direction.
    pub fn revert(&mut self, graph: &mut EntityGraph, log: &mut ErrorLog)
        requires
            old(self).handle.index < old(graph)@.len(),
            graph_wf(*old(graph)),
            wf_vm(old(self).value@),
        ensures
            ({
                let i = old(self).handle.index as int;
                let o = set_swap_vm(old(graph)@[i], old(self).path@, old(self).value@);
                &&& final(self).path == old(self).path
                &&& final(self).handle == old(self).handle
                &&& final(self).value@ == o.pending
                &&& final(graph)@ == old(graph)@.update(i, o.model)
                &&& graph_wf(*final(graph))
                &&& wf_vm(final(self).value@)
                &&& match o.err {
                    None => final(log)@ == old(log)@,
                    Some(k) => final(log)@ == old(log)@.push(error_text(k, old(self).path@)),
                }
            }),
    {
        self.swap(graph, log)
    }

    /// The human-readable label of the command, derived from its path.
    pub fn name(&self) -> (r: String)
        ensures
            r@ == "Set "@ + self.path@ + " property"@,
    {
        String::from_str("Set ").concat(self.path.as_str()).concat(" property")
    }
}

/// The outcome of one step of an item command: the entity afterwards, the
/// pending slot afterwards, and the error reported, if any.
pub struct ItemStepVm {
    pub model: Vm,
    pub slot: Option<Vm>,
    pub err: Option<ErrorKind>,
}

/// What executing an AddItem command does: append the pending item to the
/// addressed collection. On success the slot empties — ownership moved into
/// the graph; on any failure the entity is untouched and the item is kept
/// for a corrected retry.
pub open spec fn add_execute_vm(m: Vm, path: Seq<char>, item: Vm) -> ItemStepVm {
    match parse_path(path) {
        None => ItemStepVm {
            model: m,
            slot: Some(item),
            err: Some(ErrorKind::NoSuchProperty),
        },
        Some(segs) => {
            let a = apply_vm(m, segs, OpVm::Push(item));
            match a.result {
                Ok(_) => ItemStepVm { model: a.model, slot: None, err: None },
                Err(e) => ItemStepVm { model: m, slot: Some(item), err: Some(e.kind) },
            }
        },
    }
}

/// What reverting an AddItem command does: pop the tail item back into the
/// pending slot. An empty collection here means the graph diverged since
/// `execute`; it is reported and the slot is left as it was.
pub open spec fn add_revert_vm(m: Vm, path: Seq<char>, slot: Option<Vm>) -> ItemStepVm {
    match parse_path(path) {
        None => ItemStepVm { model: m, slot, err: Some(ErrorKind::NoSuchProperty) },
        Some(segs) => {
            let a = apply_vm(m, segs, OpVm::Pop);
            match a.result {
                Ok(p) => ItemStepVm { model: a.model, slot: Some(p.unwrap()), err: None },
                Err(e) => ItemStepVm { model: m, slot, err: Some(e.kind) },
            }
        },
    }
}

/// Appends a pending item to the collection at a path; reverting pops the
/// tail item back into the pending slot.
#[derive(Debug)]
pub struct AddCollectionItemCommand {
    pub handle: EntityHandle,
    pub path: String,
    pub item: Option<Value>,
}

impl AddCollectionItemCommand {
    /// An AddItem command about to append `item` to the collection at
    /// `path` inside the entity named by `handle`.
    pub fn new(handle: EntityHandle, path: String, item: Value) -> (c: AddCollectionItemCommand)
        ensures
            c.handle == handle,
            c.path == path,
            c.item == Some(item),
    {
        AddCollectionItemCommand { handle, path, item: Some(item) }
    }

    /// Appends the pending item inside any reflective entity; the generic
    /// core shared by every target type.
    pub fn execute_on<R: Reflective>(&mut self, entity: &mut R, log: &mut ErrorLog)
        requires
            wf_vm(old(entity).model()),
            old(self).item is Some,
            slot_wf(old(self).item),
        ensures
            ({
                let o = add_execute_vm(old(entity).model(), old(self).path@, vm_of(
                    old(self).item.unwrap(),
                ));
                &&& final(self).path == old(self).path
                &&& final(self).handle == old(self).handle
                &&& opt_vm(final(self).item) == o.slot
                &&& final(entity).model() == o.model
                &&& wf_vm(final(entity).model())
                &&& slot_wf(final(self).item)
                &&& match o.err {
                    None => final(log)@ == old(log)@,
                    Some(k) => final(log)@ == old(log)@.push(error_text(k, old(self).path@)),
                }
            }),
    {
        match PropertyPath::parse(self.path.as_str()) {
            None => {
                let msg = error_text_exec(ErrorKind::NoSuchProperty, &self.path);
                log.error(msg);
            },
            Some(p) => {
                let item = self.item.take().unwrap();
                match entity.reflect_apply(&p, MutOp::Push(item)) {
                    Ok(_) => {},
                    Err(e) => {
                        let msg = error_text_exec(e.kind, &self.path);
                        log.error(msg);
                        self.item = e.returned;
                    },
                }
                proof {
                    lemma_apply_vm_wf(
                        old(entity).model(),
                        p@,
                        OpVm::Push(vm_of(old(self).item.unwrap())),
                    );
                }
            },
        }
    }

    /// Executes the command: append the pending item.
    pub fn execute(&mut self, graph: &mut EntityGraph, log: &mut ErrorLog)
        requires
            old(self).handle.index < old(graph)@.len(),
            graph_wf(*old(graph)),
            old(self).item is Some,
            slot_wf(old(self).item),
        ensures
            ({
                let i = old(self).handle.index as int;
                let o = add_execute_vm(old(graph)@[i], old(self).path@, vm_of(
                    old(self).item.unwrap(),
                ));
                &&& final(self).path == old(self).path
                &&& final(self).handle == old(self).handle
                &&& opt_vm(final(self).item) == o.slot
                &&& final(graph)@ == old(graph)@.update(i, o.model)
                &&& graph_wf(*final(graph))
                &&& slot_wf(final(self).item)
                &&& match o.err {
                    None => final(log)@ == old(log)@,
                    Some(k) => final(log)@ == old(log)@.push(error_text(k, old(self).path@)),
                }
            }),
    {
        let ghost i = self.handle.index as int;
        proof {
            lemma_vm_of_list_len(graph.entities@);
            lemma_vm_of_list_index(graph.entities@, i);
        }
        let target = &mut graph.entities[self.handle.index];
        self.execute_on(target, log);
        proof {
            lemma_vm_of_list_update(old(graph).entities@, i, graph.entities@[i]);
            assert forall|k: int| 0 <= k < final(graph)@.len() implies wf_vm(
                #[trigger] final(graph)@[k],
            ) by {
                if k != i {
                    assert(final(graph)@[k] == old(graph)@[k]);
                }
            }
        }
    }

    /// Pops the tail item back into the pending slot inside any reflective
    /// entity; the generic core shared by every target type.
    pub fn revert_on<R: Reflective>(&mut self, entity: &mut R, log: &mut ErrorLog)
        requires
            wf_vm(old(entity).model()),
            slot_wf(old(self).item),
        ensures
            ({
                let o = add_revert_vm(old(entity).model(), old(self).path@, opt_vm(
                    old(self).item,
                ));
                &&& final(self).path == old(self).path
                &&& final(self).handle == old(self).handle
                &&& opt_vm(final(self).item) == o.slot
                &&& final(entity).model() == o.model
                &&& wf_vm(final(entity).model())
                &&& slot_wf(final(self).item)
                &&& match o.err {
                    None => final(log)@ == old(log)@,
                    Some(k) => final(log)@ == old(log)@.push(error_text(k, old(self).path@)),
                }
            }),
    {
        match PropertyPath::parse(self.path.as_str()) {
            None => {
                let msg = error_text_exec(ErrorKind::NoSuchProperty, &self.path);
                log.error(msg);
            },
            Some(p) => {
                match entity.reflect_apply(&p, MutOp::Pop) {
                    Ok(popped) => {
                        self.item = popped;
                    },
                    Err(e) => {
                        let msg = error_text_exec(e.kind, &self.path);
                        log.error(msg);
                    },
                }
                proof {
                    let o = add_revert_vm(old(entity).model(), old(self).path@, opt_vm(
                        old(self).item,
                    ));
                    if o.err is None {
                        lemma_resolve_wf(old(entity).model(), p@);
                        let t = resolve_vm(old(entity).model(), p@).unwrap();
                        assert(wf_vm(t->List_items.last())) by {
                            assert(kind_of(t->List_items.last()) == t->List_elem && wf_vm(
                                t->List_items.last(),
                            )) by {
                                assert(t->List_items[t->List_items.len() - 1]
                                    == t->List_items.last());
                            }
                        }
                    }
                    lemma_apply_vm_wf(old(entity).model(), p@, OpVm::Pop);
                }
            },
        }
    }

    /// Reverts the command: pop the tail item back into the pending slot.
    pub fn revert(&mut self, graph: &mut EntityGraph, log: &mut ErrorLog)
        requires
            old(self).handle.index < old(graph)@.len(),
            graph_wf(*old(graph)),
            slot_wf(old(self).item),
        ensures
            ({
                let i = old(self).handle.index as int;
                let o = add_revert_vm(old(graph)@[i], old(self).path@, opt_vm(old(self).item));
                &&& final(self).path == old(self).path
                &&& final(self).handle == old(self).handle
                &&& opt_vm(final(self).item) == o.slot
                &&& final(graph)@ == old(graph)@.update(i, o.model)
                &&& graph_wf(*final(graph))
                &&& slot_wf(final(self).item)
                &&& match o.err {
                    None => final(log)@ == old(log)@,
                    Some(k) => final(log)@ == old(log)@.push(error_text(k, old(self).path@)),
                }
            }),
    {
        let ghost i = self.handle.index as int;
        proof {
            lemma_vm_of_list_len(graph.entities@);
            lemma_vm_of_list_index(graph.entities@, i);
        }
        let target = &mut graph.entities[self.handle.index];
        self.revert_on(target, log);
        proof {
            lemma_vm_of_list_update(old(graph).entities@, i, graph.entities@[i]);
            assert forall|k: int| 0 <= k < final(graph)@.len() implies wf_vm(
                #[trigger] final(graph)@[k],
            ) by {
                if k != i {
                    assert(final(graph)@[k] == old(graph)@[k]);
                }
            }
        }
    }

    /// The human-readable label of the command, derived from its path.
    pub fn name(&self) -> (r: String)
        ensures
            r@ == "Add item to "@ + self.path@ + " collection"@,
    {
        String::from_str("Add item to ").concat(self.path.as_str()).concat(" collection")
    }
}

/// What executing a RemoveItem command does: take the item at the fixed
/// index out of the addressed collection into the pending slot. An index out
/// of range is reported as a removal failure and the slot stays empty.
pub open spec fn remove_execute_vm(m: Vm, path: Seq<char>, index: int, slot: Option<Vm>) -> ItemStepVm {
    match parse_path(path) {
        None => ItemStepVm { model: m, slot, err: Some(ErrorKind::NoSuchProperty) },
        Some(segs) => {
            let a = apply_vm(m, segs, OpVm::Remove(index));
            match a.result {
                Ok(p) => ItemStepVm { model: a.model, slot: Some(p.unwrap()), err: None },
                Err(e) => ItemStepVm {
                    model: m,
                    slot: if e.kind == ErrorKind::CollectionUnderflow {
                        None
                    } else {
                        slot
                    },
                    err: Some(e.kind),
                },
            }
        },
    }
}

/// What reverting a RemoveItem command does: insert the captured item back
/// at the same index. On failure the item is restored to the pending slot,
/// so no data is lost.
pub open spec fn remove_revert_vm(m: Vm, path: Seq<char>, index: int, item: Vm) -> ItemStepVm {
    match parse_path(path) {
        None => ItemStepVm {
            model: m,
            slot: Some(item),
            err: Some(ErrorKind::NoSuchProperty),
        },
        Some(segs) => {
            let a = apply_vm(m, segs, OpVm::Insert(index, item));
            match a.result {
                Ok(_) => ItemStepVm { model: a.model, slot: None, err: None },
                Err(e) => ItemStepVm { model: m, slot: Some(item), err: Some(e.kind) },
            }
        },
    }
}

/// Takes the item at a fixed index out of the collection at a path;
/// reverting re-inserts the captured item at the same index.
///
/// The command cannot detect that another command has shifted the same
/// collection's indices between its `execute` and its `revert`; keeping the
/// two calls aligned is the dispatcher's responsibility. In particular, an
/// undo unit that removes several items from one collection must run its
/// removals in descending index order: each index is then still valid when
/// its command executes, and the usual last-in-first-out revert re-inserts
/// every item at a valid index again.
#[derive(Debug)]
pub struct RemoveCollectionItemCommand {
    pub handle: EntityHandle,
    pub path: String,
    pub index: usize,
    pub value: Option<Value>,
}

impl RemoveCollectionItemCommand {
    /// A RemoveItem command about to take the item at `index` out of the
    /// collection at `path` inside the entity named by `handle`.
    pub fn new(handle: EntityHandle, path: String, index: usize) -> (c:
        RemoveCollectionItemCommand)
        ensures
            c.handle == handle,
            c.path == path,
            c.index == index,
            c.value is None,
    {
        RemoveCollectionItemCommand { handle, path, index, value: None }
    }

    /// Captures the item at the fixed index inside any reflective entity;
    /// the generic core shared by every target type.
    pub fn execute_on<R: Reflective>(&mut self, entity: &mut R, log: &mut ErrorLog)
        requires
            wf_vm(old(entity).model()),
            slot_wf(old(self).value),
        ensures
            ({
                let o = remove_execute_vm(
                    old(entity).model(),
                    old(self).path@,
                    old(self).index as int,
                    opt_vm(old(self).value),
                );
                &&& final(self).path == old(self).path
                &&& final(self).handle == old(self).handle
                &&& final(self).index == old(self).index
                &&& opt_vm(final(self).value) == o.slot
                &&& final(entity).model() == o.model
                &&& wf_vm(final(entity).model())
                &&& slot_wf(final(self).value)
                &&& match o.err {
                    None => final(log)@ == old(log)@,
                    Some(k) => final(log)@ == old(log)@.push(error_text(k, old(self).path@)),
                }
            }),
    {
        match PropertyPath::parse(self.path.as_str()) {
            None => {
                let msg = error_text_exec(ErrorKind::NoSuchProperty, &self.path);
                log.error(msg);
            },
            Some(p) => {
                match entity.reflect_apply(&p, MutOp::Remove(self.index)) {
                    Ok(removed) => {
                        self.value = removed;
                    },
                    Err(e) => {
                        let msg = error_text_exec(e.kind, &self.path);
                        log.error(msg);
                        if e.kind == ErrorKind::CollectionUnderflow {
                            self.value = None;
                        }
                    },
                }
                proof {
                    let o = remove_execute_vm(
                        old(entity).model(),
                        old(self).path@,
                        old(self).index as int,
                        opt_vm(old(self).value),
                    );
                    if o.err is None {
                        lemma_resolve_wf(old(entity).model(), p@);
                        let t = resolve_vm(old(entity).model(), p@).unwrap();
                        assert(wf_vm(t->List_items[old(self).index as int]));
                    }
                    lemma_apply_vm_wf(
                        old(entity).model(),
                        p@,
                        OpVm::Remove(old(self).index as int),
                    );
                }
            },
        }
    }

    /// Executes the command: capture the item at the fixed index.
    pub fn execute(&mut self, graph: &mut EntityGraph, log: &mut ErrorLog)
        requires
            old(self).handle.index < old(graph)@.len(),
            graph_wf(*old(graph)),
            slot_wf(old(self).value),
        ensures
            ({
                let i = old(self).handle.index as int;
                let o = remove_execute_vm(
                    old(graph)@[i],
                    old(self).path@,
                    old(self).index as int,
                    opt_vm(old(self).value),
                );
                &&& final(self).path == old(self).path
                &&& final(self).handle == old(self).handle
                &&& final(self).index == old(self).index
                &&& opt_vm(final(self).value) == o.slot
                &&& final(graph)@ == old(graph)@.update(i, o.model)
                &&& graph_wf(*final(graph))
                &&& slot_wf(final(self).value)
                &&& match o.err {
                    None => final(log)@ == old(log)@,
                    Some(k) => final(log)@ == old(log)@.push(error_text(k, old(self).path@)),
                }
            }),
    {
        let ghost i = self.handle.index as int;
        proof {
            lemma_vm_of_list_len(graph.entities@);
            lemma_vm_of_list_index(graph.entities@, i);
        }
        let target = &mut graph.entities[self.handle.index];
        self.execute_on(target, log);
        proof {
            lemma_vm_of_list_update(old(graph).entities@, i, graph.entities@[i]);
            assert forall|k: int| 0 <= k < final(graph)@.len() implies wf_vm(
                #[trigger] final(graph)@[k],
            ) by {
                if k != i {
                    assert(final(graph)@[k] == old(graph)@[k]);
                }
            }
        }
    }

    /// Re-inserts the captured item at the fixed index inside any reflective
    /// entity; the generic core shared by every target type.
    pub fn revert_on<R: Reflective>(&mut self, entity: &mut R, log: &mut ErrorLog)
        requires
            wf_vm(old(entity).model()),
            old(self).value is Some,
            slot_wf(old(self).value),
        ensures
            ({
                let o = remove_revert_vm(
                    old(entity).model(),
                    old(self).path@,
                    old(self).index as int,
                    vm_of(old(self).value.unwrap()),
                );
                &&& final(self).path == old(self).path
                &&& final(self).handle == old(self).handle
                &&& final(self).index == old(self).index
                &&& opt_vm(final(self).value) == o.slot
                &&& final(entity).model() == o.model
                &&& wf_vm(final(entity).model())
                &&& slot_wf(final(self).value)
                &&& match o.err {
                    None => final(log)@ == old(log)@,
                    Some(k) => final(log)@ == old(log)@.push(error_text(k, old(self).path@)),
                }
            }),
    {
        match PropertyPath::parse(self.path.as_str()) {
            None => {
                let msg = error_text_exec(ErrorKind::NoSuchProperty, &self.path);
                log.error(msg);
            },
            Some(p) => {
                let item = self.value.take().unwrap();
                match entity.reflect_apply(&p, MutOp::Insert(self.index, item)) {
                    Ok(_) => {},
                    Err(e) => {
                        let msg = error_text_exec(e.kind, &self.path);
                        log.error(msg);
                        self.value = e.returned;
                    },
                }
                proof {
                    lemma_apply_vm_wf(
                        old(entity).model(),
                        p@,
                        OpVm::Insert(old(self).index as int, vm_of(old(self).value.unwrap())),
                    );
                }
            },
        }
    }

    /// Reverts the command: re-insert the captured item at the same index.
    pub fn revert(&mut self, graph: &mut EntityGraph, log: &mut ErrorLog)
        requires
            old(self).handle.index < old(graph)@.len(),
            graph_wf(*old(graph)),
            old(self).value is Some,
            slot_wf(old(self).value),
        ensures
            ({
                let i = old(self).handle.index as int;
                let o = remove_revert_vm(
                    old(graph)@[i],
                    old(self).path@,
                    old(self).index as int,
                    vm_of(old(self).value.unwrap()),
                );
                &&& final(self).path == old(self).path
                &&& final(self).handle == old(self).handle
                &&& final(self).index == old(self).index
                &&& opt_vm(final(self).value) == o.slot
                &&& final(graph)@ == old(graph)@.update(i, o.model)
                &&& graph_wf(*final(graph))
                &&& slot_wf(final(self).value)
                &&& match o.err {
                    None => final(log)@ == old(log)@,
                    Some(k) => final(log)@ == old(log)@.push(error_text(k, old(self).path@)),
                }
            }),
    {
        let ghost i = self.handle.index as int;
        proof {
            lemma_vm_of_list_len(graph.entities@);
            lemma_vm_of_list_index(graph.entities@, i);
        }
        let target = &mut graph.entities[self.handle.index];
        self.revert_on(target, log);
        proof {
            lemma_vm_of_list_update(old(graph).entities@, i, graph.entities@[i]);
            assert forall|k: int| 0 <= k < final(graph)@.len() implies wf_vm(
                #[trigger] final(graph)@[k],
            ) by {
                if k != i {
                    assert(final(graph)@[k] == old(graph)@[k]);
                }
            }
        }
    }

    /// The human-readable label of the command, derived from its path and
    /// its fixed index.
    pub fn name(&self) -> (r: String)
        ensures
            r@ == "Remove collection "@ + self.path@ + " item "@ + dec_digits(self.index as int),
    {
        let n = dec_string(self.index);
        String::from_str("Remove collection ").concat(self.path.as_str()).concat(" item ").concat(
            n.as_str(),
        )
    }
}

/// One of the three property commands, behind the shared Command contract:
/// a label, `execute`, and `revert`.
#[derive(Debug)]
pub enum PropertyCommand {
    SetProperty(SetPropertyCommand),
    AddItem(AddCollectionItemCommand),
    RemoveItem(RemoveCollectionItemCommand),
}

/// What a UI change event asks for: replace the value, append an item,
/// remove an item, or reset the field to an inherited value.
#[derive(Debug)]
pub enum PropertyAction {
    Modify { value: Value },
    AddItem { value: Value },
    RemoveItem { index: usize },
    Revert,
}

/// A change description from the UI layer: which entity, which field, and
/// what to do with it.
#[derive(Debug)]
pub struct PropertyChanged {
    pub handle: EntityHandle,
    pub path: String,
    pub action: PropertyAction,
}

/// Builds the command for a change description; one command kind for each
/// action kind. A `Revert` action yields no command: restoring an inherited
/// value needs context this generic engine does not have, so the caller must
/// handle it itself.
pub fn make_command(change: PropertyChanged) -> (r: Option<PropertyCommand>)
    ensures
        match change.action {
            PropertyAction::Modify { value } => r == Some(
                PropertyCommand::SetProperty(
                    (SetPropertyCommand { handle: change.handle, path: change.path, value }),
                ),
            ),
            PropertyAction::AddItem { value } => r == Some(
                PropertyCommand::AddItem(
                    (AddCollectionItemCommand {
                        handle: change.handle,
                        path: change.path,
                        item: Some(value),
                    }),
                ),
            ),
            PropertyAction::RemoveItem { index } => r == Some(
                PropertyCommand::RemoveItem(
                    (RemoveCollectionItemCommand {
                        handle: change.handle,
                        path: change.path,
                        index,
                        value: None,
                    }),
                ),
            ),
            PropertyAction::Revert => r is None,
        },
{
    let PropertyChanged { handle, path, action } = change;
    match action {
        PropertyAction::Modify { value } => Some(
            PropertyCommand::SetProperty(SetPropertyCommand::new(handle, path, value)),
        ),
        PropertyAction::AddItem { value } => Some(
            PropertyCommand::AddItem(AddCollectionItemCommand::new(handle, path, value)),
        ),
        PropertyAction::RemoveItem { index } => Some(
            PropertyCommand::RemoveItem(RemoveCollectionItemCommand::new(handle, path, index)),
        ),
        PropertyAction::Revert => None,
    }
}

impl PropertyCommand {
    /// The handle of the entity the command targets.
    pub open spec fn handle_of(self) -> EntityHandle {
        match self {
            PropertyCommand::SetProperty(c) => c.handle,
            PropertyCommand::AddItem(c) => c.handle,
            PropertyCommand::RemoveItem(c) => c.handle,
        }
    }

    /// Whatever value the command carries is well-formed.
    pub open spec fn wf(self) -> bool {
        match self {
            PropertyCommand::SetProperty(c) => wf_vm(c.value@),
            PropertyCommand::AddItem(c) => slot_wf(c.item),
            PropertyCommand::RemoveItem(c) => slot_wf(c.value),
        }
    }

    /// The pending slot holds what the next `execute` needs.
    pub open spec fn ready_to_execute(self) -> bool {
        match self {
            PropertyCommand::SetProperty(_) => true,
            PropertyCommand::AddItem(c) => c.item is Some,
            PropertyCommand::RemoveItem(_) => true,
        }
    }

    /// The pending slot holds what the next `revert` needs.
    pub open spec fn ready_to_revert(self) -> bool {
        match self {
            PropertyCommand::SetProperty(_) => true,
            PropertyCommand::AddItem(_) => true,
            PropertyCommand::RemoveItem(c) => c.value is Some,
        }
    }

    /// Executes the command on the entity its handle names.
    pub fn execute(&mut self, graph: &mut EntityGraph, log: &mut ErrorLog)
        requires
            old(self).handle_of().index < old(graph)@.len(),
            graph_wf(*old(graph)),
            old(self).wf(),
            old(self).ready_to_execute(),
        ensures
            final(self).wf(),
            graph_wf(*final(graph)),
            final(self).handle_of() == old(self).handle_of(),
            ({
                let i = old(self).handle_of().index as int;
                match *old(self) {
                    PropertyCommand::SetProperty(c) => {
                        let o = set_swap_vm(old(graph)@[i], c.path@, c.value@);
                        &&& *final(self) matches PropertyCommand::SetProperty(c2) && c2.path == c.path
                            && c2.value@ == o.pending
                        &&& final(graph)@ == old(graph)@.update(i, o.model)
                        &&& match o.err {
                            None => final(log)@ == old(log)@,
                            Some(k) => final(log)@ == old(log)@.push(error_text(k, c.path@)),
                        }
                    },
                    PropertyCommand::AddItem(c) => {
                        let o = add_execute_vm(old(graph)@[i], c.path@, vm_of(c.item.unwrap()));
                        &&& *final(self) matches PropertyCommand::AddItem(c2) && c2.path == c.path
                            && opt_vm(c2.item) == o.slot
                        &&& final(graph)@ == old(graph)@.update(i, o.model)
                        &&& match o.err {
                            None => final(log)@ == old(log)@,
                            Some(k) => final(log)@ == old(log)@.push(error_text(k, c.path@)),
                        }
                    },
                    PropertyCommand::RemoveItem(c) => {
                        let o = remove_execute_vm(
                            old(graph)@[i],
                            c.path@,
                            c.index as int,
                            opt_vm(c.value),
                        );
                        &&& *final(self) matches PropertyCommand::RemoveItem(c2) && c2.path == c.path
                            && c2.index == c.index && opt_vm(c2.value) == o.slot
                        &&& final(graph)@ == old(graph)@.update(i, o.model)
                        &&& match o.err {
                            None => final(log)@ == old(log)@,
                            Some(k) => final(log)@ == old(log)@.push(error_text(k, c.path@)),
                        }
                    },
                }
            }),
    {
        match self {
            PropertyCommand::SetProperty(c) => c.execute(graph, log),
            PropertyCommand::AddItem(c) => c.execute(graph, log),
            PropertyCommand::RemoveItem(c) => c.execute(graph, log),
        }
    }

    /// Reverts the command on the entity its handle names.
    pub fn revert(&mut self, graph: &mut EntityGraph, log: &mut ErrorLog)
        requires
            old(self).handle_of().index < old(graph)@.len(),
            graph_wf(*old(graph)),
            old(self).wf(),
            old(self).ready_to_revert(),
        ensures
            final(self).wf(),
            graph_wf(*final(graph)),
            final(self).handle_of() == old(self).handle_of(),
            ({
                let i = old(self).handle_of().index as int;
                match *old(self) {
                    PropertyCommand::SetProperty(c) => {
                        let o = set_swap_vm(old(graph)@[i], c.path@, c.value@);
                        &&& *final(self) matches PropertyCommand::SetProperty(c2) && c2.path == c.path
                            && c2.value@ == o.pending
                        &&& final(graph)@ == old(graph)@.update(i, o.model)
                        &&& match o.err {
                            None => final(log)@ == old(log)@,
                            Some(k) => final(log)@ == old(log)@.push(error_text(k, c.path@)),
                        }
                    },
                    PropertyCommand::AddItem(c) => {
                        let o = add_revert_vm(old(graph)@[i], c.path@, opt_vm(c.item));
                        &&& *final(self) matches PropertyCommand::AddItem(c2) && c2.path == c.path
                            && opt_vm(c2.item) == o.slot
                        &&& final(graph)@ == old(graph)@.update(i, o.model)
                        &&& match o.err {
                            None => final(log)@ == old(log)@,
                            Some(k) => final(log)@ == old(log)@.push(error_text(k, c.path@)),
                        }
                    },
                    PropertyCommand::RemoveItem(c) => {
                        let o = remove_revert_vm(
                            old(graph)@[i],
                            c.path@,
                            c.index as int,
                            vm_of(c.value.unwrap()),
                        );
                        &&& *final(self) matches PropertyCommand::RemoveItem(c2) && c2.path == c.path
                            && c2.index == c.index && opt_vm(c2.value) == o.slot
                        &&& final(graph)@ == old(graph)@.update(i, o.model)
                        &&& match o.err {
                            None => final(log)@ == old(log)@,
                            Some(k) => final(log)@ == old(log)@.push(error_text(k, c.path@)),
                        }
                    },
                }
            }),
    {
        match self {
            PropertyCommand::SetProperty(c) => c.revert(graph, log),
            PropertyCommand::AddItem(c) => c.revert(graph, log),
            PropertyCommand::RemoveItem(c) => c.revert(graph, log),
        }
    }

    /// The human-readable label of the command.
    pub fn name(&self) -> (r: String)
        ensures
            match self {
                PropertyCommand::SetProperty(c) => r@ == "Set "@ + c.path@ + " property"@,
                PropertyCommand::AddItem(c) => r@ == "Add item to "@ + c.path@ + " collection"@,
                PropertyCommand::RemoveItem(c) => r@ == "Remove collection "@ + c.path@ + " item "@
                    + dec_digits(c.index as int),
            },
    {
        match self {
            PropertyCommand::SetProperty(c) => c.name(),
            PropertyCommand::AddItem(c) => c.name(),
            PropertyCommand::RemoveItem(c) => c.name(),
        }
    }
}

} // verus!
