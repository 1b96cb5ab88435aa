//! Path resolution and the reflective mutation capability.
//!
//! [`resolve_vm`] locates the field a path addresses inside a modelled value;
//! [`update_vm`] is the same traversal as a functional update. [`apply_vm`]
//! states the effect of one all-or-nothing mutation step — replace a field,
//! or push/pop/insert/remove on an ordered collection — including every way
//! the step can fail. The executable counterpart is [`Value::apply`], whose
//! contract ties the mutated value, the returned payload and the reported
//! error exactly to [`apply_vm`].

use vstd::prelude::*;

use crate::path::PathSeg;
use crate::path::PropertyPath;
use crate::path::SegVm;
use crate::path::segs_vm;
use crate::value::FieldEntry;
use crate::value::FieldVm;
use crate::value::Kind;
use crate::value::Value;
use crate::value::Vm;
use crate::value::compat_vm;
use crate::value::kind_of;
use crate::value::lemma_vm_of_fields_index;
use crate::value::lemma_vm_of_fields_len;
use crate::value::lemma_vm_of_list_index;
use crate::value::lemma_vm_of_list_len;
use crate::value::vm_of;
use crate::value::vm_of_fields;
use crate::value::vm_of_list;
use crate::value::wf_vm;

verus! {

/// Why a mutation step was skipped. Every failure leaves the object graph
/// untouched.
#[derive(Clone, Copy, PartialEq, Eq, Structural, Debug)]
pub enum ErrorKind {
    /// The path does not resolve against the current shape of the object.
    NoSuchProperty,
    /// The value's kind disagrees with the kind of the addressed field.
    TypeMismatch,
    /// An item operation addressed a field that is not an ordered collection.
    NotACollection,
    /// A pop, remove or re-insert found the collection shorter than expected.
    CollectionUnderflow,
}

/// The index of the first field named `name`, if any.
pub open spec fn find_field(fields: Seq<FieldVm>, name: Seq<char>) -> Option<int>
    decreases fields.len(),
{
    if fields.len() == 0 {
        None
    } else if fields[0].name == name {
        Some(0)
    } else {
        match find_field(fields.skip(1), name) {
            Some(j) => Some(j + 1),
            None => None,
        }
    }
}

pub proof fn lemma_find_field(fields: Seq<FieldVm>, name: Seq<char>)
    ensures
        match find_field(fields, name) {
            Some(j) => 0 <= j < fields.len() && fields[j].name == name && forall|k: int|
                0 <= k < j ==> (#[trigger] fields[k]).name != name,
            None => forall|k: int| 0 <= k < fields.len() ==> (#[trigger] fields[k]).name != name,
        },
    decreases fields.len(),
{
    if fields.len() > 0 && fields[0].name != name {
        lemma_find_field(fields.skip(1), name);
        assert(forall|k: int| 1 <= k < fields.len() ==> fields[k] == fields.skip(1)[k - 1]);
    }
}

/// The value at `segs` inside `m`, or `None` where the path does not resolve.
pub open spec fn resolve_vm(m: Vm, segs: Seq<SegVm>) -> Option<Vm>
    decreases segs.len(),
{
    if segs.len() == 0 {
        Some(m)
    } else {
        match (m, segs[0]) {
            (Vm::Record { fields }, SegVm::Field(n)) => match find_field(fields, n) {
                Some(j) => resolve_vm(fields[j].value, segs.skip(1)),
                None => None,
            },
            (Vm::List { elem: _, items }, SegVm::Index(i)) => if 0 <= i < items.len() {
                resolve_vm(items[i], segs.skip(1))
            } else {
                None
            },
            _ => None,
        }
    }
}

/// `m` with the value at `segs` replaced by `nv`; `m` itself where the path
/// does not resolve.
pub open spec fn update_vm(m: Vm, segs: Seq<SegVm>, nv: Vm) -> Vm
    decreases segs.len(),
{
    if segs.len() == 0 {
        nv
    } else {
        match (m, segs[0]) {
            (Vm::Record { fields }, SegVm::Field(n)) => match find_field(fields, n) {
                Some(j) => Vm::Record {
                    fields: fields.update(
                        j,
                        FieldVm {
                            name: fields[j].name,
                            value: update_vm(fields[j].value, segs.skip(1), nv),
                        },
                    ),
                },
                None => m,
            },
            (Vm::List { elem, items }, SegVm::Index(i)) => if 0 <= i < items.len() {
                Vm::List { elem, items: items.update(i, update_vm(items[i], segs.skip(1), nv)) }
            } else {
                m
            },
            _ => m,
        }
    }
}

/// A value resolved inside a well-formed value is well-formed.
pub proof fn lemma_resolve_wf(m: Vm, segs: Seq<SegVm>)
    requires
        wf_vm(m),
        resolve_vm(m, segs) is Some,
    ensures
        wf_vm(resolve_vm(m, segs).unwrap()),
    decreases segs.len(),
{
    if segs.len() > 0 {
        match (m, segs[0]) {
            (Vm::Record { fields }, SegVm::Field(n)) => {
                let j = find_field(fields, n).unwrap();
                lemma_find_field(fields, n);
                lemma_resolve_wf(fields[j].value, segs.skip(1));
            },
            (Vm::List { elem: _, items }, SegVm::Index(i)) => {
                lemma_resolve_wf(items[i], segs.skip(1));
            },
            _ => {},
        }
    }
}

/// Replacing a resolved field with a compatible well-formed value keeps the
/// whole value well-formed.
pub proof fn lemma_update_wf(m: Vm, segs: Seq<SegVm>, nv: Vm)
    requires
        wf_vm(m),
        wf_vm(nv),
        resolve_vm(m, segs) is Some,
        compat_vm(resolve_vm(m, segs).unwrap(), nv),
    ensures
        wf_vm(update_vm(m, segs, nv)),
    decreases segs.len(),
{
    if segs.len() > 0 {
        match (m, segs[0]) {
            (Vm::Record { fields }, SegVm::Field(n)) => {
                let j = find_field(fields, n).unwrap();
                lemma_find_field(fields, n);
                lemma_update_wf(fields[j].value, segs.skip(1), nv);
            },
            (Vm::List { elem: _, items }, SegVm::Index(i)) => {
                lemma_update_wf(items[i], segs.skip(1), nv);
            },
            _ => {},
        }
    }
}

/// Looking up a field by name is unchanged by updating some field in place,
/// as long as the names stay the same.
pub proof fn lemma_find_field_update(fields: Seq<FieldVm>, name: Seq<char>, j: int, f: FieldVm)
    requires
        0 <= j < fields.len(),
        f.name == fields[j].name,
    ensures
        find_field(fields.update(j, f), name) == find_field(fields, name),
    decreases fields.len(),
{
    if fields.len() > 0 {
        if j == 0 {
            assert(fields.update(0, f)[0] == f);
            assert(fields.update(0, f).skip(1) =~= fields.skip(1));
        } else {
            assert(fields.update(j, f)[0] == fields[0]);
            assert(fields.update(j, f).skip(1) =~= fields.skip(1).update(j - 1, f));
            lemma_find_field_update(fields.skip(1), name, j - 1, f);
        }
    }
}

/// After an update at a path, the path resolves to the new value.
pub proof fn lemma_resolve_update(m: Vm, segs: Seq<SegVm>, nv: Vm)
    requires
        resolve_vm(m, segs) is Some,
    ensures
        resolve_vm(update_vm(m, segs, nv), segs) == Some(nv),
    decreases segs.len(),
{
    if segs.len() > 0 {
        match (m, segs[0]) {
            (Vm::Record { fields, .. }, SegVm::Field(n)) => {
                let j = find_field(fields, n).unwrap();
                lemma_find_field(fields, n);
                let f = FieldVm {
                    name: fields[j].name,
                    value: update_vm(fields[j].value, segs.skip(1), nv),
                };
                lemma_find_field_update(fields, n, j, f);
                lemma_resolve_update(fields[j].value, segs.skip(1), nv);
            },
            (Vm::List { elem: _, items }, SegVm::Index(i)) => {
                lemma_resolve_update(items[i], segs.skip(1), nv);
            },
            _ => {},
        }
    }
}

/// One mutation request: what a command asks the graph to do at a path.
#[derive(Debug)]
pub enum MutOp {
    /// Replace the addressed field, handing its old value back.
    Replace(Value),
    /// Append an item to the addressed collection.
    Push(Value),
    /// Take the last item off the addressed collection.
    Pop,
    /// Put an item back into the addressed collection at an index.
    Insert(usize, Value),
    /// Take the item at an index out of the addressed collection.
    Remove(usize),
}

/// The model of a mutation request.
pub enum OpVm {
    Replace(Vm),
    Push(Vm),
    Pop,
    Insert(int, Vm),
    Remove(int),
}

impl View for MutOp {
    type V = OpVm;

    open spec fn view(&self) -> OpVm {
        match self {
            MutOp::Replace(v) => OpVm::Replace(vm_of(*v)),
            MutOp::Push(v) => OpVm::Push(vm_of(*v)),
            MutOp::Pop => OpVm::Pop,
            MutOp::Insert(i, v) => OpVm::Insert(*i as int, vm_of(*v)),
            MutOp::Remove(i) => OpVm::Remove(*i as int),
        }
    }
}

/// The value a request carries, if any: it is handed back on failure.
pub open spec fn op_arg(op: OpVm) -> Option<Vm> {
    match op {
        OpVm::Replace(v) => Some(v),
        OpVm::Push(v) => Some(v),
        OpVm::Pop => None,
        OpVm::Insert(_, v) => Some(v),
        OpVm::Remove(_) => None,
    }
}

/// The value a request carries is itself well-formed.
pub open spec fn op_arg_wf(op: OpVm) -> bool {
    match op_arg(op) {
        Some(v) => wf_vm(v),
        None => true,
    }
}

/// A skipped mutation: why it was skipped, and the carried value handed back
/// so that it is not lost and the step can be corrected and retried.
#[derive(Debug, PartialEq)]
pub struct MutationError {
    pub kind: ErrorKind,
    pub returned: Option<Value>,
}

/// The model of a skipped mutation.
pub struct MutationErrorVm {
    pub kind: ErrorKind,
    pub returned: Option<Vm>,
}

impl View for MutationError {
    type V = MutationErrorVm;

    open spec fn view(&self) -> MutationErrorVm {
        MutationErrorVm {
            kind: self.kind,
            returned: match self.returned {
                Some(v) => Some(vm_of(v)),
                None => None,
            },
        }
    }
}

/// The model of a mutation step's outcome: the value afterwards, and either
/// the payload handed out (the old field, the popped or removed item) or the
/// failure.
pub struct ApplyVm {
    pub model: Vm,
    pub result: Result<Option<Vm>, MutationErrorVm>,
}

/// The outcome of a step that failed: the value untouched, the carried value
/// handed back.
pub open spec fn apply_fail(m: Vm, kind: ErrorKind, op: OpVm) -> ApplyVm {
    ApplyVm { model: m, result: Err(MutationErrorVm { kind, returned: op_arg(op) }) }
}

/// The effect of one all-or-nothing mutation step: resolve the path, check
/// the kinds, and either perform the whole mutation or leave the value
/// untouched and report why.
pub open spec fn apply_vm(m: Vm, segs: Seq<SegVm>, op: OpVm) -> ApplyVm {
    match resolve_vm(m, segs) {
        None => apply_fail(m, ErrorKind::NoSuchProperty, op),
        Some(t) => match op {
            OpVm::Replace(nv) => if compat_vm(t, nv) {
                ApplyVm { model: update_vm(m, segs, nv), result: Ok(Some(t)) }
            } else {
                apply_fail(m, ErrorKind::TypeMismatch, op)
            },
            OpVm::Push(x) => match t {
                Vm::List { elem, items } => if kind_of(x) == elem {
                    ApplyVm {
                        model: update_vm(m, segs, Vm::List { elem, items: items.push(x) }),
                        result: Ok(None),
                    }
                } else {
                    apply_fail(m, ErrorKind::TypeMismatch, op)
                },
                _ => apply_fail(m, ErrorKind::NotACollection, op),
            },
            OpVm::Pop => match t {
                Vm::List { elem, items } => if items.len() > 0 {
                    ApplyVm {
                        model: update_vm(m, segs, Vm::List { elem, items: items.drop_last() }),
                        result: Ok(Some(items.last())),
                    }
                } else {
                    apply_fail(m, ErrorKind::CollectionUnderflow, op)
                },
                _ => apply_fail(m, ErrorKind::NotACollection, op),
            },
            OpVm::Insert(i, x) => match t {
                Vm::List { elem, items } => if kind_of(x) != elem {
                    apply_fail(m, ErrorKind::TypeMismatch, op)
                } else if 0 <= i <= items.len() {
                    ApplyVm {
                        model: update_vm(m, segs, Vm::List { elem, items: items.insert(i, x) }),
                        result: Ok(None),
                    }
                } else {
                    apply_fail(m, ErrorKind::CollectionUnderflow, op)
                },
                _ => apply_fail(m, ErrorKind::NotACollection, op),
            },
            OpVm::Remove(i) => match t {
                Vm::List { elem, items } => if 0 <= i < items.len() {
                    ApplyVm {
                        model: update_vm(m, segs, Vm::List { elem, items: items.remove(i) }),
                        result: Ok(Some(items[i])),
                    }
                } else {
                    apply_fail(m, ErrorKind::CollectionUnderflow, op)
                },
                _ => apply_fail(m, ErrorKind::NotACollection, op),
            },
        },
    }
}

/// Updating a path back to the value it resolved to undoes the first update.
pub proof fn lemma_update_roundtrip(m: Vm, segs: Seq<SegVm>, nv: Vm)
    requires
        resolve_vm(m, segs) is Some,
    ensures
        update_vm(update_vm(m, segs, nv), segs, resolve_vm(m, segs).unwrap()) == m,
    decreases segs.len(),
{
    if segs.len() > 0 {
        match (m, segs[0]) {
            (Vm::Record { fields, .. }, SegVm::Field(n)) => {
                let j = find_field(fields, n).unwrap();
                lemma_find_field(fields, n);
                let f = FieldVm {
                    name: fields[j].name,
                    value: update_vm(fields[j].value, segs.skip(1), nv),
                };
                lemma_find_field_update(fields, n, j, f);
                lemma_update_roundtrip(fields[j].value, segs.skip(1), nv);
                assert(fields.update(j, f).update(j, fields[j]) =~= fields);
            },
            (Vm::List { elem, items }, SegVm::Index(i)) => {
                lemma_update_roundtrip(items[i], segs.skip(1), nv);
                let w = update_vm(items[i], segs.skip(1), nv);
                assert(items.update(i, w).update(i, items[i]) =~= items);
            },
            _ => {},
        }
    }
}

/// A mutation step applied under a record field acts on that field alone.
proof fn lemma_apply_lift_record(fields: Seq<FieldVm>, segs: Seq<SegVm>, op: OpVm)
    requires
        segs.len() > 0,
        segs[0] is Field,
        find_field(fields, segs[0]->Field_0) is Some,
    ensures
        ({
            let m = Vm::Record { fields };
            let j = find_field(fields, segs[0]->Field_0).unwrap();
            let a = apply_vm(m, segs, op);
            let b = apply_vm(fields[j].value, segs.skip(1), op);
            a.result == b.result && a.model == Vm::Record {
                fields: fields.update(j, FieldVm { name: fields[j].name, value: b.model }),
            }
        }),
{
    let m = Vm::Record { fields };
    let n = segs[0]->Field_0;
    let j = find_field(fields, n).unwrap();
    lemma_find_field(fields, n);
    assert(resolve_vm(m, segs) == resolve_vm(fields[j].value, segs.skip(1)));
    let b = apply_vm(fields[j].value, segs.skip(1), op);
    if b.model == fields[j].value {
        assert(fields.update(j, FieldVm { name: fields[j].name, value: b.model }) =~= fields);
    }
}

/// A mutation step applied under a collection index acts on that item alone.
proof fn lemma_apply_lift_list(elem: Kind, items: Seq<Vm>, segs: Seq<SegVm>, op: OpVm)
    requires
        segs.len() > 0,
        segs[0] is Index,
        0 <= segs[0]->Index_0 < items.len(),
    ensures
        ({
            let m = Vm::List { elem, items };
            let i = segs[0]->Index_0;
            let a = apply_vm(m, segs, op);
            let b = apply_vm(items[i], segs.skip(1), op);
            a.result == b.result && a.model == Vm::List {
                elem,
                items: items.update(i, b.model),
            }
        }),
{
    let m = Vm::List { elem, items };
    let i = segs[0]->Index_0;
    assert(resolve_vm(m, segs) == resolve_vm(items[i], segs.skip(1)));
    let b = apply_vm(items[i], segs.skip(1), op);
    if b.model == items[i] {
        assert(items.update(i, b.model) =~= items);
    }
}

/// A mutation step keeps the value well-formed.
pub proof fn lemma_apply_vm_wf(m: Vm, segs: Seq<SegVm>, op: OpVm)
    requires
        wf_vm(m),
        op_arg_wf(op),
    ensures
        wf_vm(apply_vm(m, segs, op).model),
{
    match resolve_vm(m, segs) {
        None => {},
        Some(t) => {
            lemma_resolve_wf(m, segs);
            match op {
                OpVm::Replace(nv) => {
                    if compat_vm(t, nv) {
                        lemma_update_wf(m, segs, nv);
                    }
                },
                OpVm::Push(x) => match t {
                    Vm::List { elem, items } => if kind_of(x) == elem {
                        let w = Vm::List { elem, items: items.push(x) };
                        assert(wf_vm(w)) by {
                            assert(forall|k: int|
                                0 <= k < items.len() ==> items.push(x)[k] == #[trigger] items[k]);
                        }
                        lemma_update_wf(m, segs, w);
                    },
                    _ => {},
                },
                OpVm::Pop => match t {
                    Vm::List { elem, items } => if items.len() > 0 {
                        let w = Vm::List { elem, items: items.drop_last() };
                        assert(wf_vm(w)) by {
                            assert(forall|k: int|
                                0 <= k < items.len() - 1 ==> items.drop_last()[k]
                                    == #[trigger] items[k]);
                        }
                        lemma_update_wf(m, segs, w);
                    },
                    _ => {},
                },
                OpVm::Insert(i, x) => match t {
                    Vm::List { elem, items } => if kind_of(x) == elem && 0 <= i <= items.len() {
                        let w = Vm::List { elem, items: items.insert(i, x) };
                        assert(wf_vm(w)) by {
                            assert(forall|k: int|
                                0 <= k < items.len() + 1 ==> #[trigger] items.insert(i, x)[k]
                                    == (if k < i {
                                    items[k]
                                } else if k == i {
                                    x
                                } else {
                                    items[k - 1]
                                }));
                        }
                        lemma_update_wf(m, segs, w);
                    },
                    _ => {},
                },
                OpVm::Remove(i) => match t {
                    Vm::List { elem, items } => if 0 <= i < items.len() {
                        let w = Vm::List { elem, items: items.remove(i) };
                        assert(wf_vm(w)) by {
                            assert(forall|k: int|
                                0 <= k < items.len() - 1 ==> #[trigger] items.remove(i)[k] == (if k
                                    < i {
                                    items[k]
                                } else {
                                    items[k + 1]
                                }));
                        }
                        lemma_update_wf(m, segs, w);
                    },
                    _ => {},
                },
            }
        },
    }
}

/// The model of a mutation step's executable result.
pub open spec fn res_vm(r: Result<Option<Value>, MutationError>) -> Result<
    Option<Vm>,
    MutationErrorVm,
> {
    match r {
        Ok(Some(x)) => Ok(Some(vm_of(x))),
        Ok(None) => Ok(None),
        Err(e) => Err(e@),
    }
}

proof fn lemma_vm_of_list_push(items: Seq<Value>, x: Value)
    ensures
        vm_of_list(items.push(x)) == vm_of_list(items).push(vm_of(x)),
{
    assert(items.push(x).drop_last() =~= items);
    assert(items.push(x).last() == x);
}

pub proof fn lemma_vm_of_list_update(items: Seq<Value>, j: int, x: Value)
    requires
        0 <= j < items.len(),
    ensures
        vm_of_list(items.update(j, x)) == vm_of_list(items).update(j, vm_of(x)),
{
    lemma_vm_of_list_len(items);
    lemma_vm_of_list_len(items.update(j, x));
    assert forall|k: int| 0 <= k < items.len() implies vm_of_list(items.update(j, x))[k]
        == vm_of_list(items).update(j, vm_of(x))[k] by {
        lemma_vm_of_list_index(items.update(j, x), k);
        lemma_vm_of_list_index(items, k);
    }
    assert(vm_of_list(items.update(j, x)) =~= vm_of_list(items).update(j, vm_of(x)));
}

proof fn lemma_vm_of_fields_update(fields: Seq<FieldEntry>, j: int, f: FieldEntry)
    requires
        0 <= j < fields.len(),
    ensures
        vm_of_fields(fields.update(j, f)) == vm_of_fields(fields).update(j, f@),
{
    lemma_vm_of_fields_len(fields);
    lemma_vm_of_fields_len(fields.update(j, f));
    assert forall|k: int| 0 <= k < fields.len() implies vm_of_fields(fields.update(j, f))[k]
        == vm_of_fields(fields).update(j, f@)[k] by {
        lemma_vm_of_fields_index(fields.update(j, f), k);
        lemma_vm_of_fields_index(fields, k);
    }
    assert(vm_of_fields(fields.update(j, f)) =~= vm_of_fields(fields).update(j, f@));
}

proof fn lemma_vm_of_list_pop(items: Seq<Value>)
    requires
        items.len() > 0,
    ensures
        vm_of_list(items.drop_last()) == vm_of_list(items).drop_last(),
        vm_of(items.last()) == vm_of_list(items).last(),
{
    lemma_vm_of_list_len(items);
}

proof fn lemma_vm_of_list_insert(items: Seq<Value>, j: int, x: Value)
    requires
        0 <= j <= items.len(),
    ensures
        vm_of_list(items.insert(j, x)) == vm_of_list(items).insert(j, vm_of(x)),
{
    lemma_vm_of_list_len(items);
    lemma_vm_of_list_len(items.insert(j, x));
    assert forall|k: int| 0 <= k < items.len() + 1 implies vm_of_list(items.insert(j, x))[k]
        == vm_of_list(items).insert(j, vm_of(x))[k] by {
        lemma_vm_of_list_index(items.insert(j, x), k);
        if k < items.len() {
            lemma_vm_of_list_index(items, k);
        }
        if k > 0 && k - 1 < items.len() {
            lemma_vm_of_list_index(items, k - 1);
        }
    }
    assert(vm_of_list(items.insert(j, x)) =~= vm_of_list(items).insert(j, vm_of(x)));
}

proof fn lemma_vm_of_list_remove(items: Seq<Value>, j: int)
    requires
        0 <= j < items.len(),
    ensures
        vm_of_list(items.remove(j)) == vm_of_list(items).remove(j),
{
    lemma_vm_of_list_len(items);
    lemma_vm_of_list_len(items.remove(j));
    assert forall|k: int| 0 <= k < items.len() - 1 implies vm_of_list(items.remove(j))[k]
        == vm_of_list(items).remove(j)[k] by {
        lemma_vm_of_list_index(items.remove(j), k);
        if k < j {
            lemma_vm_of_list_index(items, k);
        } else {
            lemma_vm_of_list_index(items, k + 1);
        }
    }
    assert(vm_of_list(items.remove(j)) =~= vm_of_list(items).remove(j));
}

/// Finds the first field with the given name, as [`find_field`] does.
fn find_field_idx(fields: &Vec<FieldEntry>, name: &String) -> (r: Option<usize>)
    ensures
        match r {
            Some(j) => find_field(vm_of_fields(fields@), name@) == Some(j as int),
            None => find_field(vm_of_fields(fields@), name@) is None,
        },
{
    proof {
        lemma_find_field(vm_of_fields(fields@), name@);
        lemma_vm_of_fields_len(fields@);
    }
    let mut j: usize = 0;
    while j < fields.len()
        invariant
            0 <= j <= fields@.len(),
            vm_of_fields(fields@).len() == fields@.len(),
            forall|k: int| 0 <= k < j ==> vm_of_fields(fields@)[k].name != name@,
        decreases fields@.len() - j,
    {
        proof {
            lemma_vm_of_fields_index(fields@, j as int);
        }
        if fields[j].name == *name {
            proof {
                lemma_vm_of_fields_len(fields@);
                lemma_find_field(vm_of_fields(fields@), name@);
            }
            return Some(j);
        }
        j = j + 1;
    }
    proof {
        lemma_find_field(vm_of_fields(fields@), name@);
        lemma_vm_of_fields_len(fields@);
    }
    None
}

/// Turns a failed request back into the carried value.
fn take_op_arg(op: MutOp) -> (r: Option<Value>)
    ensures
        (match r {
            Some(v) => Some(vm_of(v)),
            None => None,
        }) == op_arg(op@),
{
    match op {
        MutOp::Replace(v) => Some(v),
        MutOp::Push(v) => Some(v),
        MutOp::Pop => None,
        MutOp::Insert(_, v) => Some(v),
        MutOp::Remove(_) => None,
    }
}

/// Performs a mutation request on the value the path resolved to.
fn apply_leaf(v: &mut Value, op: MutOp) -> (r: Result<Option<Value>, MutationError>)
    ensures
        ({
            let a = apply_vm(old(v)@, Seq::empty(), op@);
            final(v)@ == a.model && res_vm(r) == a.result
        }),
{
    match op {
        MutOp::Replace(nv) => {
            if v.compatible(&nv) {
                let mut tmp = nv;
                core::mem::swap(v, &mut tmp);
                Ok(Some(tmp))
            } else {
                Err(MutationError { kind: ErrorKind::TypeMismatch, returned: Some(nv) })
            }
        },
        MutOp::Push(x) => match v {
            Value::List { elem, items } => {
                if x.kind() == *elem {
                    proof {
                        lemma_vm_of_list_push(items@, x);
                    }
                    items.push(x);
                    Ok(None)
                } else {
                    Err(MutationError { kind: ErrorKind::TypeMismatch, returned: Some(x) })
                }
            },
            _ => Err(MutationError { kind: ErrorKind::NotACollection, returned: Some(x) }),
        },
        MutOp::Pop => match v {
            Value::List { elem: _, items } => {
                if items.len() > 0 {
                    proof {
                        lemma_vm_of_list_pop(items@);
                    }
                    let x = items.pop().unwrap();
                    Ok(Some(x))
                } else {
                    proof {
                        lemma_vm_of_list_len(items@);
                    }
                    Err(MutationError { kind: ErrorKind::CollectionUnderflow, returned: None })
                }
            },
            _ => Err(MutationError { kind: ErrorKind::NotACollection, returned: None }),
        },
        MutOp::Insert(i, x) => match v {
            Value::List { elem, items } => {
                if x.kind() != *elem {
                    Err(MutationError { kind: ErrorKind::TypeMismatch, returned: Some(x) })
                } else if i <= items.len() {
                    proof {
                        lemma_vm_of_list_len(items@);
                        lemma_vm_of_list_insert(items@, i as int, x);
                    }
                    items.insert(i, x);
                    Ok(None)
                } else {
                    proof {
                        lemma_vm_of_list_len(items@);
                    }
                    Err(MutationError { kind: ErrorKind::CollectionUnderflow, returned: Some(x) })
                }
            },
            _ => Err(MutationError { kind: ErrorKind::NotACollection, returned: Some(x) }),
        },
        MutOp::Remove(i) => match v {
            Value::List { elem: _, items } => {
                if i < items.len() {
                    proof {
                        lemma_vm_of_list_len(items@);
                        lemma_vm_of_list_remove(items@, i as int);
                        lemma_vm_of_list_index(items@, i as int);
                    }
                    let x = items.remove(i);
                    Ok(Some(x))
                } else {
                    proof {
                        lemma_vm_of_list_len(items@);
                    }
                    Err(MutationError { kind: ErrorKind::CollectionUnderflow, returned: None })
                }
            },
            _ => Err(MutationError { kind: ErrorKind::NotACollection, returned: None }),
        },
    }
}

/// Walks the remaining path steps down to the addressed field and performs
/// the request there.
fn apply_rec(v: &mut Value, segs: &Vec<PathSeg>, i: usize, op: MutOp) -> (r: Result<
    Option<Value>,
    MutationError,
>)
    requires
        i <= segs@.len(),
    ensures
        ({
            let a = apply_vm(old(v)@, segs_vm(segs@).skip(i as int), op@);
            final(v)@ == a.model && res_vm(r) == a.result
        }),
    decreases segs@.len() - i as int,
{
    let ghost rest = segs_vm(segs@).skip(i as int);
    if i == segs.len() {
        proof {
            assert(rest =~= Seq::<SegVm>::empty());
        }
        apply_leaf(v, op)
    } else {
        proof {
            assert(rest[0] == segs@[i as int]@);
            assert(rest.skip(1) =~= segs_vm(segs@).skip(i as int + 1));
        }
        match v {
            Value::Record { fields } => match &segs[i] {
                PathSeg::Field(name) => match find_field_idx(fields, name) {
                    Some(j) => {
                        proof {
                            lemma_find_field(vm_of_fields(fields@), name@);
                            lemma_vm_of_fields_len(fields@);
                            lemma_vm_of_fields_index(fields@, j as int);
                            lemma_apply_lift_record(vm_of_fields(fields@), rest, op@);
                        }
                        let ghost fields0 = fields@;
                        let fe = &mut fields[j];
                        let ghost fe0 = *fe;
                        let r = apply_rec(&mut fe.value, segs, i + 1, op);
                        proof {
                            lemma_vm_of_fields_update(fields0, j as int, *final(fe));
                        }
                        r
                    },
                    None => {
                        proof {
                            lemma_find_field(vm_of_fields(fields@), name@);
                        }
                        let e = MutationError {
                            kind: ErrorKind::NoSuchProperty,
                            returned: take_op_arg(op),
                        };
                        Err(e)
                    },
                },
                PathSeg::Index(_) => {
                    let e = MutationError {
                        kind: ErrorKind::NoSuchProperty,
                        returned: take_op_arg(op),
                    };
                    Err(e)
                },
            },
            Value::List { elem: _, items } => match &segs[i] {
                PathSeg::Index(ix) => {
                    if *ix < items.len() {
                        proof {
                            lemma_vm_of_list_len(items@);
                            lemma_vm_of_list_index(items@, *ix as int);
                            lemma_apply_lift_list(
                                old(v)@->List_elem,
                                vm_of_list(items@),
                                rest,
                                op@,
                            );
                        }
                        let ghost items0 = items@;
                        let ghost jx = *ix as int;
                        let it = &mut items[*ix];
                        let r = apply_rec(it, segs, i + 1, op);
                        proof {
                            lemma_vm_of_list_update(items0, jx, *final(it));
                        }
                        r
                    } else {
                        proof {
                            lemma_vm_of_list_len(items@);
                        }
                        let e = MutationError {
                            kind: ErrorKind::NoSuchProperty,
                            returned: take_op_arg(op),
                        };
                        Err(e)
                    }
                },
                PathSeg::Field(_) => {
                    let e = MutationError {
                        kind: ErrorKind::NoSuchProperty,
                        returned: take_op_arg(op),
                    };
                    Err(e)
                },
            },
            _ => {
                let e = MutationError {
                    kind: ErrorKind::NoSuchProperty,
                    returned: take_op_arg(op),
                };
                Err(e)
            },
        }
    }
}

/// Walks the remaining path steps down to the addressed field.
fn resolve_rec<'a>(v: &'a Value, segs: &Vec<PathSeg>, i: usize) -> (r: Option<&'a Value>)
    requires
        i <= segs@.len(),
    ensures
        match r {
            Some(t) => resolve_vm(v@, segs_vm(segs@).skip(i as int)) == Some(t@),
            None => resolve_vm(v@, segs_vm(segs@).skip(i as int)) is None,
        },
    decreases segs@.len() - i as int,
{
    let ghost rest = segs_vm(segs@).skip(i as int);
    if i == segs.len() {
        proof {
            assert(rest =~= Seq::<SegVm>::empty());
        }
        Some(v)
    } else {
        proof {
            assert(rest[0] == segs@[i as int]@);
            assert(rest.skip(1) =~= segs_vm(segs@).skip(i as int + 1));
        }
        match (v, &segs[i]) {
            (Value::Record { fields }, PathSeg::Field(name)) => match find_field_idx(
                fields,
                name,
            ) {
                Some(j) => {
                    proof {
                        lemma_find_field(vm_of_fields(fields@), name@);
                        lemma_vm_of_fields_len(fields@);
                        lemma_vm_of_fields_index(fields@, j as int);
                    }
                    resolve_rec(&fields[j].value, segs, i + 1)
                },
                None => {
                    proof {
                        lemma_find_field(vm_of_fields(fields@), name@);
                    }
                    None
                },
            },
            (Value::List { elem: _, items }, PathSeg::Index(ix)) => {
                if *ix < items.len() {
                    proof {
                        lemma_vm_of_list_len(items@);
                        lemma_vm_of_list_index(items@, *ix as int);
                    }
                    resolve_rec(&items[*ix], segs, i + 1)
                } else {
                    proof {
                        lemma_vm_of_list_len(items@);
                    }
                    None
                }
            },
            _ => None,
        }
    }
}

/// The reflective-object capability: the contract every mutable entity must
/// support for the property commands to drive it. An entity exposes a
/// mathematical model of its state and one all-or-nothing mutation step
/// against that model; the commands are written against this contract alone,
/// so every implementer gets identical execute/revert semantics.
pub trait Reflective: Sized {
    /// The mathematical model of the entity's current state.
    spec fn model(&self) -> Vm;

    /// One all-or-nothing mutation step at `path`: exactly what
    /// [`apply_vm`] states, on the entity's model.
    fn reflect_apply(&mut self, path: &PropertyPath, op: MutOp) -> (r: Result<
        Option<Value>,
        MutationError,
    >)
        requires
            wf_vm(old(self).model()),
            op_arg_wf(op@),
        ensures
            ({
                let a = apply_vm(old(self).model(), path@, op@);
                &&& final(self).model() == a.model
                &&& res_vm(r) == a.result
            }),
    ;
}

impl Reflective for Value {
    open spec fn model(&self) -> Vm {
        self@
    }

    fn reflect_apply(&mut self, path: &PropertyPath, op: MutOp) -> (r: Result<
        Option<Value>,
        MutationError,
    >) {
        self.apply(path, op)
    }
}

impl Value {
    /// Locates the field `path` addresses inside this value, or `None`
    /// where the path does not resolve against the current shape.
    pub fn resolve(&self, path: &PropertyPath) -> (r: Option<&Value>)
        ensures
            match r {
                Some(t) => resolve_vm(self@, path@) == Some(t@),
                None => resolve_vm(self@, path@) is None,
            },
    {
        proof {
            assert(segs_vm(path.segs@).skip(0) =~= path@);
        }
        resolve_rec(self, &path.segs, 0)
    }

    /// Replaces the field at `path` with `new_value`, handing the old value
    /// back; the whole step, or nothing.
    pub fn replace(&mut self, path: &PropertyPath, new_value: Value) -> (r: Result<
        Value,
        MutationError,
    >)
        requires
            wf_vm(old(self)@),
            wf_vm(new_value@),
        ensures
            ({
                let a = apply_vm(old(self)@, path@, OpVm::Replace(new_value@));
                &&& final(self)@ == a.model
                &&& wf_vm(final(self)@)
                &&& match r {
                    Ok(v) => a.result == Ok::<Option<Vm>, MutationErrorVm>(Some(vm_of(v))),
                    Err(e) => a.result == Err::<Option<Vm>, MutationErrorVm>(e@),
                }
            }),
    {
        match self.apply(path, MutOp::Replace(new_value)) {
            Ok(opt) => Ok(opt.unwrap()),
            Err(e) => Err(e),
        }
    }

    /// Appends `item` to the ordered collection at `path`; the whole step,
    /// or nothing.
    pub fn collection_push(&mut self, path: &PropertyPath, item: Value) -> (r: Result<
        (),
        MutationError,
    >)
        requires
            wf_vm(old(self)@),
            wf_vm(item@),
        ensures
            ({
                let a = apply_vm(old(self)@, path@, OpVm::Push(item@));
                &&& final(self)@ == a.model
                &&& wf_vm(final(self)@)
                &&& match r {
                    Ok(u) => a.result == Ok::<Option<Vm>, MutationErrorVm>(None),
                    Err(e) => a.result == Err::<Option<Vm>, MutationErrorVm>(e@),
                }
            }),
    {
        match self.apply(path, MutOp::Push(item)) {
            Ok(_) => Ok(()),
            Err(e) => Err(e),
        }
    }

    /// Takes the last item off the ordered collection at `path`.
    pub fn collection_pop(&mut self, path: &PropertyPath) -> (r: Result<Value, MutationError>)
        requires
            wf_vm(old(self)@),
        ensures
            ({
                let a = apply_vm(old(self)@, path@, OpVm::Pop);
                &&& final(self)@ == a.model
                &&& wf_vm(final(self)@)
                &&& match r {
                    Ok(v) => a.result == Ok::<Option<Vm>, MutationErrorVm>(Some(vm_of(v))),
                    Err(e) => a.result == Err::<Option<Vm>, MutationErrorVm>(e@),
                }
            }),
    {
        match self.apply(path, MutOp::Pop) {
            Ok(opt) => Ok(opt.unwrap()),
            Err(e) => Err(e),
        }
    }

    /// Puts `item` into the ordered collection at `path` at `index`; the
    /// whole step, or nothing.
    pub fn collection_insert(&mut self, path: &PropertyPath, index: usize, item: Value) -> (r:
        Result<(), MutationError>)
        requires
            wf_vm(old(self)@),
            wf_vm(item@),
        ensures
            ({
                let a = apply_vm(old(self)@, path@, OpVm::Insert(index as int, item@));
                &&& final(self)@ == a.model
                &&& wf_vm(final(self)@)
                &&& match r {
                    Ok(u) => a.result == Ok::<Option<Vm>, MutationErrorVm>(None),
                    Err(e) => a.result == Err::<Option<Vm>, MutationErrorVm>(e@),
                }
            }),
    {
        match self.apply(path, MutOp::Insert(index, item)) {
            Ok(_) => Ok(()),
            Err(e) => Err(e),
        }
    }

    /// Takes the item at `index` out of the ordered collection at `path`.
    pub fn collection_remove(&mut self, path: &PropertyPath, index: usize) -> (r: Result<
        Value,
        MutationError,
    >)
        requires
            wf_vm(old(self)@),
        ensures
            ({
                let a = apply_vm(old(self)@, path@, OpVm::Remove(index as int));
                &&& final(self)@ == a.model
                &&& wf_vm(final(self)@)
                &&& match r {
                    Ok(v) => a.result == Ok::<Option<Vm>, MutationErrorVm>(Some(vm_of(v))),
                    Err(e) => a.result == Err::<Option<Vm>, MutationErrorVm>(e@),
                }
            }),
    {
        match self.apply(path, MutOp::Remove(index)) {
            Ok(opt) => Ok(opt.unwrap()),
            Err(e) => Err(e),
        }
    }

    /// One all-or-nothing mutation step at `path`: resolve the path, check
    /// the kinds, and either perform the whole mutation or leave `self`
    /// untouched and report why. Well-formedness is preserved either way.
    pub fn apply(&mut self, path: &PropertyPath, op: MutOp) -> (r: Result<
        Option<Value>,
        MutationError,
    >)
        requires
            wf_vm(old(self)@),
            op_arg_wf(op@),
        ensures
            ({
                let a = apply_vm(old(self)@, path@, op@);
                final(self)@ == a.model && res_vm(r) == a.result && wf_vm(final(self)@)
            }),
    {
        proof {
            assert(segs_vm(path.segs@).skip(0) =~= path@);
            lemma_apply_vm_wf(self@, path@, op@);
        }
        apply_rec(self, &path.segs, 0, op)
    }
}

} // verus!
