//! The dynamic value model.
//!
//! Entities in the object graph are built from tagged dynamic values: scalars
//! (booleans, integers, strings), ordered collections of one element kind,
//! and records of named fields. Commands work on these values through textual
//! paths, checking kinds at run time, so the engine needs no compile-time
//! knowledge of the graph's concrete shape.

use vstd::prelude::*;

verus! {

/// The run-time kind of a dynamic value. A collection remembers the kind of
/// its elements so that an insertion into it can be kind-checked even while
/// it is empty.
#[derive(Clone, Copy, PartialEq, Eq, Structural, Debug)]
pub enum Kind {
    Bool,
    Int,
    Str,
    List,
    Record,
}

/// The mathematical model of a [`Value`]: the same tree over `Seq` instead of
/// `Vec` and `Seq<char>` instead of `String`. All contracts of this crate
/// speak about values through this model.
pub enum Vm {
    Bool(bool),
    Int(int),
    Str(Seq<char>),
    List { elem: Kind, items: Seq<Vm> },
    Record { fields: Seq<FieldVm> },
}

/// The model of one named field of a record.
pub struct FieldVm {
    pub name: Seq<char>,
    pub value: Vm,
}

/// One named field of a record value.
#[derive(Debug, PartialEq)]
pub struct FieldEntry {
    pub name: String,
    pub value: Value,
}

/// A tagged dynamic value: one node of the live object graph.
///
/// A `List` is an ordered collection whose elements all have the kind `elem`;
/// a `Record` is a sequence of named fields. That homogeneity is the
/// well-formedness invariant [`wf_vm`], which every mutation of this crate
/// preserves.
#[derive(Debug, PartialEq)]
pub enum Value {
    Bool(bool),
    Int(i64),
    Str(String),
    List { elem: Kind, items: Vec<Value> },
    Record { fields: Vec<FieldEntry> },
}

/// The model of a value.
pub open spec fn vm_of(v: Value) -> Vm
    decreases v,
{
    match v {
        Value::Bool(b) => Vm::Bool(b),
        Value::Int(i) => Vm::Int(i as int),
        Value::Str(s) => Vm::Str(s@),
        Value::List { elem, items } => Vm::List { elem, items: vm_of_list(items@) },
        Value::Record { fields } => Vm::Record { fields: vm_of_fields(fields@) },
    }
}

/// The models of the items of a collection, in order.
pub open spec fn vm_of_list(items: Seq<Value>) -> Seq<Vm>
    decreases items,
{
    if items.len() == 0 {
        Seq::empty()
    } else {
        vm_of_list(items.drop_last()).push(vm_of(items.last()))
    }
}

/// The models of the fields of a record, in order.
pub open spec fn vm_of_fields(fields: Seq<FieldEntry>) -> Seq<FieldVm>
    decreases fields,
{
    if fields.len() == 0 {
        Seq::empty()
    } else {
        vm_of_fields(fields.drop_last()).push(
            FieldVm { name: fields.last().name@, value: vm_of(fields.last().value) },
        )
    }
}

impl View for Value {
    type V = Vm;

    open spec fn view(&self) -> Vm {
        vm_of(*self)
    }
}

impl View for FieldEntry {
    type V = FieldVm;

    open spec fn view(&self) -> FieldVm {
        FieldVm { name: self.name@, value: vm_of(self.value) }
    }
}

pub broadcast proof fn lemma_vm_of_list_len(items: Seq<Value>)
    ensures
        #[trigger] vm_of_list(items).len() == items.len(),
    decreases items,
{
    if items.len() > 0 {
        lemma_vm_of_list_len(items.drop_last());
    }
}

pub broadcast proof fn lemma_vm_of_list_index(items: Seq<Value>, i: int)
    requires
        0 <= i < items.len(),
    ensures
        #[trigger] vm_of_list(items)[i] == vm_of(items[i]),
    decreases items,
{
    lemma_vm_of_list_len(items);
    if i < items.len() - 1 {
        lemma_vm_of_list_index(items.drop_last(), i);
    }
}

pub broadcast proof fn lemma_vm_of_fields_len(fields: Seq<FieldEntry>)
    ensures
        #[trigger] vm_of_fields(fields).len() == fields.len(),
    decreases fields,
{
    if fields.len() > 0 {
        lemma_vm_of_fields_len(fields.drop_last());
    }
}

pub broadcast proof fn lemma_vm_of_fields_index(fields: Seq<FieldEntry>, i: int)
    requires
        0 <= i < fields.len(),
    ensures
        #[trigger] vm_of_fields(fields)[i] == fields[i]@,
    decreases fields,
{
    lemma_vm_of_fields_len(fields);
    if i < fields.len() - 1 {
        lemma_vm_of_fields_index(fields.drop_last(), i);
    }
}

/// The model of an optional value, such as a command's pending slot.
pub open spec fn opt_vm(o: Option<Value>) -> Option<Vm> {
    match o {
        Some(v) => Some(vm_of(v)),
        None => None,
    }
}

/// Whatever value an optional slot holds is well-formed.
pub open spec fn slot_wf(o: Option<Value>) -> bool {
    match o {
        Some(v) => wf_vm(vm_of(v)),
        None => true,
    }
}

/// The kind of a modelled value.
pub open spec fn kind_of(m: Vm) -> Kind {
    match m {
        Vm::Bool(_) => Kind::Bool,
        Vm::Int(_) => Kind::Int,
        Vm::Str(_) => Kind::Str,
        Vm::List { .. } => Kind::List,
        Vm::Record { .. } => Kind::Record,
    }
}

/// Well-formedness of a modelled value: every collection holds only items of
/// its declared element kind, recursively.
pub open spec fn wf_vm(m: Vm) -> bool
    decreases m,
{
    match m {
        Vm::Bool(_) => true,
        Vm::Int(_) => true,
        Vm::Str(_) => true,
        Vm::List { elem, items } => forall|i: int|
            0 <= i < items.len() ==> kind_of(#[trigger] items[i]) == elem && wf_vm(items[i]),
        Vm::Record { fields } => forall|i: int|
            0 <= i < fields.len() ==> wf_vm(#[trigger] fields[i].value),
    }
}

/// Whether a value of model `b` may replace a field currently holding a value
/// of model `a`: the kinds must agree, and two collections must also agree on
/// their element kind.
pub open spec fn compat_vm(a: Vm, b: Vm) -> bool {
    kind_of(a) == kind_of(b) && (a matches Vm::List { elem: ea, .. } ==> b matches Vm::List {
        elem: eb,
        ..
    } && ea == eb)
}

impl Value {
    /// The run-time kind of this value.
    pub fn kind(&self) -> (k: Kind)
        ensures
            k == kind_of(self@),
    {
        match self {
            Value::Bool(_) => Kind::Bool,
            Value::Int(_) => Kind::Int,
            Value::Str(_) => Kind::Str,
            Value::List { .. } => Kind::List,
            Value::Record { .. } => Kind::Record,
        }
    }

    /// Whether `other` may replace a field currently holding `self`.
    pub fn compatible(&self, other: &Value) -> (r: bool)
        ensures
            r == compat_vm(self@, other@),
    {
        match (self, other) {
            (Value::List { elem: ea, .. }, Value::List { elem: eb, .. }) => *ea == *eb,
            (Value::List { .. }, _) => false,
            _ => self.kind() == other.kind(),
        }
    }
}

} // verus!
