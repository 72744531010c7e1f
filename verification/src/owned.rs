//! The owning handle around a structure.
//!
//! An [`OwnedStructure`] owns exactly one structure: it allocates at
//! construction, deep-copies on duplication, and releases exactly once
//! when it goes out of scope (ordinary ownership). Borrowed access to
//! the shared core type goes through [`OwnedStructure::as_ref`] and
//! [`OwnedStructure::as_mut`]; the handle also offers the core
//! operations directly, delegating to the structure it owns.

use vstd::prelude::*;

use crate::fields::{
    has_name, lemma_set_fields_push, remove_field_model, set_field, set_fields, unique_names,
    value_of, FieldModel,
};
use crate::structure::{entries_model, Structure, StructureModel};
use crate::value::{Value, ValueType};

verus! {

/// Owning handle: holds one structure and releases it with the
/// handle.
#[derive(Debug)]
pub struct OwnedStructure {
    structure: Structure,
}

impl View for OwnedStructure {
    type V = StructureModel;

    closed spec fn view(&self) -> StructureModel {
        self.structure@
    }
}

impl OwnedStructure {
    /// Field names are unique; every operation preserves this.
    pub open spec fn wf(&self) -> bool {
        unique_names(self@.fields)
    }

    /// A new structure with the given name and no fields.
    pub fn new_empty(name: &str) -> (r: OwnedStructure)
        ensures
            r@.name == name@,
            r@.fields == Seq::<FieldModel>::empty(),
            r.wf(),
    {
        OwnedStructure { structure: Structure::empty(name) }
    }

    /// A new structure with the given name whose fields are set from
    /// the list, in order; a later entry with a duplicate name
    /// overwrites the earlier value in place.
    pub fn new(name: &str, values: &Vec<(String, Value)>) -> (r: OwnedStructure)
        ensures
            r@.name == name@,
            r@.fields == set_fields(Seq::<FieldModel>::empty(), entries_model(values@)),
            r.wf(),
    {
        let ghost em = entries_model(values@);
        let mut s = OwnedStructure::new_empty(name);
        let n = values.len();
        for i in 0..n
            invariant
                n == values.len(),
                s@.name == name@,
                s.wf(),
                s@.fields == set_fields(Seq::<FieldModel>::empty(), em.take(i as int)),
                em == entries_model(values@),
        {
            s.structure.set(values[i].0.as_str(), values[i].1.clone());
            proof {
                assert(em.take(i + 1) =~= em.take(i as int).push(em[i as int]));
                lemma_set_fields_push(Seq::<FieldModel>::empty(), em.take(i as int), em[i as int]);
            }
        }
        proof {
            assert(em.take(n as int) =~= em);
        }
        s
    }

    /// Deep copy: a fully independent handle over an equal structure.
    /// Mutating either afterwards does not affect the other.
    pub fn duplicate(&self) -> (r: OwnedStructure)
        ensures
            r@.name == self@.name,
            r@.fields == self@.fields,
    {
        self.clone()
    }

    /// Borrow the shared core type immutably.
    pub fn as_ref(&self) -> (r: &Structure)
        ensures
            r@ == self@,
    {
        &self.structure
    }

    /// Borrow the shared core type mutably.
    pub fn as_mut(&mut self) -> (r: &mut Structure)
        ensures
            (*r)@ == old(self)@,
            (*final(r))@ == final(self)@,
    {
        &mut self.structure
    }

    /// The structure's name.
    pub fn get_name(&self) -> (r: &str)
        ensures
            r@ == self@.name,
    {
        self.structure.get_name()
    }

    /// The number of fields.
    pub fn n_fields(&self) -> (n: usize)
        ensures
            n == self@.fields.len(),
    {
        self.structure.n_fields()
    }

    /// Whether a field with this name is present.
    pub fn has_field(&self, field: &str) -> (r: bool)
        ensures
            r == has_name(self@.fields, field@),
    {
        self.structure.has_field(field)
    }

    /// A reference to the value stored under this name.
    pub fn get_value<'a>(&'a self, name: &str) -> (r: Option<&'a Value>)
        ensures
            match r {
                Some(v) => has_name(self@.fields, name@) && v@ == value_of(self@.fields, name@),
                None => !has_name(self@.fields, name@),
            },
    {
        self.structure.get_value(name)
    }

    /// Typed retrieval; `None` on absence or type mismatch.
    pub fn get<T: ValueType>(&self, name: &str) -> (r: Option<T>)
        ensures
            r is Some <==> has_name(self@.fields, name@) && T::matches_model(
                value_of(self@.fields, name@),
            ),
            r is Some ==> r->0.models(value_of(self@.fields, name@)),
    {
        self.structure.get(name)
    }

    /// Insert or overwrite a field.
    pub fn set(&mut self, name: &str, value: Value)
        requires
            old(self).wf(),
        ensures
            final(self).wf(),
            final(self)@.name == old(self)@.name,
            final(self)@.fields == set_field(old(self)@.fields, name@, value@),
    {
        self.structure.set(name, value)
    }

    /// Remove the field with this name; a no-op when it is absent.
    pub fn remove_field(&mut self, field: &str)
        requires
            old(self).wf(),
        ensures
            final(self).wf(),
            final(self)@.name == old(self)@.name,
            final(self)@.fields == remove_field_model(old(self)@.fields, field@),
            !has_name(final(self)@.fields, field@),
    {
        self.structure.remove_field(field)
    }

    /// Remove every field; the name is unchanged.
    pub fn remove_all_fields(&mut self)
        ensures
            final(self).wf(),
            final(self)@.name == old(self)@.name,
            final(self)@.fields == Seq::<FieldModel>::empty(),
    {
        self.structure.remove_all_fields()
    }
}

impl Clone for OwnedStructure {
    /// Deep copy, as `duplicate`.
    fn clone(&self) -> (r: Self)
        ensures
            r@.name == self@.name,
            r@.fields == self@.fields,
    {
        OwnedStructure { structure: self.structure.clone() }
    }
}

impl PartialEq for OwnedStructure {
    /// Equality of the owned structures.
    fn eq(&self, other: &OwnedStructure) -> (r: bool) {
        self.structure == other.structure
    }
}

impl vstd::std_specs::cmp::PartialEqSpecImpl for OwnedStructure {
    open spec fn obeys_eq_spec() -> bool {
        true
    }

    open spec fn eq_spec(&self, other: &OwnedStructure) -> bool {
        crate::structure::struct_eq_model(self@, other@)
    }
}

impl Eq for OwnedStructure {}

} // verus!
