//! The shared structure core: a named, ordered collection of uniquely
//! named, dynamically typed fields, with get/set/remove, equality and
//! positional access for iteration.

use vstd::prelude::*;
use vstd::string::*;

use crate::fields::{
    fields_map, has_name, index_of, lemma_fields_map_equal, lemma_fields_map_len,
    lemma_index_of_unique, lemma_remove_field, lemma_set_field, remove_field_model, set_field,
    unique_names, value_of, FieldModel, FieldsModel,
};
use crate::value::{Value, ValueModel, ValueType};

verus! {

/// Mathematical model of a structure: its name and its ordered field
/// list.
pub struct StructureModel {
    pub name: Seq<char>,
    pub fields: FieldsModel,
}

/// The model of a list of (name, value) entries.
pub open spec fn entries_model(entries: Seq<(String, Value)>) -> FieldsModel {
    entries.map_values(|e: (String, Value)| (e.0@, e.1@))
}

/// A structure: the core type holding the name and the fields. Owning
/// and borrowed access both go through this type.
#[derive(Debug)]
pub struct Structure {
    name: String,
    fields: Vec<(String, Value)>,
}

impl View for Structure {
    type V = StructureModel;

    closed spec fn view(&self) -> StructureModel {
        StructureModel { name: self.name@, fields: entries_model(self.fields@) }
    }
}

/// Character-by-character string comparison, so that equality of
/// names can be stated over their character sequences.
fn str_eq(a: &str, b: &str) -> (r: bool)
    ensures
        r == (a@ == b@),
{
    let alen = a.unicode_len();
    let blen = b.unicode_len();
    if alen != blen {
        return false;
    }
    for i in 0..alen
        invariant
            alen == a@.len(),
            blen == b@.len(),
            alen == blen,
            forall|j: int| 0 <= j < i ==> a@[j] == b@[j],
    {
        if a.get_char(i) != b.get_char(i) {
            return false;
        }
    }
    proof {
        assert(a@ =~= b@);
    }
    true
}

/// What the executable equality decides: same name, same field count,
/// and every field of `a` present in `b` with an equal value.
pub open spec fn struct_eq_model(a: StructureModel, b: StructureModel) -> bool {
    &&& a.name == b.name
    &&& a.fields.len() == b.fields.len()
    &&& forall|i: int|
        0 <= i < a.fields.len() ==> has_name(b.fields, #[trigger] a.fields[i].0) && value_of(
            b.fields,
            a.fields[i].0,
        ) == a.fields[i].1
}

/// Order-independent structural equality: equal names and equal
/// name-to-value maps.
pub open spec fn equiv(a: StructureModel, b: StructureModel) -> bool {
    a.name == b.name && fields_map(a.fields) == fields_map(b.fields)
}

/// On structures with unique field names, the executable equality
/// decides exactly the order-independent equality `equiv`.
pub proof fn lemma_eq_is_equiv(a: StructureModel, b: StructureModel)
    requires
        unique_names(a.fields),
        unique_names(b.fields),
    ensures
        struct_eq_model(a, b) <==> equiv(a, b),
{
    if struct_eq_model(a, b) {
        lemma_fields_map_equal(a.fields, b.fields);
    }
    if equiv(a, b) {
        lemma_fields_map_len(a.fields);
        lemma_fields_map_len(b.fields);
        assert(fields_map(a.fields).dom().len() == fields_map(b.fields).dom().len());
        assert forall|i: int| 0 <= i < a.fields.len() implies has_name(
            b.fields,
            #[trigger] a.fields[i].0,
        ) && value_of(b.fields, a.fields[i].0) == a.fields[i].1 by {
            let n = a.fields[i].0;
            assert(has_name(a.fields, n));
            assert(fields_map(a.fields).dom().contains(n));
            assert(fields_map(b.fields).dom().contains(n));
            assert(value_of(b.fields, n) == fields_map(b.fields)[n]);
            assert(value_of(a.fields, n) == fields_map(a.fields)[n]);
            lemma_index_of_unique(a.fields, n, i);
        }
    }
}

impl Structure {
    /// Field names are unique; every operation preserves this.
    pub open spec fn wf(&self) -> bool {
        unique_names(self@.fields)
    }

    /// A fresh structure with the given name and no fields.
    pub(crate) fn empty(name: &str) -> (s: Structure)
        ensures
            s@.name == name@,
            s@.fields == Seq::<FieldModel>::empty(),
            s.wf(),
    {
        let s = Structure { name: name.to_owned(), fields: Vec::new() };
        proof {
            assert(s@.fields =~= Seq::<FieldModel>::empty());
        }
        s
    }

    /// Index of the field with this name, if present.
    fn find(&self, name: &str) -> (r: Option<usize>)
        ensures
            match r {
                Some(i) => has_name(self@.fields, name@) && i == index_of(self@.fields, name@)
                    && i < self@.fields.len(),
                None => !has_name(self@.fields, name@),
            },
    {
        let n = self.fields.len();
        for i in 0..n
            invariant
                n == self.fields.len(),
                forall|j: int| 0 <= j < i ==> self@.fields[j].0 != name@,
        {
            if str_eq(self.fields[i].0.as_str(), name) {
                proof {
                    assert(self@.fields[i as int].0 == name@);
                    lemma_index_of_unique(self@.fields, name@, i as int);
                }
                return Some(i);
            }
        }
        None
    }

    /// The structure's name, as a read-only view.
    pub fn get_name(&self) -> (r: &str)
        ensures
            r@ == self@.name,
    {
        self.name.as_str()
    }

    /// The number of fields.
    pub fn n_fields(&self) -> (n: usize)
        ensures
            n == self@.fields.len(),
    {
        self.fields.len()
    }

    /// Whether a field with this name is present.
    pub fn has_field(&self, field: &str) -> (r: bool)
        ensures
            r == has_name(self@.fields, field@),
    {
        self.find(field).is_some()
    }

    /// A reference to the value stored under this name, or `None`
    /// when the field is absent.
    pub fn get_value<'a>(&'a self, name: &str) -> (r: Option<&'a Value>)
        ensures
            match r {
                Some(v) => has_name(self@.fields, name@) && v@ == value_of(self@.fields, name@),
                None => !has_name(self@.fields, name@),
            },
    {
        match self.find(name) {
            Some(i) => Some(&self.fields[i].1),
            None => None,
        }
    }

    /// Typed retrieval: `None` both when the field is absent and when
    /// the stored value's runtime type does not match `T`.
    pub fn get<T: ValueType>(&self, name: &str) -> (r: Option<T>)
        ensures
            r is Some <==> has_name(self@.fields, name@) && T::matches_model(
                value_of(self@.fields, name@),
            ),
            r is Some ==> r->0.models(value_of(self@.fields, name@)),
    {
        match self.get_value(name) {
            Some(v) => T::try_from_value(v),
            None => None,
        }
    }

    /// Insert or overwrite a field. An existing field keeps its
    /// position; a new field is appended at the end.
    pub fn set(&mut self, name: &str, value: Value)
        requires
            old(self).wf(),
        ensures
            final(self).wf(),
            final(self)@.name == old(self)@.name,
            final(self)@.fields == set_field(old(self)@.fields, name@, value@),
    {
        proof {
            lemma_set_field(self@.fields, name@, value@);
        }
        match self.find(name) {
            Some(i) => {
                self.fields.remove(i);
                self.fields.insert(i, (name.to_owned(), value));
                proof {
                    assert(final(self)@.fields =~= set_field(old(self)@.fields, name@, value@));
                }
            },
            None => {
                self.fields.push((name.to_owned(), value));
                proof {
                    assert(final(self)@.fields =~= set_field(old(self)@.fields, name@, value@));
                }
            },
        }
    }

    /// Remove the field with this name; a no-op when it is absent.
    pub fn remove_field(&mut self, field: &str)
        requires
            old(self).wf(),
        ensures
            final(self).wf(),
            final(self)@.name == old(self)@.name,
            final(self)@.fields == remove_field_model(old(self)@.fields, field@),
            !has_name(final(self)@.fields, field@),
    {
        proof {
            lemma_remove_field(self@.fields, field@);
        }
        match self.find(field) {
            Some(i) => {
                self.fields.remove(i);
                proof {
                    assert(final(self)@.fields =~= remove_field_model(old(self)@.fields, field@));
                }
            },
            None => {},
        }
    }

    /// Remove every field; the name is unchanged.
    pub fn remove_all_fields(&mut self)
        ensures
            final(self).wf(),
            final(self)@.name == old(self)@.name,
            final(self)@.fields == Seq::<FieldModel>::empty(),
    {
        self.fields.clear();
        proof {
            assert(final(self)@.fields =~= Seq::<FieldModel>::empty());
        }
    }

    /// Positional access to a whole field entry, for the text
    /// encoder.
    pub(crate) fn nth_entry<'a>(&'a self, idx: usize) -> (r: (&'a String, &'a Value))
        requires
            idx < self@.fields.len(),
        ensures
            r.0@ == self@.fields[idx as int].0,
            r.1@ == self@.fields[idx as int].1,
    {
        (&self.fields[idx].0, &self.fields[idx].1)
    }

    /// Positional access for iteration: the name of the field at this
    /// index, or `None` past the end.
    pub fn get_nth_field_name<'a>(&'a self, idx: usize) -> (r: Option<&'a str>)
        ensures
            r is Some <==> idx < self@.fields.len(),
            r is Some ==> r->0@ == self@.fields[idx as int].0,
    {
        if idx < self.fields.len() {
            Some(self.fields[idx].0.as_str())
        } else {
            None
        }
    }
}

impl Clone for Structure {
    /// Deep copy: a fully independent structure with the same name
    /// and the same fields.
    fn clone(&self) -> (r: Self)
        ensures
            r@.name == self@.name,
            r@.fields == self@.fields,
    {
        let mut fields: Vec<(String, Value)> = Vec::new();
        let n = self.fields.len();
        for i in 0..n
            invariant
                n == self.fields.len(),
                fields@.len() == i,
                forall|j: int| 0 <= j < i ==> entries_model(fields@)[j] == self@.fields[j],
        {
            fields.push((self.fields[i].0.clone(), self.fields[i].1.clone()));
        }
        let r = Structure { name: self.name.clone(), fields };
        proof {
            assert(r@.fields =~= self@.fields);
        }
        r
    }
}

impl PartialEq for Structure {
    /// Equality as the external equality primitive defines it: equal
    /// names, equal field counts, and every field of `self` present
    /// in `other` with an equal value (order-independent on
    /// structures with unique field names; see `lemma_eq_is_equiv`).
    fn eq(&self, other: &Structure) -> (r: bool) {
        if !str_eq(self.name.as_str(), other.name.as_str()) {
            return false;
        }
        let n = self.fields.len();
        if n != other.fields.len() {
            return false;
        }
        for i in 0..n
            invariant
                n == self.fields.len(),
                n == other.fields.len(),
                self@.name == other@.name,
                forall|j: int| 0 <= j < i ==> has_name(other@.fields, #[trigger] self@.fields[j].0)
                    && value_of(other@.fields, self@.fields[j].0) == self@.fields[j].1,
        {
            match other.get_value(self.fields[i].0.as_str()) {
                Some(v) => {
                    if !(self.fields[i].1 == *v) {
                        proof {
                            assert(value_of(other@.fields, self@.fields[i as int].0)
                                != self@.fields[i as int].1);
                            assert(!struct_eq_model(self@, other@));
                        }
                        return false;
                    }
                },
                None => {
                    proof {
                        assert(!has_name(other@.fields, self@.fields[i as int].0));
                        assert(!struct_eq_model(self@, other@));
                    }
                    return false;
                },
            }
        }
        true
    }
}

impl vstd::std_specs::cmp::PartialEqSpecImpl for Structure {
    open spec fn obeys_eq_spec() -> bool {
        true
    }

    open spec fn eq_spec(&self, other: &Structure) -> bool {
        struct_eq_model(self@, other@)
    }
}

impl Eq for Structure {}

/// Equality is reflexive on any structure with unique field names.
pub proof fn lemma_equality_reflexive(a: StructureModel)
    requires
        unique_names(a.fields),
    ensures
        struct_eq_model(a, a),
{
    lemma_eq_is_equiv(a, a);
}

/// Equality is symmetric on structures with unique field names.
pub proof fn lemma_equality_symmetric(a: StructureModel, b: StructureModel)
    requires
        unique_names(a.fields),
        unique_names(b.fields),
    ensures
        struct_eq_model(a, b) == struct_eq_model(b, a),
{
    lemma_eq_is_equiv(a, b);
    lemma_eq_is_equiv(b, a);
}

/// Equality is insensitive to field insertion order: building with
/// `n1 = v1` then `n2 = v2` equals building with `n2 = v2` then
/// `n1 = v1`, for distinct names.
pub proof fn lemma_equality_insertion_order(
    name: Seq<char>,
    n1: Seq<char>,
    v1: ValueModel,
    n2: Seq<char>,
    v2: ValueModel,
)
    requires
        n1 != n2,
    ensures
        ({
            let e = Seq::<FieldModel>::empty();
            let a = StructureModel { name, fields: set_field(set_field(e, n1, v1), n2, v2) };
            let b = StructureModel { name, fields: set_field(set_field(e, n2, v2), n1, v1) };
            struct_eq_model(a, b)
        }),
{
    let e = Seq::<FieldModel>::empty();
    let a = StructureModel { name, fields: set_field(set_field(e, n1, v1), n2, v2) };
    let b = StructureModel { name, fields: set_field(set_field(e, n2, v2), n1, v1) };
    lemma_set_field(e, n1, v1);
    lemma_set_field(set_field(e, n1, v1), n2, v2);
    lemma_set_field(e, n2, v2);
    lemma_set_field(set_field(e, n2, v2), n1, v1);
    assert(fields_map(a.fields) =~= fields_map(b.fields));
    lemma_eq_is_equiv(a, b);
}

} // verus!
