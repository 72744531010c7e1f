//! Bidirectional iteration over a structure's fields.
//!
//! [`FieldIterator`] walks the field names between two cursors: `next`
//! yields the name at the low cursor and advances it, `next_back`
//! retreats the high cursor and yields the name now at it; the
//! iterator is exhausted when the cursors meet, and the remaining
//! count is exact at every point. [`Iter`] wraps it and pairs each
//! name with a fresh value lookup.

use vstd::prelude::*;

use crate::fields::{lemma_index_of_unique, unique_names, FieldsModel};
use crate::owned::OwnedStructure;
use crate::structure::Structure;
use crate::value::Value;

verus! {

/// Model of a field iterator: the fields it walks and the two
/// cursors, `low` the next forward index and `high` one past the next
/// backward index.
pub struct FieldIteratorModel {
    pub fields: FieldsModel,
    pub low: int,
    pub high: int,
}

/// Iterator over the field names of a borrowed structure, in storage
/// order, from both ends.
pub struct FieldIterator<'a> {
    structure: &'a Structure,
    idx: usize,
    n_fields: usize,
}

impl<'a> View for FieldIterator<'a> {
    type V = FieldIteratorModel;

    closed spec fn view(&self) -> FieldIteratorModel {
        FieldIteratorModel {
            fields: self.structure@.fields,
            low: self.idx as int,
            high: self.n_fields as int,
        }
    }
}

impl<'a> FieldIterator<'a> {
    /// Cursors bounded by the fields they walk.
    pub open spec fn wf(&self) -> bool {
        0 <= self@.low <= self@.high <= self@.fields.len()
    }

    /// A fresh iterator over all fields of the structure.
    pub fn new(structure: &'a Structure) -> (it: FieldIterator<'a>)
        ensures
            it.wf(),
            it@.fields == structure@.fields,
            it@.low == 0,
            it@.high == structure@.fields.len(),
    {
        let n_fields = structure.n_fields();
        FieldIterator { structure, idx: 0, n_fields }
    }

    /// The field name at the low cursor, advancing it; `None` once
    /// the cursors have met.
    pub fn next(&mut self) -> (r: Option<&'a str>)
        requires
            old(self).wf(),
        ensures
            final(self).wf(),
            final(self)@.fields == old(self)@.fields,
            final(self)@.high == old(self)@.high,
            old(self)@.low < old(self)@.high ==> {
                &&& r is Some
                &&& r->0@ == old(self)@.fields[old(self)@.low].0
                &&& final(self)@.low == old(self)@.low + 1
            },
            old(self)@.low >= old(self)@.high ==> r is None && final(self)@.low == old(
                self,
            )@.low,
    {
        if self.idx >= self.n_fields {
            return None;
        }
        if let Some(field_name) = self.structure.get_nth_field_name(self.idx) {
            self.idx += 1;
            Some(field_name)
        } else {
            None
        }
    }

    /// The exact number of fields not yet yielded, as lower and upper
    /// bound.
    pub fn size_hint(&self) -> (r: (usize, Option<usize>))
        requires
            self.wf(),
        ensures
            r.0 == self@.high - self@.low,
            r.1 == Some(r.0),
    {
        if self.idx == self.n_fields {
            return (0, Some(0));
        }
        let remaining = self.n_fields - self.idx;
        (remaining, Some(remaining))
    }

    /// The field name just below the high cursor, retreating it;
    /// `None` once the cursors have met.
    pub fn next_back(&mut self) -> (r: Option<&'a str>)
        requires
            old(self).wf(),
        ensures
            final(self).wf(),
            final(self)@.fields == old(self)@.fields,
            final(self)@.low == old(self)@.low,
            old(self)@.low < old(self)@.high ==> {
                &&& r is Some
                &&& r->0@ == old(self)@.fields[old(self)@.high - 1].0
                &&& final(self)@.high == old(self)@.high - 1
            },
            old(self)@.low >= old(self)@.high ==> r is None && final(self)@.high == old(
                self,
            )@.high,
    {
        if self.idx == self.n_fields {
            return None;
        }
        self.n_fields -= 1;
        if let Some(field_name) = self.structure.get_nth_field_name(self.n_fields) {
            Some(field_name)
        } else {
            None
        }
    }
}

/// Iterator over (name, value) pairs, wrapping a [`FieldIterator`]
/// and performing a fresh value lookup for each name yielded.
pub struct Iter<'a> {
    iter: FieldIterator<'a>,
}

impl<'a> View for Iter<'a> {
    type V = FieldIteratorModel;

    closed spec fn view(&self) -> FieldIteratorModel {
        self.iter@
    }
}

impl<'a> Iter<'a> {
    /// Cursors in bounds, over fields with unique names (so that each
    /// lookup finds the field the name came from).
    pub open spec fn wf(&self) -> bool {
        0 <= self@.low <= self@.high <= self@.fields.len() && unique_names(self@.fields)
    }

    /// A fresh entry iterator over all fields of the structure.
    pub fn new(structure: &'a Structure) -> (it: Iter<'a>)
        requires
            structure.wf(),
        ensures
            it.wf(),
            it@.fields == structure@.fields,
            it@.low == 0,
            it@.high == structure@.fields.len(),
    {
        Iter { iter: FieldIterator::new(structure) }
    }

    /// The (name, value) pair at the low cursor, advancing it.
    pub fn next(&mut self) -> (r: Option<(&'a str, &'a Value)>)
        requires
            old(self).wf(),
        ensures
            final(self).wf(),
            final(self)@.fields == old(self)@.fields,
            final(self)@.high == old(self)@.high,
            old(self)@.low < old(self)@.high ==> {
                &&& r matches Some(p) && p.0@ == old(self)@.fields[old(self)@.low].0 && p.1@
                    == old(self)@.fields[old(self)@.low].1
                &&& final(self)@.low == old(self)@.low + 1
            },
            old(self)@.low >= old(self)@.high ==> r is None && final(self)@.low == old(
                self,
            )@.low,
    {
        let ghost m = self.iter@;
        if let Some(f) = self.iter.next() {
            proof {
                lemma_index_of_unique(m.fields, m.fields[m.low].0, m.low);
            }
            let v = self.iter.structure.get_value(f);
            match v {
                Some(v) => Some((f, v)),
                None => None,
            }
        } else {
            None
        }
    }

    /// The exact number of entries not yet yielded.
    pub fn size_hint(&self) -> (r: (usize, Option<usize>))
        requires
            self.wf(),
        ensures
            r.0 == self@.high - self@.low,
            r.1 == Some(r.0),
    {
        self.iter.size_hint()
    }

    /// The (name, value) pair just below the high cursor, retreating
    /// it.
    pub fn next_back(&mut self) -> (r: Option<(&'a str, &'a Value)>)
        requires
            old(self).wf(),
        ensures
            final(self).wf(),
            final(self)@.fields == old(self)@.fields,
            final(self)@.low == old(self)@.low,
            old(self)@.low < old(self)@.high ==> {
                &&& r matches Some(p) && p.0@ == old(self)@.fields[old(self)@.high - 1].0 && p.1@
                    == old(self)@.fields[old(self)@.high - 1].1
                &&& final(self)@.high == old(self)@.high - 1
            },
            old(self)@.low >= old(self)@.high ==> r is None && final(self)@.high == old(
                self,
            )@.high,
    {
        let ghost m = self.iter@;
        if let Some(f) = self.iter.next_back() {
            proof {
                lemma_index_of_unique(m.fields, m.fields[m.high - 1].0, m.high - 1);
            }
            let v = self.iter.structure.get_value(f);
            match v {
                Some(v) => Some((f, v)),
                None => None,
            }
        } else {
            None
        }
    }
}

/// Forward-collecting a field iterator yields exactly the field
/// names, in storage order.
pub fn collect_forward(s: &Structure) -> (r: Vec<String>)
    ensures
        r@.len() == s@.fields.len(),
        forall|i: int| 0 <= i < r@.len() ==> r@[i]@ == s@.fields[i].0,
{
    let n = s.n_fields();
    let mut it = s.fields();
    let mut out: Vec<String> = Vec::new();
    for i in 0..n
        invariant
            n == s@.fields.len(),
            it.wf(),
            it@.fields == s@.fields,
            it@.high == n,
            it@.low == i,
            out@.len() == i,
            forall|j: int| 0 <= j < i ==> out@[j]@ == s@.fields[j].0,
    {
        match it.next() {
            Some(name) => {
                out.push(String::from_str(name));
            },
            None => {},
        }
    }
    out
}

/// Backward-collecting a field iterator yields exactly the field
/// names, in reverse storage order.
pub fn collect_backward(s: &Structure) -> (r: Vec<String>)
    ensures
        r@.len() == s@.fields.len(),
        forall|i: int| 0 <= i < r@.len() ==> r@[i]@ == s@.fields[r@.len() - 1 - i].0,
{
    let n = s.n_fields();
    let mut it = s.fields();
    let mut out: Vec<String> = Vec::new();
    for i in 0..n
        invariant
            n == s@.fields.len(),
            it.wf(),
            it@.fields == s@.fields,
            it@.low == 0,
            it@.high == n - i,
            out@.len() == i,
            forall|j: int| 0 <= j < i ==> out@[j]@ == s@.fields[n - 1 - j].0,
    {
        match it.next_back() {
            Some(name) => {
                out.push(String::from_str(name));
            },
            None => {},
        }
    }
    out
}

impl Structure {
    /// Iterate over the field names, in storage order.
    pub fn fields<'a>(&'a self) -> (it: FieldIterator<'a>)
        ensures
            it.wf(),
            it@.fields == self@.fields,
            it@.low == 0,
            it@.high == self@.fields.len(),
    {
        FieldIterator::new(self)
    }

    /// Iterate over (name, value) pairs, in storage order.
    pub fn iter<'a>(&'a self) -> (it: Iter<'a>)
        requires
            self.wf(),
        ensures
            it.wf(),
            it@.fields == self@.fields,
            it@.low == 0,
            it@.high == self@.fields.len(),
    {
        Iter::new(self)
    }
}

impl OwnedStructure {
    /// Iterate over the field names, in storage order.
    pub fn fields<'a>(&'a self) -> (it: FieldIterator<'a>)
        ensures
            it.wf(),
            it@.fields == self@.fields,
            it@.low == 0,
            it@.high == self@.fields.len(),
    {
        self.as_ref().fields()
    }

    /// Iterate over (name, value) pairs, in storage order.
    pub fn iter<'a>(&'a self) -> (it: Iter<'a>)
        requires
            self.wf(),
        ensures
            it.wf(),
            it@.fields == self@.fields,
            it@.low == 0,
            it@.high == self@.fields.len(),
    {
        self.as_ref().iter()
    }
}

} // verus!
