//! Mathematical model of a structure's field list.
//!
//! A field list is a sequence of (name, value) pairs whose names are
//! unique. The spec functions here define lookup, overwrite-or-append
//! (`set_field`), removal, and the order-independent map view used for
//! structural equality.

use vstd::prelude::*;

use crate::value::ValueModel;

verus! {

/// One field of a structure: a name paired with a value model.
pub type FieldModel = (Seq<char>, ValueModel);

/// An ordered field list.
pub type FieldsModel = Seq<FieldModel>;

/// Whether a field with the given name is present.
pub open spec fn has_name(fields: FieldsModel, name: Seq<char>) -> bool {
    exists|i: int| 0 <= i < fields.len() && fields[i].0 == name
}

/// Index of the first field with the given name, or the length of the
/// list when the name is absent.
pub open spec fn index_of(fields: FieldsModel, name: Seq<char>) -> int
    decreases fields.len(),
{
    if fields.len() == 0 {
        0
    } else if fields[0].0 == name {
        0
    } else {
        1 + index_of(fields.skip(1), name)
    }
}

/// The value stored under the given name (meaningful only when the
/// name is present).
pub open spec fn value_of(fields: FieldsModel, name: Seq<char>) -> ValueModel {
    fields[index_of(fields, name)].1
}

/// Overwrite-or-append: replace the value at the name's position when
/// the name is present, else append a new field at the end.
pub open spec fn set_field(
    fields: FieldsModel,
    name: Seq<char>,
    value: ValueModel,
) -> FieldsModel {
    if has_name(fields, name) {
        fields.update(index_of(fields, name), (name, value))
    } else {
        fields.push((name, value))
    }
}

/// Remove the field with the given name; no change when it is absent.
pub open spec fn remove_field_model(fields: FieldsModel, name: Seq<char>) -> FieldsModel {
    if has_name(fields, name) {
        fields.remove(index_of(fields, name))
    } else {
        fields
    }
}

/// Field names are unique within the list.
pub open spec fn unique_names(fields: FieldsModel) -> bool {
    forall|i: int, j: int|
        0 <= i < j < fields.len() ==> fields[i].0 != fields[j].0
}

/// The order-independent view of a field list: the finite map from
/// field names to their values.
pub open spec fn fields_map(fields: FieldsModel) -> Map<Seq<char>, ValueModel> {
    Map::new(|name: Seq<char>| has_name(fields, name), |name: Seq<char>| value_of(fields, name))
}

/// `index_of` finds the first occurrence of a present name and runs
/// off the end for an absent one.
pub proof fn lemma_index_of(fields: FieldsModel, name: Seq<char>)
    ensures
        has_name(fields, name) ==> {
            &&& 0 <= index_of(fields, name) < fields.len()
            &&& fields[index_of(fields, name)].0 == name
            &&& forall|j: int| 0 <= j < index_of(fields, name) ==> fields[j].0 != name
        },
        !has_name(fields, name) ==> index_of(fields, name) == fields.len(),
    decreases fields.len(),
{
    if fields.len() > 0 && fields[0].0 != name {
        let rest = fields.skip(1);
        lemma_index_of(rest, name);
        assert forall|i: int| 0 <= i < fields.len() && fields[i].0 == name implies
            has_name(rest, name) by {
            assert(rest[i - 1] == fields[i]);
        }
        assert forall|i: int| 0 <= i < rest.len() && rest[i].0 == name implies
            has_name(fields, name) by {
            assert(fields[i + 1] == rest[i]);
        }
        let k = index_of(rest, name);
        assert(index_of(fields, name) == 1 + k);
        if has_name(fields, name) {
            assert(fields[k + 1] == rest[k]);
            assert forall|j: int| 0 <= j < 1 + k && j >= 1 implies fields[j].0 != name by {
                assert(rest[j - 1] == fields[j]);
            }
        }
    }
}

/// Any first occurrence of a name is `index_of` that name.
pub proof fn lemma_index_of_unique(fields: FieldsModel, name: Seq<char>, i: int)
    requires
        0 <= i < fields.len(),
        fields[i].0 == name,
        forall|j: int| 0 <= j < i ==> fields[j].0 != name,
    ensures
        index_of(fields, name) == i,
{
    assert(has_name(fields, name));
    lemma_index_of(fields, name);
}

/// The names of the fields, in storage order.
pub open spec fn names_of(fields: FieldsModel) -> Seq<Seq<char>> {
    fields.map_values(|f: FieldModel| f.0)
}

/// With unique names, the map view has exactly one entry per field.
pub proof fn lemma_fields_map_len(fields: FieldsModel)
    requires
        unique_names(fields),
    ensures
        fields_map(fields).dom().finite(),
        fields_map(fields).dom().len() == fields.len(),
{
    broadcast use vstd::seq_lib::seq_to_set_is_finite;

    let names = names_of(fields);
    assert(names.no_duplicates());
    assert forall|n: Seq<char>| fields_map(fields).dom().contains(n) implies
        names.to_set().contains(n) by {
        let i = choose|i: int| 0 <= i < fields.len() && fields[i].0 == n;
        assert(names[i] == n);
    }
    assert forall|n: Seq<char>| names.to_set().contains(n) implies
        fields_map(fields).dom().contains(n) by {
        let i = choose|i: int| 0 <= i < names.len() && names[i] == n;
        assert(fields[i].0 == n);
    }
    assert(fields_map(fields).dom() =~= names.to_set());
    names.unique_seq_to_set();
}

/// Effect of `set_field` on uniqueness, length and the map view:
/// it inserts the binding into the map and keeps names unique.
pub proof fn lemma_set_field(fields: FieldsModel, name: Seq<char>, value: ValueModel)
    requires
        unique_names(fields),
    ensures
        unique_names(set_field(fields, name, value)),
        fields_map(set_field(fields, name, value)) =~= fields_map(fields).insert(name, value),
        has_name(fields, name) ==> set_field(fields, name, value).len() == fields.len(),
        !has_name(fields, name) ==> set_field(fields, name, value).len() == fields.len() + 1,
        names_of(set_field(fields, name, value)) ==
            if has_name(fields, name) { names_of(fields) } else { names_of(fields).push(name) },
{
    lemma_index_of(fields, name);
    let g = set_field(fields, name, value);
    if has_name(fields, name) {
        let idx = index_of(fields, name);
        assert(forall|i: int| 0 <= i < g.len() ==> g[i].0 == fields[i].0);
        assert(names_of(g) =~= names_of(fields));
        assert forall|m: Seq<char>| #[trigger] has_name(g, m) implies has_name(fields, m) by {
            let i = choose|i: int| 0 <= i < g.len() && g[i].0 == m;
            assert(fields[i].0 == m);
        }
        assert forall|m: Seq<char>| #[trigger] has_name(fields, m) implies has_name(g, m) by {
            let i = choose|i: int| 0 <= i < fields.len() && fields[i].0 == m;
            assert(g[i].0 == m);
        }
        assert forall|m: Seq<char>| #[trigger] has_name(g, m) implies
            value_of(g, m) == fields_map(fields).insert(name, value)[m] by {
            lemma_index_of(fields, m);
            let j = index_of(fields, m);
            assert(g[j].0 == m);
            lemma_index_of_unique(g, m, j);
            if m == name {
                assert(j == idx);
                assert(g[j].1 == value);
            } else {
                assert(j != idx);
                assert(g[j] == fields[j]);
            }
        }
        assert(fields_map(g) =~= fields_map(fields).insert(name, value));
    } else {
        assert(g == fields.push((name, value)));
        assert(names_of(g) =~= names_of(fields).push(name));
        assert forall|i: int, j: int| 0 <= i < j < g.len() implies g[i].0 != g[j].0 by {
            if j < g.len() - 1 {
                assert(g[i] == fields[i] && g[j] == fields[j]);
            } else {
                assert(g[j].0 == name);
                assert(fields[i].0 != name);
            }
        }
        assert forall|m: Seq<char>| #[trigger] has_name(g, m) implies
            has_name(fields, m) || m == name by {
            let i = choose|i: int| 0 <= i < g.len() && g[i].0 == m;
            if i < g.len() - 1 {
                assert(fields[i].0 == m);
            }
        }
        assert forall|m: Seq<char>| has_name(fields, m) implies #[trigger] has_name(g, m) by {
            let i = choose|i: int| 0 <= i < fields.len() && fields[i].0 == m;
            assert(g[i].0 == m);
        }
        assert(g[fields.len() as int].0 == name);
        assert(has_name(g, name));
        assert forall|m: Seq<char>| #[trigger] has_name(g, m) implies
            value_of(g, m) == fields_map(fields).insert(name, value)[m] by {
            if m == name {
                lemma_index_of_unique(g, name, fields.len() as int);
                assert(g[fields.len() as int].1 == value);
            } else {
                lemma_index_of(fields, m);
                let j = index_of(fields, m);
                assert(g[j].0 == m);
                assert(forall|k: int| 0 <= k < j ==> g[k].0 != m);
                lemma_index_of_unique(g, m, j);
                assert(g[j] == fields[j]);
            }
        }
        assert(fields_map(g) =~= fields_map(fields).insert(name, value));
    }
}

/// Effect of `remove_field_model`: the binding leaves the map view,
/// names stay unique, and the removed name is no longer present.
pub proof fn lemma_remove_field(fields: FieldsModel, name: Seq<char>)
    requires
        unique_names(fields),
    ensures
        unique_names(remove_field_model(fields, name)),
        !has_name(remove_field_model(fields, name), name),
        fields_map(remove_field_model(fields, name)) =~= fields_map(fields).remove(name),
        has_name(fields, name) ==>
            remove_field_model(fields, name).len() == fields.len() - 1,
        !has_name(fields, name) ==> remove_field_model(fields, name) == fields,
{
    lemma_index_of(fields, name);
    if has_name(fields, name) {
        let idx = index_of(fields, name);
        let g = fields.remove(idx);
        assert(forall|i: int| 0 <= i < idx ==> g[i] == fields[i]);
        assert(forall|i: int| idx <= i < g.len() ==> g[i] == fields[i + 1]);
        assert forall|i: int, j: int| 0 <= i < j < g.len() implies g[i].0 != g[j].0 by {
            let i0: int = if i < idx { i } else { i + 1 };
            let j0: int = if j < idx { j } else { j + 1 };
            assert(g[i] == fields[i0] && g[j] == fields[j0]);
        }
        assert forall|m: Seq<char>| #[trigger] has_name(g, m) implies
            has_name(fields, m) && m != name by {
            let i = choose|i: int| 0 <= i < g.len() && g[i].0 == m;
            let i0: int = if i < idx { i } else { i + 1 };
            assert(g[i] == fields[i0]);
            assert(fields[i0].0 == m);
            if m == name {
                assert(i0 != idx);
                assert(fields[i0].0 != fields[idx].0);
            }
        }
        assert forall|m: Seq<char>| has_name(fields, m) && m != name implies
            #[trigger] has_name(g, m) by {
            let i = choose|i: int| 0 <= i < fields.len() && fields[i].0 == m;
            assert(i != idx);
            let i0: int = if i < idx { i } else { i - 1 };
            assert(g[i0] == fields[i]);
        }
        assert forall|m: Seq<char>| #[trigger] has_name(g, m) implies
            value_of(g, m) == value_of(fields, m) by {
            lemma_index_of(fields, m);
            let j = index_of(fields, m);
            assert(fields[j].0 == m);
            assert(j != idx);
            let j0: int = if j < idx { j } else { j - 1 };
            assert(g[j0] == fields[j]);
            assert forall|k: int| 0 <= k < j0 implies g[k].0 != m by {
                let k0: int = if k < idx { k } else { k + 1 };
                assert(g[k] == fields[k0]);
                assert(k0 < j);
            }
            lemma_index_of_unique(g, m, j0);
        }
        assert(fields_map(g) =~= fields_map(fields).remove(name));
    } else {
        assert(fields_map(fields) =~= fields_map(fields).remove(name));
    }
}

/// Folding `set_field` over a list of entries, in order.
pub open spec fn set_fields(fields: FieldsModel, entries: FieldsModel) -> FieldsModel
    decreases entries.len(),
{
    if entries.len() == 0 {
        fields
    } else {
        set_fields(set_field(fields, entries[0].0, entries[0].1), entries.skip(1))
    }
}

/// Folding one more entry at the end.
pub proof fn lemma_set_fields_push(fields: FieldsModel, entries: FieldsModel, e: FieldModel)
    ensures
        set_fields(fields, entries.push(e)) == set_field(set_fields(fields, entries), e.0, e.1),
    decreases entries.len(),
{
    if entries.len() == 0 {
        assert(entries.push(e)[0] == e);
        assert(entries.push(e).skip(1) =~= Seq::<FieldModel>::empty());
        let f1 = set_field(fields, e.0, e.1);
        assert(set_fields(f1, Seq::<FieldModel>::empty()) == f1);
        assert(set_fields(fields, entries.push(e)) == f1);
    } else {
        let e0 = entries[0];
        let f1 = set_field(fields, e0.0, e0.1);
        assert(entries.push(e)[0] == e0);
        assert(entries.push(e).skip(1) =~= entries.skip(1).push(e));
        lemma_set_fields_push(f1, entries.skip(1), e);
        assert(set_fields(fields, entries.push(e)) == set_fields(f1, entries.skip(1).push(e)));
        assert(set_fields(fields, entries) == set_fields(f1, entries.skip(1)));
    }
}

/// Removing a field twice has the same effect as removing it once:
/// the first removal already leaves the name absent.
pub proof fn lemma_remove_field_idempotent(fields: FieldsModel, name: Seq<char>)
    requires
        unique_names(fields),
    ensures
        remove_field_model(remove_field_model(fields, name), name) == remove_field_model(
            fields,
            name,
        ),
{
    lemma_remove_field(fields, name);
}

/// When the appended entries have fresh, pairwise distinct names,
/// `set_fields` is plain concatenation: each entry is appended as
/// given, in order.
pub proof fn lemma_set_fields_unique(fields: FieldsModel, entries: FieldsModel)
    requires
        unique_names(fields + entries),
    ensures
        set_fields(fields, entries) == fields + entries,
    decreases entries.len(),
{
    if entries.len() == 0 {
        assert(fields + entries =~= fields);
    } else {
        let e0 = entries[0];
        assert((fields + entries)[fields.len() as int] == e0);
        assert forall|i: int| 0 <= i < fields.len() implies fields[i].0 != e0.0 by {
            assert((fields + entries)[i] == fields[i]);
        }
        assert(!has_name(fields, e0.0));
        assert(set_field(fields, e0.0, e0.1) == fields.push(e0));
        assert(fields.push(e0) + entries.skip(1) =~= fields + entries);
        lemma_set_fields_unique(fields.push(e0), entries.skip(1));
        assert(set_fields(fields, entries) == set_fields(fields.push(e0), entries.skip(1)));
    }
}

/// Building from entries with pairwise distinct names yields exactly
/// those fields, in the given order (so the field count equals the
/// entry count and iteration yields the names as given).
pub proof fn lemma_build_unique(entries: FieldsModel)
    requires
        unique_names(entries),
    ensures
        set_fields(Seq::<FieldModel>::empty(), entries) == entries,
{
    assert(Seq::<FieldModel>::empty() + entries =~= entries);
    lemma_set_fields_unique(Seq::<FieldModel>::empty(), entries);
}

/// Two field lists with unique names and the same bindings have the
/// same map view.
pub proof fn lemma_fields_map_equal(a: FieldsModel, b: FieldsModel)
    requires
        unique_names(a),
        unique_names(b),
        a.len() == b.len(),
        forall|i: int| 0 <= i < a.len() ==>
            has_name(b, #[trigger] a[i].0) && value_of(b, a[i].0) == a[i].1,
    ensures
        fields_map(a) =~= fields_map(b),
{
    lemma_fields_map_len(a);
    lemma_fields_map_len(b);
    assert forall|n: Seq<char>| fields_map(a).dom().contains(n) implies
        fields_map(b).dom().contains(n) by {
        lemma_index_of(a, n);
        let i = index_of(a, n);
        assert(a[i].0 == n);
    }
    vstd::set_lib::lemma_subset_equality(fields_map(a).dom(), fields_map(b).dom());
    assert forall|n: Seq<char>| #[trigger] has_name(a, n) implies
        value_of(a, n) == value_of(b, n) by {
        lemma_index_of(a, n);
        let i = index_of(a, n);
        assert(a[i].0 == n);
        assert(value_of(a, n) == a[i].1);
    }
    assert forall|n: Seq<char>| #[trigger] has_name(a, n) implies has_name(b, n) by {
        assert(fields_map(a).dom().contains(n));
        assert(fields_map(b).dom().contains(n));
    }
    assert forall|n: Seq<char>| #[trigger] has_name(b, n) implies has_name(a, n) by {
        assert(fields_map(b).dom().contains(n));
        assert(fields_map(a).dom().contains(n));
    }
}

} // verus!
