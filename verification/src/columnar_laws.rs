//! What comes back when an archetype snapshot is flattened into a columnar
//! table and gathered by component type again.

use crate::archetype_archive::ArchetypeModel;
use crate::csv_archive::{
    cell_fields, column_fields, field_header, field_suffix, flat_cell, header_component,
    header_field, lemma_column_fields_flat, lemma_flat_columns_len, lemma_flat_columns_rows,
    lemma_flat_headers_prefix, lemma_merge_new_distinct, merge_new,
};
use crate::dyn_value::DynModel;
use crate::text::{first_index, is_first_index, lemma_first_index};
use vstd::prelude::*;

verus! {

/// The names of the fields of an object, in their order.
pub open spec fn keys_of(fields: Seq<(Seq<char>, DynModel)>) -> Seq<Seq<char>> {
    Seq::new(fields.len(), |i: int| fields[i].0)
}

/// Whether a cell is an object whose fields are named `keys`, in that order.
pub open spec fn cell_has_keys(cell: DynModel, keys: Seq<Seq<char>>) -> bool {
    match cell {
        DynModel::Object(fields) => keys_of(fields) == keys,
        _ => false,
    }
}

/// Whether a column has a row and is of one kind: none of its cells is an
/// object, or all of them are objects with the same fields in the same
/// order, at least one, and none twice.
pub open spec fn is_regular_column(cells: Seq<DynModel>) -> bool {
    cells.len() > 0 && match cells[0] {
        DynModel::Object(fields) => {
            &&& fields.len() > 0
            &&& keys_of(fields).no_duplicates()
            &&& forall|r: int|
                0 <= r < cells.len() ==> cell_has_keys(#[trigger] cells[r], keys_of(fields))
        },
        _ => forall|r: int| 0 <= r < cells.len() ==> !(#[trigger] cells[r] is Object),
    }
}

/// Whether a snapshot is one that a columnar table gives back: it has a row,
/// its columns are aligned and each of one kind, and its component types
/// differ from each other and have no dot in their names.
pub open spec fn is_regular(s: ArchetypeModel) -> bool {
    &&& s.columns_aligned()
    &&& s.entities.len() > 0
    &&& forall|c: int| 0 <= c < s.columns.len() ==> is_regular_column(#[trigger] s.columns[c])
    &&& s.component_types.no_duplicates()
    &&& forall|c: int|
        0 <= c < s.component_types.len() ==> !(#[trigger] s.component_types[c]).contains('.')
}

/// The component type of each of some headers.
pub open spec fn components_of(headers: Seq<Seq<char>>) -> Seq<Seq<char>> {
    Seq::new(headers.len(), |i: int| header_component(headers[i]))
}

/// The indices from `start` on, `count` of them.
pub open spec fn index_run(start: int, count: int) -> Seq<int> {
    Seq::new(count as nat, |k: int| start + k)
}

/// The group of columns that the header `i` belongs to, among the first `n`
/// component types.
pub open spec fn group_of(s: ArchetypeModel, i: int, n: int) -> int
    decreases n,
{
    if n <= 1 {
        0
    } else if i >= s.flat_headers(true, n - 1).len() {
        n - 1
    } else {
        group_of(s, i, n - 1)
    }
}

/// Names that a list holds already add nothing to it.
proof fn lemma_merge_known(acc: Seq<Seq<char>>, names: Seq<Seq<char>>)
    requires
        forall|i: int| 0 <= i < names.len() ==> acc.contains(#[trigger] names[i]),
    ensures
        merge_new(acc, names) == acc,
    decreases names.len(),
{
    if names.len() > 0 {
        assert forall|i: int| 0 <= i < names.drop_last().len() implies acc.contains(
            #[trigger] names.drop_last()[i],
        ) by {
            assert(names.drop_last()[i] == names[i]);
        }
        lemma_merge_known(acc, names.drop_last());
        assert(acc.contains(names[names.len() - 1]));
    }
}

/// Merging two lists of names in turn is merging the one behind the other.
proof fn lemma_merge_concat(acc: Seq<Seq<char>>, a: Seq<Seq<char>>, b: Seq<Seq<char>>)
    ensures
        merge_new(acc, a + b) == merge_new(merge_new(acc, a), b),
    decreases b.len(),
{
    if b.len() == 0 {
        assert(a + b =~= a);
    } else {
        assert((a + b).drop_last() =~= a + b.drop_last());
        assert((a + b).last() == b.last());
        lemma_merge_concat(acc, a, b.drop_last());
    }
}

/// One new name, however often it is given, is added once.
proof fn lemma_merge_repeat(acc: Seq<Seq<char>>, name: Seq<char>, names: Seq<Seq<char>>)
    requires
        names.len() > 0,
        forall|i: int| 0 <= i < names.len() ==> #[trigger] names[i] == name,
        !acc.contains(name),
    ensures
        merge_new(acc, names) == acc.push(name),
    decreases names.len(),
{
    assert(names.last() == name);
    if names.len() == 1 {
        assert(names.drop_last() =~= Seq::<Seq<char>>::empty());
        assert(merge_new(acc, names.drop_last()) == acc);
    } else {
        assert forall|i: int| 0 <= i < names.drop_last().len() implies #[trigger] names.drop_last()[i]
            == name by {
            assert(names.drop_last()[i] == names[i]);
        }
        lemma_merge_repeat(acc, name, names.drop_last());
        assert(acc.push(name)[acc.len() as int] == name);
        assert(acc.push(name).contains(name));
    }
}

/// Fields of different names get different headers.
proof fn lemma_field_headers_distinct(component: Seq<char>, fields: Seq<(Seq<char>, DynModel)>)
    requires
        keys_of(fields).no_duplicates(),
    ensures
        cell_fields(component, DynModel::Object(fields)).no_duplicates(),
{
    let h = cell_fields(component, DynModel::Object(fields));
    assert forall|i: int, j: int| 0 <= i < h.len() && 0 <= j < h.len() && i != j implies h[i]
        != h[j] by {
        if h[i] == h[j] {
            let n = component.len() as int + 1;
            assert(field_header(component, fields[i].0).skip(n) =~= fields[i].0);
            assert(field_header(component, fields[j].0).skip(n) =~= fields[j].0);
            assert(keys_of(fields)[i] == keys_of(fields)[j]);
        }
    }
}

/// A column of one kind takes the headers that its first cell asks for.
proof fn lemma_column_fields_regular(component: Seq<char>, cells: Seq<DynModel>)
    requires
        is_regular_column(cells),
    ensures
        column_fields(component, cells) == cell_fields(component, cells[0]),
    decreases cells.len(),
{
    match cells[0] {
        DynModel::Object(fields) => {
            let h = cell_fields(component, cells[0]);
            let last = cells[cells.len() - 1];
            assert(cell_has_keys(last, keys_of(fields)));
            assert(cell_fields(component, last) =~= h) by {
                let other = last->Object_0;
                assert(keys_of(other).len() == other.len());
                assert(keys_of(fields).len() == fields.len());
                assert forall|k: int| 0 <= k < h.len() implies cell_fields(component, last)[k]
                    == h[k] by {
                    assert(keys_of(other)[k] == keys_of(fields)[k]);
                }
            }
            lemma_field_headers_distinct(component, fields);
            assert(cells.last() == last);
            if cells.len() == 1 {
                assert(cells.drop_last() =~= Seq::<DynModel>::empty());
                assert(column_fields(component, cells.drop_last()) == Seq::<Seq<char>>::empty());
                lemma_merge_new_distinct(h, h.len() as int);
                assert(h.take(h.len() as int) =~= h);
                assert(merge_new(Seq::empty(), h) == h);
            } else {
                let rest = cells.drop_last();
                assert(rest[0] == cells[0]);
                assert forall|r: int| 0 <= r < rest.len() implies cell_has_keys(
                    #[trigger] rest[r],
                    keys_of(fields),
                ) by {
                    assert(rest[r] == cells[r]);
                }
                lemma_column_fields_regular(component, rest);
                assert(column_fields(component, rest) == h);
                assert forall|i: int| 0 <= i < h.len() implies h.contains(#[trigger] h[i]) by {}
                lemma_merge_known(h, h);
                assert(merge_new(h, h) == h);
            }
        },
        _ => {
            lemma_column_fields_flat(component, cells);
            assert(cell_fields(component, cells[0]) =~= seq![component]);
        },
    }
}

/// An object whose fields differ in name has each field under its name.
proof fn lemma_lookup_distinct(fields: Seq<(Seq<char>, DynModel)>, f: int)
    requires
        keys_of(fields).no_duplicates(),
        0 <= f < fields.len(),
    ensures
        DynModel::lookup(fields, fields[f].0) == Some(fields[f].1),
    decreases f,
{
    if f > 0 {
        assert(keys_of(fields)[0] != keys_of(fields)[f]);
        let rest = fields.skip(1);
        assert forall|i: int, j: int|
            0 <= i < keys_of(rest).len() && 0 <= j < keys_of(rest).len() && i != j implies keys_of(
            rest,
        )[i] != keys_of(rest)[j] by {
            assert(keys_of(rest)[i] == keys_of(fields)[i + 1]);
            assert(keys_of(rest)[j] == keys_of(fields)[j + 1]);
        }
        assert(rest[f - 1] == fields[f]);
        lemma_lookup_distinct(rest, f - 1);
    }
}

/// The header of a field tells its component type and its name again.
proof fn lemma_header_parts(component: Seq<char>, key: Seq<char>)
    requires
        !component.contains('.'),
    ensures
        header_component(field_header(component, key)) == component,
        header_field(field_header(component, key)) == Some(key),
        field_suffix(component, field_header(component, key)) == key,
{
    let h = field_header(component, key);
    let n = component.len() as int;
    assert(h[n] == '.');
    assert forall|j: int| 0 <= j < n implies h[j] != '.' by {
        assert(h[j] == component[j]);
        if component[j] == '.' {
            assert(component.contains('.'));
        }
    }
    assert(is_first_index(h, '.', n));
    lemma_first_index(h, '.', n);
    assert(h.take(n) =~= component);
    assert(h.skip(n + 1) =~= key);
    let prefix = component + seq!['.'];
    assert(h.subrange(0, prefix.len() as int) =~= prefix);
    assert(h.skip(prefix.len() as int) =~= key);
}

/// The headers of a group of columns: each belongs to the component type of
/// the group; the one header of a column without objects is the name of the
/// type, and the headers of a column of objects name the fields.
proof fn lemma_group_header(s: ArchetypeModel, c: int, k: int)
    requires
        is_regular(s),
        0 <= c < s.component_types.len(),
        0 <= k < s.schema_fields(true, c).len(),
    ensures
        s.schema_fields(true, c) == cell_fields(s.component_types[c], s.columns[c][0]),
        s.schema_fields(true, c).no_duplicates(),
        header_component(s.schema_fields(true, c)[k]) == s.component_types[c],
        match s.columns[c][0] {
            DynModel::Object(fields) => s.schema_fields(true, c).len() == fields.len()
                && header_field(s.schema_fields(true, c)[k]) == Some(fields[k].0) && field_suffix(
                s.component_types[c],
                s.schema_fields(true, c)[k],
            ) == fields[k].0,
            _ => s.schema_fields(true, c).len() == 1 && header_field(s.schema_fields(true, c)[k])
                is None,
        },
{
    let t = s.component_types[c];
    assert(is_regular_column(s.columns[c]));
    assert(!t.contains('.'));
    lemma_column_fields_regular(t, s.columns[c]);
    match s.columns[c][0] {
        DynModel::Object(fields) => {
            lemma_field_headers_distinct(t, fields);
            lemma_header_parts(t, fields[k].0);
        },
        _ => {
            assert(s.schema_fields(true, c) =~= seq![t]);
            assert(first_index(t, '.') is None);
        },
    }
}

/// The flattened columns of fewer columns stand first in those of more.
proof fn lemma_flat_columns_prefix(s: ArchetypeModel, c: int, n: int)
    requires
        0 <= c <= n,
    ensures
        s.flat_columns(true, c).len() <= s.flat_columns(true, n).len(),
        s.flat_columns(true, n).take(s.flat_columns(true, c).len() as int) == s.flat_columns(
            true,
            c,
        ),
    decreases n - c,
{
    if c == n {
        assert(s.flat_columns(true, n).take(s.flat_columns(true, n).len() as int)
            =~= s.flat_columns(true, n));
    } else {
        lemma_flat_columns_prefix(s, c, n - 1);
        let shorter = s.flat_columns(true, n - 1);
        let longer = s.flat_columns(true, n);
        assert(longer == shorter + s.flat_group(true, n - 1));
        assert(longer.take(s.flat_columns(true, c).len() as int) =~= shorter.take(
            s.flat_columns(true, c).len() as int,
        ));
    }
}

/// Where the headers and the columns of a group stand in the table.
proof fn lemma_group_in_table(s: ArchetypeModel, c: int, k: int)
    requires
        0 <= c < s.component_types.len(),
        0 <= k < s.schema_fields(true, c).len(),
    ensures
        s.flat_headers(true, c).len() + k < s.to_columnar(true).headers.len(),
        s.to_columnar(true).columns.len() == s.to_columnar(true).headers.len(),
        s.to_columnar(true).headers[s.flat_headers(true, c).len() + k] == s.schema_fields(
            true,
            c,
        )[k],
        s.to_columnar(true).columns[s.flat_headers(true, c).len() + k] == s.flat_group(true, c)[k],
{
    let n = s.component_types.len() as int;
    let at = s.flat_headers(true, c).len() + k;
    lemma_flat_headers_prefix(s, true, c + 1, n);
    lemma_flat_columns_prefix(s, c + 1, n);
    lemma_flat_columns_len(s, true, c);
    lemma_flat_columns_len(s, true, c + 1);
    lemma_flat_columns_len(s, true, n);
    let heads = s.flat_headers(true, c + 1);
    let cols = s.flat_columns(true, c + 1);
    assert(heads == s.flat_headers(true, c) + s.schema_fields(true, c));
    assert(cols == s.flat_columns(true, c) + s.flat_group(true, c));
    assert(heads[at] == s.schema_fields(true, c)[k]);
    assert(cols[at] == s.flat_group(true, c)[k]);
    assert(s.flat_headers(true, n).take(heads.len() as int)[at] == s.flat_headers(true, n)[at]);
    assert(s.flat_columns(true, n).take(cols.len() as int)[at] == s.flat_columns(true, n)[at]);
}

/// Every header of the table belongs to a group of columns.
proof fn lemma_group_of(s: ArchetypeModel, i: int, n: int)
    requires
        1 <= n,
        0 <= i < s.flat_headers(true, n).len(),
    ensures
        0 <= group_of(s, i, n) < n,
        s.flat_headers(true, group_of(s, i, n)).len() <= i < s.flat_headers(
            true,
            group_of(s, i, n) + 1,
        ).len(),
    decreases n,
{
    if n <= 1 {
        assert(s.flat_headers(true, 0).len() == 0);
    } else if i >= s.flat_headers(true, n - 1).len() {
    } else {
        lemma_group_of(s, i, n - 1);
    }
}

/// The component types of the table are those of the snapshot, in their
/// order.
proof fn lemma_group_names(s: ArchetypeModel, n: int)
    requires
        is_regular(s),
        0 <= n <= s.component_types.len(),
    ensures
        merge_new(Seq::empty(), components_of(s.flat_headers(true, n))) == s.component_types.take(
            n,
        ),
    decreases n,
{
    if n == 0 {
        assert(components_of(s.flat_headers(true, 0)) =~= Seq::<Seq<char>>::empty());
        assert(s.component_types.take(0) =~= Seq::<Seq<char>>::empty());
    } else {
        lemma_group_names(s, n - 1);
        let t = s.component_types[n - 1];
        let before = s.flat_headers(true, n - 1);
        let group = s.schema_fields(true, n - 1);
        assert(components_of(s.flat_headers(true, n)) =~= components_of(before) + components_of(
            group,
        ));
        lemma_merge_concat(Seq::empty(), components_of(before), components_of(group));
        assert(is_regular_column(s.columns[n - 1]));
        lemma_column_fields_regular(t, s.columns[n - 1]);
        assert(group.len() > 0);
        assert forall|i: int| 0 <= i < components_of(group).len() implies #[trigger] components_of(
            group,
        )[i] == t by {
            lemma_group_header(s, n - 1, i);
        }
        let earlier = s.component_types.take(n - 1);
        if earlier.contains(t) {
            let i = choose|i: int| 0 <= i < earlier.len() && earlier[i] == t;
            assert(s.component_types[i] == s.component_types[n - 1]);
        }
        lemma_merge_repeat(earlier, t, components_of(group));
        assert(earlier.push(t) =~= s.component_types.take(n));
    }
}

/// The columns of a component type are those of its group, in their order.
proof fn lemma_members_regular(s: ArchetypeModel, c: int, n: int, k: int)
    requires
        is_regular(s),
        0 <= c < s.component_types.len(),
        1 <= n <= s.component_types.len(),
        0 <= k <= s.schema_fields(true, n - 1).len(),
    ensures
        s.to_columnar(true).members(
            s.component_types[c],
            s.flat_headers(true, n - 1).len() + k,
        ) == if n - 1 < c {
            Seq::<int>::empty()
        } else if n - 1 == c {
            index_run(s.flat_headers(true, c).len() as int, k)
        } else {
            index_run(
                s.flat_headers(true, c).len() as int,
                s.schema_fields(true, c).len() as int,
            )
        },
    decreases n, k,
{
    let m = s.to_columnar(true);
    let t = s.component_types[c];
    let start = s.flat_headers(true, c).len() as int;
    if k == 0 {
        if n == 1 {
            assert(s.flat_headers(true, 0).len() == 0);
            assert(index_run(start, 0) =~= Seq::<int>::empty());
        } else {
            lemma_members_regular(s, c, n - 1, s.schema_fields(true, n - 2).len() as int);
            assert(s.flat_headers(true, n - 1) == s.flat_headers(true, n - 2) + s.schema_fields(
                true,
                n - 2,
            ));
            assert(index_run(start, 0) =~= Seq::<int>::empty());
        }
    } else {
        lemma_members_regular(s, c, n, k - 1);
        let at = s.flat_headers(true, n - 1).len() + k - 1;
        lemma_group_in_table(s, n - 1, k - 1);
        lemma_group_header(s, n - 1, k - 1);
        assert(header_component(m.headers[at]) == s.component_types[n - 1]);
        if n - 1 == c {
            assert(index_run(start, k - 1).push(at) =~= index_run(start, k));
        } else {
            assert(s.component_types[n - 1] != t);
        }
    }
}

/// A snapshot comes back from its columnar table with every cell, if it has
/// a row, each of its columns holds either no object or objects with the
/// same fields in the same order, and its component types differ from each
/// other and have no dot in their names.
pub proof fn lemma_regular_round_trip(s: ArchetypeModel)
    requires
        is_regular(s),
    ensures
        s.to_columnar(true).wf(),
        s.to_columnar(true).groups_uniform(),
        s.to_columnar(true).to_archetype().component_types == s.component_types,
        s.to_columnar(true).to_archetype().columns == s.columns,
        s.to_columnar(true).to_archetype().entities == s.entities,
{
    let n = s.component_types.len() as int;
    let m = s.to_columnar(true);
    lemma_flat_columns_len(s, true, n);
    lemma_flat_columns_rows(s, true, n);
    assert forall|i: int, j: int|
        0 <= i < m.headers.len() && 0 <= j < m.headers.len() && i != j implies m.headers[i]
        != m.headers[j] && (header_component(m.headers[i]) == header_component(m.headers[j])
        ==> header_field(m.headers[i]) is Some && header_field(m.headers[j]) is Some) by {
        lemma_group_of(s, i, n);
        lemma_group_of(s, j, n);
        let gi = group_of(s, i, n);
        let gj = group_of(s, j, n);
        let ki = i - s.flat_headers(true, gi).len();
        let kj = j - s.flat_headers(true, gj).len();
        assert(s.flat_headers(true, gi + 1) == s.flat_headers(true, gi) + s.schema_fields(
            true,
            gi,
        ));
        assert(s.flat_headers(true, gj + 1) == s.flat_headers(true, gj) + s.schema_fields(
            true,
            gj,
        ));
        lemma_group_in_table(s, gi, ki);
        lemma_group_in_table(s, gj, kj);
        lemma_group_header(s, gi, ki);
        lemma_group_header(s, gj, kj);
        if gi == gj {
            assert(ki != kj);
        }
    }
    assert(m.wf());
    assert(m.groups_uniform());
    lemma_group_names(s, n);
    assert(m.components() =~= components_of(m.headers));
    assert(s.component_types.take(n) =~= s.component_types);
    assert(m.group_names() == s.component_types);
    let back = m.to_archetype();
    assert forall|g: int| 0 <= g < n implies #[trigger] back.columns[g] == s.columns[g] by {
        let t = s.component_types[g];
        let start = s.flat_headers(true, g).len() as int;
        let count = s.schema_fields(true, g).len() as int;
        lemma_members_regular(s, g, n, s.schema_fields(true, n - 1).len() as int);
        assert(s.flat_headers(true, n) == s.flat_headers(true, n - 1) + s.schema_fields(
            true,
            n - 1,
        ));
        let ms = m.members(t, m.headers.len() as int);
        assert(ms == index_run(start, count));
        assert(is_regular_column(s.columns[g]));
        assert(s.columns[g].len() == s.entities.len());
        lemma_column_fields_regular(t, s.columns[g]);
        lemma_group_header(s, g, 0);
        lemma_group_in_table(s, g, 0);
        assert forall|r: int| 0 <= r < s.entities.len() implies m.group_cell(ms, r)
            == s.columns[g][r] by {
            match s.columns[g][0] {
                DynModel::Object(first) => {
                    assert(cell_has_keys(s.columns[g][r], keys_of(first)));
                    let fields = s.columns[g][r]->Object_0;
                    let made = m.group_cell(ms, r)->Object_0;
                    assert(keys_of(fields).len() == fields.len());
                    assert(keys_of(first).len() == first.len());
                    assert(!m.is_whole(ms));
                    assert forall|k: int| 0 <= k < count implies #[trigger] made[k]
                        == fields[k] by {
                        lemma_group_header(s, g, k);
                        lemma_group_in_table(s, g, k);
                        assert(keys_of(fields)[k] == keys_of(first)[k]);
                        lemma_lookup_distinct(fields, k);
                        assert(s.flat_group(true, g)[k][r] == flat_cell(
                            t,
                            s.schema_fields(true, g)[k],
                            s.columns[g][r],
                        ));
                    }
                    assert(made =~= fields);
                },
                _ => {
                    assert(!(s.columns[g][r] is Object));
                    assert(m.is_whole(ms));
                    assert(s.flat_group(true, g)[0][r] == flat_cell(
                        t,
                        s.schema_fields(true, g)[0],
                        s.columns[g][r],
                    ));
                },
            }
        }
        assert(m.group_column(t) =~= s.columns[g]);
    }
    assert(back.columns =~= s.columns);
}

} // verus!
