//! The columnar table: an archetype snapshot flattened for CSV, with one
//! column for each field of each component type.

use crate::archetype_archive::{
    position_of_name, ArchetypeModel, ArchetypeSnapshot, StorageTypeFlag,
};
use crate::dyn_value::{lemma_object_view, DynModel, DynValue};
use crate::entity_ids::copy_ids;
use crate::json::{
    from_json, json_form, json_from_str, json_parsed, json_text, json_to_string, to_json,
};
use crate::text::{
    chars_of, decimal, first_index, lemma_first_index, parse_u32, parse_unsigned, split_once,
    str_eq, strip_prefix, u32_to_decimal, usize_to_decimal,
};
use vstd::prelude::*;
use vstd::string::*;

verus! {

/// The columns that one component type takes in a columnar table.
#[derive(Debug, Clone, PartialEq, Eq)]
pub struct ComponentColumnGroup {
    /// The name of the component type.
    pub component: String,
    /// The headers of its columns: the type name alone for a value held
    /// whole, the type name, a dot and a field name for a field of an object.
    pub fields: Vec<String>,
}

impl DeepView for ComponentColumnGroup {
    type V = (Seq<char>, Seq<Seq<char>>);

    open spec fn deep_view(&self) -> (Seq<char>, Seq<Seq<char>>) {
        (self.component@, self.fields.deep_view())
    }
}

/// A table of dynamic values with a header for each column and an entity
/// index for each row.
#[derive(Debug, Clone, PartialEq)]
pub struct ColumnarCsv {
    pub headers: Vec<String>,
    pub columns: Vec<Vec<DynValue>>,
    pub row_index: Vec<u32>,
}

/// The mathematical value of a [`ColumnarCsv`].
pub struct ColumnarModel {
    pub headers: Seq<Seq<char>>,
    pub columns: Seq<Seq<DynModel>>,
    pub row_index: Seq<u32>,
}

impl ColumnarModel {
    /// There is a column for each header, each column has a cell for each
    /// row, and no header occurs twice.
    pub open spec fn wf(self) -> bool {
        &&& self.columns.len() == self.headers.len()
        &&& forall|c: int|
            0 <= c < self.columns.len() ==> (#[trigger] self.columns[c]).len()
                == self.row_index.len()
        &&& self.headers.no_duplicates()
    }
}

impl View for ColumnarCsv {
    type V = ColumnarModel;

    open spec fn view(&self) -> ColumnarModel {
        ColumnarModel {
            headers: self.headers.deep_view(),
            columns: self.columns.deep_view(),
            row_index: self.row_index@,
        }
    }
}

/// The header of the column that holds the field `field` of the component
/// type `component`.
pub open spec fn field_header(component: Seq<char>, field: Seq<char>) -> Seq<char> {
    component + seq!['.'] + field
}

/// The headers that one cell of the component type `component` asks for: one
/// for each field of an object, and the type name alone for any other value.
pub open spec fn cell_fields(component: Seq<char>, value: DynModel) -> Seq<Seq<char>> {
    match value {
        DynModel::Object(fields) => Seq::new(
            fields.len(),
            |i: int| field_header(component, fields[i].0),
        ),
        _ => seq![component],
    }
}

/// `acc`, and behind it those of `names` that it does not hold yet, each once.
pub open spec fn merge_new(acc: Seq<Seq<char>>, names: Seq<Seq<char>>) -> Seq<Seq<char>>
    decreases names.len(),
{
    if names.len() == 0 {
        acc
    } else {
        let merged = merge_new(acc, names.drop_last());
        if merged.contains(names.last()) {
            merged
        } else {
            merged.push(names.last())
        }
    }
}

/// The headers that the cells of a column ask for, each once, in the order
/// in which the rows bring them up.
pub open spec fn column_fields(component: Seq<char>, cells: Seq<DynModel>) -> Seq<Seq<char>>
    decreases cells.len(),
{
    if cells.len() == 0 {
        Seq::empty()
    } else {
        merge_new(
            column_fields(component, cells.drop_last()),
            cell_fields(component, cells.last()),
        )
    }
}

/// The name under which the field of the header `field` stands in an object
/// of the component type `component`: what follows the type name and a dot,
/// and the empty name for any other header.
pub open spec fn field_suffix(component: Seq<char>, field: Seq<char>) -> Seq<char> {
    let prefix = component + seq!['.'];
    if prefix.is_prefix_of(field) {
        field.skip(prefix.len() as int)
    } else {
        Seq::empty()
    }
}

/// What the column of the header `field` holds for the cell `item`: the
/// field of that name for an object, null where the object has none, and the
/// whole value for anything else.
pub open spec fn flat_cell(component: Seq<char>, field: Seq<char>, item: DynModel) -> DynModel {
    match item {
        DynModel::Object(fields) => match DynModel::lookup(
            fields,
            field_suffix(component, field),
        ) {
            Some(v) => v,
            None => DynModel::Null,
        },
        _ => item,
    }
}

impl ArchetypeModel {
    /// The headers of column `c`. Strictly, every row is asked; else the first
    /// row alone stands for all.
    pub open spec fn schema_fields(self, strict: bool, c: int) -> Seq<Seq<char>> {
        if strict {
            column_fields(self.component_types[c], self.columns[c])
        } else {
            cell_fields(self.component_types[c], self.columns[c][0])
        }
    }

    /// The flattened columns that column `c` becomes, one for each header.
    pub open spec fn flat_group(self, strict: bool, c: int) -> Seq<Seq<DynModel>> {
        let fields = self.schema_fields(strict, c);
        Seq::new(
            fields.len(),
            |f: int|
                Seq::new(
                    self.columns[c].len(),
                    |r: int| flat_cell(self.component_types[c], fields[f], self.columns[c][r]),
                ),
        )
    }

    /// The headers of the first `n` columns, in order.
    pub open spec fn flat_headers(self, strict: bool, n: int) -> Seq<Seq<char>>
        decreases n,
    {
        if n <= 0 {
            Seq::empty()
        } else {
            self.flat_headers(strict, n - 1) + self.schema_fields(strict, n - 1)
        }
    }

    /// The flattened columns of the first `n` columns, in order.
    pub open spec fn flat_columns(self, strict: bool, n: int) -> Seq<Seq<DynModel>>
        decreases n,
    {
        if n <= 0 {
            Seq::empty()
        } else {
            self.flat_columns(strict, n - 1) + self.flat_group(strict, n - 1)
        }
    }

    /// The snapshot as a columnar table.
    pub open spec fn to_columnar(self, strict: bool) -> ColumnarModel {
        ColumnarModel {
            headers: self.flat_headers(strict, self.component_types.len() as int),
            columns: self.flat_columns(strict, self.component_types.len() as int),
            row_index: self.entities,
        }
    }
}

/// The headers that one cell of the component type `component` asks for.
pub fn infer_schema(component: &str, value: &DynValue) -> (r: ComponentColumnGroup)
    ensures
        r.deep_view() == (component@, cell_fields(component@, value@)),
{
    let mut fields: Vec<String> = Vec::new();
    match value {
        DynValue::Object(entries) => {
            let mut i: usize = 0;
            proof {
                lemma_object_view(*value);
            }
            while i < entries.len()
                invariant
                    i <= entries.len(),
                    value@ is Object,
                    value@->Object_0.len() == entries@.len(),
                    forall|k: int| 0 <= k < entries@.len() ==> value@->Object_0[k].0 == entries@[k].0@,
                    fields@.len() == i,
                    forall|k: int|
                        0 <= k < i ==> (#[trigger] fields@[k])@ == field_header(
                            component@,
                            entries@[k].0@,
                        ),
                decreases entries.len() - i,
            {
                let mut header = String::from_str(component);
                header.append(".");
                header.append(entries[i].0.as_str());
                proof {
                    reveal_strlit(".");
                    assert("."@ =~= seq!['.']);
                }
                fields.push(header);
                i += 1;
            }
            assert(fields.deep_view() =~= cell_fields(component@, value@));
        },
        _ => {
            fields.push(String::from_str(component));
            assert(fields.deep_view() =~= cell_fields(component@, value@));
        },
    }
    ComponentColumnGroup { component: String::from_str(component), fields }
}

/// Adds to `acc` those of `names` that it does not hold yet.
fn merge_names(acc: &mut Vec<String>, names: &Vec<String>)
    ensures
        final(acc).deep_view() == merge_new(old(acc).deep_view(), names.deep_view()),
{
    let mut k: usize = 0;
    assert(names.deep_view().take(0) =~= Seq::empty());
    while k < names.len()
        invariant
            k <= names.len(),
            acc.deep_view() == merge_new(old(acc).deep_view(), names.deep_view().take(k as int)),
        decreases names.len() - k,
    {
        proof {
            assert(names.deep_view().take(k + 1).drop_last() =~= names.deep_view().take(k as int));
            assert(names.deep_view().take(k + 1).last() == names@[k as int]@);
        }
        if position_of_name(acc, names[k].as_str()).is_none() {
            let ghost before = acc.deep_view();
            acc.push(names[k].clone());
            assert(acc.deep_view() =~= before.push(names@[k as int]@));
        }
        k += 1;
    }
    assert(names.deep_view().take(names@.len() as int) =~= names.deep_view());
}

/// The columns that each component type of the snapshot takes in a columnar
/// table. Strictly, the cells of every row are asked for their fields; else
/// the first row alone stands for all.
pub fn build_schema(snapshot: &ArchetypeSnapshot, strict: bool) -> (r: Vec<ComponentColumnGroup>)
    requires
        snapshot@.columns_aligned(),
        !strict && snapshot@.component_types.len() > 0 ==> snapshot@.entities.len() > 0,
    ensures
        r@.len() == snapshot@.component_types.len(),
        forall|c: int|
            0 <= c < r@.len() ==> (#[trigger] r@[c]).deep_view() == (
                snapshot@.component_types[c],
                snapshot@.schema_fields(strict, c),
            ),
{
    let mut out: Vec<ComponentColumnGroup> = Vec::new();
    let mut c: usize = 0;
    while c < snapshot.component_types.len()
        invariant
            snapshot@.columns_aligned(),
            !strict && snapshot@.component_types.len() > 0 ==> snapshot@.entities.len() > 0,
            c <= snapshot.component_types.len(),
            out@.len() == c,
            forall|k: int|
                0 <= k < c ==> (#[trigger] out@[k]).deep_view() == (
                    snapshot@.component_types[k],
                    snapshot@.schema_fields(strict, k),
                ),
        decreases snapshot.component_types.len() - c,
    {
        let component = snapshot.component_types[c].as_str();
        let column = &snapshot.columns[c];
        assert(snapshot@.columns[c as int].len() == snapshot@.entities.len());
        assert(column.deep_view() == snapshot@.columns[c as int]);
        let fields = if strict {
            let mut acc: Vec<String> = Vec::new();
            let mut row: usize = 0;
            assert(acc.deep_view() =~= Seq::empty());
            assert(column.deep_view().take(0) =~= Seq::empty());
            while row < column.len()
                invariant
                    row <= column.len(),
                    acc.deep_view() == column_fields(component@, column.deep_view().take(row as int)),
                decreases column.len() - row,
            {
                let group = infer_schema(component, &column[row]);
                proof {
                    assert(column.deep_view().take(row + 1).drop_last() =~= column.deep_view().take(
                        row as int,
                    ));
                    assert(column.deep_view().take(row + 1).last() == column@[row as int]@);
                }
                merge_names(&mut acc, &group.fields);
                row += 1;
            }
            assert(column.deep_view().take(column@.len() as int) =~= column.deep_view());
            acc
        } else {
            infer_schema(component, &column[0]).fields
        };
        out.push(ComponentColumnGroup { component: String::from_str(component), fields });
        c += 1;
    }
    out
}

/// Whether `j` is the first index whose element stands earlier in `s` too.
pub open spec fn is_first_repeat(s: Seq<Seq<char>>, j: int) -> bool {
    &&& 0 <= j < s.len()
    &&& s.take(j).contains(s[j])
    &&& s.take(j).no_duplicates()
}

/// The first index whose element stands earlier in `s` too.
pub open spec fn first_repeat(s: Seq<Seq<char>>) -> int {
    choose|j: int| is_first_repeat(s, j)
}

/// There is one first repeat at most.
pub proof fn lemma_first_repeat(s: Seq<Seq<char>>, j: int)
    requires
        is_first_repeat(s, j),
    ensures
        first_repeat(s) == j,
        !s.no_duplicates(),
{
    let w = first_repeat(s);
    assert(is_first_repeat(s, w));
    let i = choose|i: int| 0 <= i < s.take(j).len() && s.take(j)[i] == s[j];
    assert(s[i] == s[j]);
    if j < w {
        assert(s.take(w)[i] == s.take(w)[j]);
    }
    if w < j {
        let k = choose|k: int| 0 <= k < s.take(w).len() && s.take(w)[k] == s[w];
        assert(s.take(j)[k] == s.take(j)[w]);
    }
}

/// The message for a header that a columnar table holds already.
pub open spec fn duplicate_header_error(name: Seq<char>) -> Seq<char> {
    "Column '"@ + name + "' already exists"@
}

/// The flattened headers of fewer columns stand first in those of more.
pub proof fn lemma_flat_headers_prefix(m: ArchetypeModel, strict: bool, c: int, n: int)
    requires
        0 <= c <= n,
    ensures
        m.flat_headers(strict, c).len() <= m.flat_headers(strict, n).len(),
        m.flat_headers(strict, n).take(m.flat_headers(strict, c).len() as int) == m.flat_headers(
            strict,
            c,
        ),
    decreases n - c,
{
    if c == n {
        assert(m.flat_headers(strict, n).take(m.flat_headers(strict, n).len() as int)
            =~= m.flat_headers(strict, n));
    } else {
        lemma_flat_headers_prefix(m, strict, c, n - 1);
        let shorter = m.flat_headers(strict, n - 1);
        let longer = m.flat_headers(strict, n);
        assert(longer == shorter + m.schema_fields(strict, n - 1));
        assert(longer.take(m.flat_headers(strict, c).len() as int) =~= shorter.take(
            m.flat_headers(strict, c).len() as int,
        ));
    }
}

/// The flattened columns, like the headers, come one for each field.
pub proof fn lemma_flat_columns_len(m: ArchetypeModel, strict: bool, n: int)
    requires
        0 <= n,
    ensures
        m.flat_columns(strict, n).len() == m.flat_headers(strict, n).len(),
    decreases n,
{
    if n > 0 {
        lemma_flat_columns_len(m, strict, n - 1);
    }
}

/// The cell that the column of the header `field` holds for `item`.
fn flatten_cell(suffix: &str, item: &DynValue) -> (r: DynValue)
    ensures
        r@ == match item@ {
            DynModel::Object(fields) => match DynModel::lookup(fields, suffix@) {
                Some(v) => v,
                None => DynModel::Null,
            },
            _ => item@,
        },
{
    match item {
        DynValue::Object(_) => match item.get_field(suffix) {
            Some(v) => v.clone(),
            None => DynValue::Null,
        },
        _ => item.clone(),
    }
}

/// The name under which the field of the header `field` stands in an object.
fn suffix_of(component: &str, field: &str) -> (r: String)
    ensures
        r@ == field_suffix(component@, field@),
{
    let mut prefix = String::from_str(component);
    prefix.append(".");
    proof {
        reveal_strlit(".");
        assert(prefix@ =~= component@ + seq!['.']);
    }
    match strip_prefix(field, prefix.as_str()) {
        Some(rest) => rest,
        None => String::new(),
    }
}

/// Flattens a snapshot into a columnar table, or names the first header that
/// two of its fields would share.
pub fn columnar_core(snapshot: &ArchetypeSnapshot, strict: bool) -> (r: Result<ColumnarCsv, String>)
    requires
        snapshot@.columns_aligned(),
        !strict && snapshot@.component_types.len() > 0 ==> snapshot@.entities.len() > 0,
    ensures
        match r {
            Ok(csv) => csv@ == snapshot@.to_columnar(strict) && csv@.wf(),
            Err(msg) => !snapshot@.to_columnar(strict).headers.no_duplicates() && msg@
                == duplicate_header_error(
                snapshot@.to_columnar(strict).headers[first_repeat(
                    snapshot@.to_columnar(strict).headers,
                )],
            ),
        },
{
    let schemas = build_schema(snapshot, strict);
    let n = snapshot.component_types.len();
    let ghost m = snapshot@;
    let ghost all = m.flat_headers(strict, n as int);
    let mut headers: Vec<String> = Vec::new();
    let mut columns: Vec<Vec<DynValue>> = Vec::new();
    let mut c: usize = 0;
    assert(headers.deep_view() =~= m.flat_headers(strict, 0));
    assert(columns.deep_view() =~= m.flat_columns(strict, 0));
    while c < n
        invariant
            m == snapshot@,
            m.columns_aligned(),
            n == m.component_types.len(),
            all == m.flat_headers(strict, n as int),
            schemas@.len() == n,
            forall|k: int|
                0 <= k < n ==> (#[trigger] schemas@[k]).deep_view() == (
                    m.component_types[k],
                    m.schema_fields(strict, k),
                ),
            c <= n,
            headers.deep_view() == m.flat_headers(strict, c as int),
            columns.deep_view() == m.flat_columns(strict, c as int),
            headers.deep_view().no_duplicates(),
        decreases n - c,
    {
        let group = &schemas[c];
        let values = &snapshot.columns[c];
        let ghost fields = m.schema_fields(strict, c as int);
        let ghost h0 = headers.deep_view();
        let ghost c0 = columns.deep_view();
        assert(group.deep_view() == (m.component_types[c as int], fields));
        assert(values.deep_view() == m.columns[c as int]);
        let mut f: usize = 0;
        while f < group.fields.len()
            invariant
                m == snapshot@,
                n == m.component_types.len(),
                all == m.flat_headers(strict, n as int),
                c < n,
                m.columns_aligned(),
                fields == m.schema_fields(strict, c as int),
                group.deep_view() == (m.component_types[c as int], fields),
                values.deep_view() == m.columns[c as int],
                h0 == m.flat_headers(strict, c as int),
                f <= group.fields.len(),
                headers.deep_view() == h0 + fields.take(f as int),
                columns.deep_view() == c0 + m.flat_group(strict, c as int).take(f as int),
                headers.deep_view().no_duplicates(),
            decreases group.fields.len() - f,
        {
            let field = group.fields[f].as_str();
            assert(field@ == fields[f as int]);
            if position_of_name(&headers, field).is_some() {
                let mut msg = String::from_str("Column '");
                msg.append(field);
                msg.append("' already exists");
                proof {
                    lemma_flat_headers_prefix(m, strict, c + 1, n as int);
                    let next = m.flat_headers(strict, c + 1);
                    assert(next == h0 + fields);
                    let j = (h0.len() + f) as int;
                    assert(all.take(next.len() as int) == next);
                    assert(all[j] == next[j]);
                    assert(next[j] == fields[f as int]);
                    assert(all.take(j) =~= h0 + fields.take(f as int)) by {
                        assert(all.take(j) =~= next.take(j));
                    }
                    assert(is_first_repeat(all, j));
                    lemma_first_repeat(all, j);
                    assert(msg@ =~= duplicate_header_error(all[j]));
                }
                return Err(msg);
            }
            let suffix = suffix_of(group.component.as_str(), field);
            let mut column: Vec<DynValue> = Vec::new();
            let mut row: usize = 0;
            while row < values.len()
                invariant
                    row <= values.len(),
                    0 <= f < fields.len(),
                    c < m.columns.len(),
                    suffix@ == field_suffix(m.component_types[c as int], fields[f as int]),
                    values.deep_view() == m.columns[c as int],
                    column@.len() == row,
                    forall|k: int|
                        0 <= k < row ==> (#[trigger] column@[k])@ == flat_cell(
                            m.component_types[c as int],
                            fields[f as int],
                            m.columns[c as int][k],
                        ),
                decreases values.len() - row,
            {
                assert(values.deep_view()[row as int] == values@[row as int]@);
                let cell = flatten_cell(suffix.as_str(), &values[row]);
                column.push(cell);
                row += 1;
            }
            proof {
                assert(column.deep_view() =~= m.flat_group(strict, c as int)[f as int]);
            }
            let ghost h1 = headers.deep_view();
            let ghost c1 = columns.deep_view();
            headers.push(String::from_str(field));
            columns.push(column);
            proof {
                assert(headers.deep_view() =~= h1.push(fields[f as int]));
                assert(columns.deep_view() =~= c1.push(m.flat_group(strict, c as int)[f as int]));
                assert(h1.push(fields[f as int]) =~= h0 + fields.take(f + 1));
                assert(c1.push(m.flat_group(strict, c as int)[f as int]) =~= c0 + m.flat_group(
                    strict,
                    c as int,
                ).take(f + 1));
                assert(!h1.contains(fields[f as int]));
                assert(headers.deep_view().no_duplicates()) by {
                    let h = headers.deep_view();
                    assert forall|a: int, b: int| 0 <= a < h.len() && 0 <= b < h.len() && a
                        != b implies h[a] != h[b] by {
                        if a < h1.len() && b < h1.len() {
                            assert(h1[a] != h1[b]);
                        } else if a < h1.len() {
                            assert(h1.contains(h1[a]));
                        } else {
                            assert(h1.contains(h1[b]));
                        }
                    }
                }
            }
            f += 1;
        }
        proof {
            assert(fields.take(fields.len() as int) =~= fields);
            assert(m.flat_group(strict, c as int).take(fields.len() as int) =~= m.flat_group(
                strict,
                c as int,
            ));
        }
        c += 1;
    }
    let row_index = copy_ids(&snapshot.entities);
    let csv = ColumnarCsv { headers, columns, row_index };
    proof {
        lemma_flat_columns_len(m, strict, n as int);
        lemma_flat_columns_rows(m, strict, n as int);
    }
    Ok(csv)
}

/// Each flattened column has a cell for each row of an aligned snapshot.
pub proof fn lemma_flat_columns_rows(m: ArchetypeModel, strict: bool, n: int)
    requires
        0 <= n <= m.component_types.len(),
        m.columns_aligned(),
    ensures
        forall|k: int|
            0 <= k < m.flat_columns(strict, n).len() ==> (#[trigger] m.flat_columns(
                strict,
                n,
            )[k]).len() == m.entities.len(),
    decreases n,
{
    if n > 0 {
        lemma_flat_columns_rows(m, strict, n - 1);
        assert(m.columns[n - 1].len() == m.entities.len());
        let shorter = m.flat_columns(strict, n - 1);
        let group = m.flat_group(strict, n - 1);
        assert forall|k: int| 0 <= k < m.flat_columns(strict, n).len() implies (
        #[trigger] m.flat_columns(strict, n)[k]).len() == m.entities.len() by {
            if k < shorter.len() {
                assert(m.flat_columns(strict, n)[k] == shorter[k]);
            } else {
                assert(m.flat_columns(strict, n)[k] == group[k - shorter.len()]);
            }
        }
    }
}

/// Flattens a snapshot into a columnar table, with a column for each field
/// that a cell of any row has.
pub fn columnar_from_snapshot(snapshot: &ArchetypeSnapshot) -> (r: ColumnarCsv)
    requires
        snapshot@.columns_aligned(),
        snapshot@.to_columnar(true).headers.no_duplicates(),
    ensures
        r@ == snapshot@.to_columnar(true),
        r@.wf(),
{
    match columnar_core(snapshot, true) {
        Ok(csv) => csv,
        Err(_) => {
            ColumnarCsv { headers: Vec::new(), columns: Vec::new(), row_index: Vec::new() }
        },
    }
}

/// Flattens a snapshot into a columnar table, taking the fields of each
/// column from its first row alone. Fields that only later rows have are
/// left out, so this is for snapshots whose rows all have the same shape.
pub fn columnar_from_snapshot_unchecked(snapshot: &ArchetypeSnapshot) -> (r: ColumnarCsv)
    requires
        snapshot@.columns_aligned(),
        snapshot@.component_types.len() > 0 ==> snapshot@.entities.len() > 0,
        snapshot@.to_columnar(false).headers.no_duplicates(),
    ensures
        r@ == snapshot@.to_columnar(false),
        r@.wf(),
{
    match columnar_core(snapshot, false) {
        Ok(csv) => csv,
        Err(_) => {
            ColumnarCsv { headers: Vec::new(), columns: Vec::new(), row_index: Vec::new() }
        },
    }
}

/// The component type that a header belongs to: what stands before its first
/// dot, and the whole header where it has none.
pub open spec fn header_component(h: Seq<char>) -> Seq<char> {
    match first_index(h, '.') {
        Some(i) => h.take(i),
        None => h,
    }
}

/// The field that a header names: what stands behind its first dot. A header
/// without a dot names none: its column holds the values whole.
pub open spec fn header_field(h: Seq<char>) -> Option<Seq<char>> {
    match first_index(h, '.') {
        Some(i) => Some(h.skip(i + 1)),
        None => None,
    }
}

impl ColumnarModel {
    /// There is a column for each header, and each column has a cell for each
    /// row.
    pub open spec fn columns_aligned(self) -> bool {
        &&& self.columns.len() == self.headers.len()
        &&& forall|c: int|
            0 <= c < self.columns.len() ==> (#[trigger] self.columns[c]).len()
                == self.row_index.len()
    }

    /// The component type of each header.
    pub open spec fn components(self) -> Seq<Seq<char>> {
        Seq::new(self.headers.len(), |i: int| header_component(self.headers[i]))
    }

    /// The component types of the table, each once, in the order in which the
    /// headers bring them up.
    pub open spec fn group_names(self) -> Seq<Seq<char>> {
        merge_new(Seq::empty(), self.components())
    }

    /// The indices, among the first `n` headers, of those that belong to the
    /// component type `component`, in ascending order.
    pub open spec fn members(self, component: Seq<char>, n: int) -> Seq<int>
        decreases n,
    {
        if n <= 0 {
            Seq::empty()
        } else if header_component(self.headers[n - 1]) == component {
            self.members(component, n - 1).push(n - 1)
        } else {
            self.members(component, n - 1)
        }
    }

    /// Headers that share a component type all name a field.
    pub open spec fn groups_uniform(self) -> bool {
        forall|i: int, j: int|
            0 <= i < self.headers.len() && 0 <= j < self.headers.len() && i != j
                && header_component(self.headers[i]) == header_component(self.headers[j])
                ==> header_field(#[trigger] self.headers[i]) is Some && header_field(
                #[trigger] self.headers[j],
            ) is Some
    }

    /// Whether the columns `members` are one column that holds the values
    /// whole.
    pub open spec fn is_whole(self, members: Seq<int>) -> bool {
        members.len() == 1 && header_field(self.headers[members[0]]) is None
    }

    /// The cell that row `r` has for the component type with the columns
    /// `members`: the cell of a whole column, and else an object with a field
    /// for each column.
    pub open spec fn group_cell(self, members: Seq<int>, r: int) -> DynModel {
        if self.is_whole(members) {
            self.columns[members[0]][r]
        } else {
            DynModel::Object(
                Seq::new(
                    members.len(),
                    |k: int|
                        (
                            match header_field(self.headers[members[k]]) {
                                Some(f) => f,
                                None => Seq::empty(),
                            },
                            self.columns[members[k]][r],
                        ),
                ),
            )
        }
    }

    /// The column of the component type `component`.
    pub open spec fn group_column(self, component: Seq<char>) -> Seq<DynModel> {
        Seq::new(
            self.row_index.len(),
            |r: int| self.group_cell(self.members(component, self.headers.len() as int), r),
        )
    }

    /// The table as an archetype snapshot: a column for each component type,
    /// all stored in the table.
    pub open spec fn to_archetype(self) -> ArchetypeModel {
        let names = self.group_names();
        ArchetypeModel {
            component_types: names,
            storage_types: Seq::new(names.len(), |g: int| StorageTypeFlag::Table),
            columns: Seq::new(names.len(), |g: int| self.group_column(names[g])),
            entities: self.row_index,
        }
    }
}

impl ColumnarCsv {
    /// A table without columns, whose `row_count` rows are numbered from
    /// zero. An entity index has 32 bits, and so has the number of rows.
    pub fn new(row_count: usize) -> (r: Self)
        requires
            row_count <= u32::MAX,
        ensures
            r@.headers.len() == 0,
            r@.columns.len() == 0,
            r@.row_index == Seq::new(row_count as nat, |i: int| i as u32),
            r@.wf(),
    {
        let n: u32 = row_count as u32;
        let mut row_index: Vec<u32> = Vec::new();
        let mut i: u32 = 0;
        while i < n
            invariant
                i <= n,
                row_index@ == Seq::new(i as nat, |k: int| k as u32),
            decreases n - i,
        {
            row_index.push(i);
            i += 1;
            assert(row_index@ =~= Seq::new(i as nat, |k: int| k as u32));
        }
        let r = ColumnarCsv { headers: Vec::new(), columns: Vec::new(), row_index };
        assert(r@.headers =~= Seq::empty());
        r
    }

    /// Adds a column under the header `name`, with a null cell for each row.
    /// A header that the table holds already is refused.
    pub fn add_column(&mut self, name: String) -> (r: Result<(), String>)
        ensures
            match r {
                Ok(_) => !old(self)@.headers.contains(name@) && final(self)@ == (ColumnarModel {
                    headers: old(self)@.headers.push(name@),
                    columns: old(self)@.columns.push(
                        Seq::new(old(self)@.row_index.len(), |r: int| DynModel::Null),
                    ),
                    row_index: old(self)@.row_index,
                }),
                Err(msg) => old(self)@.headers.contains(name@) && msg@ == duplicate_header_error(
                    name@,
                ) && final(self)@ == old(self)@,
            },
    {
        if position_of_name(&self.headers, name.as_str()).is_some() {
            let mut msg = String::from_str("Column '");
            msg.append(name.as_str());
            msg.append("' already exists");
            return Err(msg);
        }
        let n = self.row_index.len();
        let mut column: Vec<DynValue> = Vec::new();
        let mut r: usize = 0;
        while r < n
            invariant
                r <= n,
                column@.len() == r,
                forall|k: int| 0 <= k < r ==> column@[k]@ is Null,
            decreases n - r,
        {
            column.push(DynValue::Null);
            r += 1;
        }
        assert(column.deep_view() =~= Seq::new(n as nat, |r: int| DynModel::Null));
        self.headers.push(name);
        self.columns.push(column);
        assert(self@.headers =~= old(self)@.headers.push(name@));
        assert(self@.columns =~= old(self)@.columns.push(
            Seq::new(n as nat, |r: int| DynModel::Null),
        ));
        Ok(())
    }

    /// The first column under the header `name`, to read or to replace.
    pub fn get_column_mut(&mut self, name: &str) -> (r: Option<&mut Vec<DynValue>>)
        requires
            old(self)@.columns.len() == old(self)@.headers.len(),
        ensures
            r is Some <==> first_index(old(self)@.headers, name@) is Some,
            r is None ==> final(self)@ == old(self)@,
            r matches Some(col) ==> col.deep_view() == old(self)@.columns[first_index(
                old(self)@.headers,
                name@,
            ).unwrap()],
            r matches Some(col) ==> final(self)@.columns =~~= old(self)@.columns.update(
                first_index(old(self)@.headers, name@).unwrap(),
                final(col).deep_view(),
            ),
            final(self)@.headers == old(self)@.headers,
            final(self)@.row_index == old(self)@.row_index,
    {
        let c = match position_of_name(&self.headers, name) {
            Some(c) => c,
            None => {
                return None;
            },
        };
        proof {
            lemma_first_index(self@.headers, name@, c as int);
        }
        let column = &mut self.columns[c];
        Some(column)
    }

    /// Whether there is a column for each header and a cell for each row.
    pub fn is_aligned(&self) -> (b: bool)
        ensures
            b == self@.columns_aligned(),
    {
        if self.columns.len() != self.headers.len() {
            return false;
        }
        let mut c: usize = 0;
        while c < self.columns.len()
            invariant
                c <= self.columns.len(),
                self@.columns.len() == self@.headers.len(),
                forall|j: int|
                    0 <= j < c ==> (#[trigger] self@.columns[j]).len() == self@.row_index.len(),
            decreases self.columns.len() - c,
        {
            if self.columns[c].len() != self.row_index.len() {
                assert(self@.columns[c as int].len() != self@.row_index.len());
                return false;
            }
            c += 1;
        }
        true
    }

    /// Whether headers that share a component type all name a field.
    pub fn has_uniform_groups(&self) -> (b: bool)
        ensures
            b == self@.groups_uniform(),
    {
        let (comps, fields) = split_headers(&self.headers);
        let n = comps.len();
        let mut i: usize = 0;
        while i < n
            invariant
                i <= n,
                n == self@.headers.len(),
                comps.deep_view() == self@.components(),
                comps@.len() == n,
                fields@.len() == n,
                forall|k: int| 0 <= k < n ==> (#[trigger] fields@[k] is Some) == (header_field(
                    self@.headers[k],
                ) is Some),
                forall|a: int, b: int|
                    0 <= a < i && 0 <= b < n && a != b && header_component(self@.headers[a])
                        == header_component(self@.headers[b]) ==> header_field(
                        #[trigger] self@.headers[a],
                    ) is Some && header_field(#[trigger] self@.headers[b]) is Some,
            decreases n - i,
        {
            let mut j: usize = 0;
            while j < n
                invariant
                    i < n,
                    j <= n,
                    n == self@.headers.len(),
                    comps.deep_view() == self@.components(),
                    comps@.len() == n,
                    fields@.len() == n,
                    forall|k: int|
                        0 <= k < n ==> (#[trigger] fields@[k] is Some) == (header_field(
                            self@.headers[k],
                        ) is Some),
                    forall|b: int|
                        0 <= b < j && i != b && header_component(self@.headers[i as int])
                            == header_component(self@.headers[b]) ==> header_field(
                            self@.headers[i as int],
                        ) is Some && header_field(#[trigger] self@.headers[b]) is Some,
                decreases n - j,
            {
                assert(comps.deep_view()[i as int] == comps@[i as int]@);
                assert(comps.deep_view()[j as int] == comps@[j as int]@);
                if i != j && str_eq(comps[i].as_str(), comps[j].as_str()) {
                    assert(fields@[i as int] is Some == (header_field(self@.headers[i as int]) is Some));
                    assert(fields@[j as int] is Some == (header_field(self@.headers[j as int]) is Some));
                    if fields[i].is_none() || fields[j].is_none() {
                        return false;
                    }
                }
                j += 1;
            }
            i += 1;
        }
        true
    }
}

/// The component type and the field of each header.
fn split_headers(headers: &Vec<String>) -> (r: (Vec<String>, Vec<Option<String>>))
    ensures
        r.0@.len() == headers@.len(),
        r.1@.len() == headers@.len(),
        forall|k: int|
            0 <= k < headers@.len() ==> (#[trigger] r.0@[k])@ == header_component(headers@[k]@),
        forall|k: int|
            0 <= k < headers@.len() ==> match header_field(headers@[k]@) {
                Some(f) => (#[trigger] r.1@[k]) matches Some(x) && x@ == f,
                None => r.1@[k] is None,
            },
{
    let mut comps: Vec<String> = Vec::new();
    let mut fields: Vec<Option<String>> = Vec::new();
    let mut i: usize = 0;
    while i < headers.len()
        invariant
            i <= headers.len(),
            comps@.len() == i,
            fields@.len() == i,
            forall|k: int| 0 <= k < i ==> (#[trigger] comps@[k])@ == header_component(headers@[k]@),
            forall|k: int|
                0 <= k < i ==> match header_field(headers@[k]@) {
                    Some(f) => (#[trigger] fields@[k]) matches Some(x) && x@ == f,
                    None => fields@[k] is None,
                },
        decreases headers.len() - i,
    {
        match split_once(headers[i].as_str(), '.') {
            Some((head, tail)) => {
                comps.push(head);
                fields.push(Some(tail));
            },
            None => {
                comps.push(headers[i].clone());
                fields.push(None);
            },
        }
        i += 1;
    }
    (comps, fields)
}

/// The indices of the headers that belong to the component type `component`.
fn members_of(csv: &ColumnarCsv, comps: &Vec<String>, component: &str) -> (r: Vec<usize>)
    requires
        comps.deep_view() == csv@.components(),
    ensures
        r@.len() == csv@.members(component@, csv@.headers.len() as int).len(),
        forall|k: int|
            0 <= k < r@.len() ==> (#[trigger] r@[k]) as int == csv@.members(
                component@,
                csv@.headers.len() as int,
            )[k],
        forall|k: int| 0 <= k < r@.len() ==> (#[trigger] r@[k]) < csv@.headers.len(),
{
    let n = comps.len();
    let mut members: Vec<usize> = Vec::new();
    let mut i: usize = 0;
    assert(comps.deep_view().len() == csv@.components().len());
    while i < n
        invariant
            i <= n,
            n == csv@.headers.len(),
            comps@.len() == n,
            comps.deep_view() == csv@.components(),
            members@.len() == csv@.members(component@, i as int).len(),
            forall|k: int|
                0 <= k < members@.len() ==> (#[trigger] members@[k]) as int == csv@.members(
                    component@,
                    i as int,
                )[k],
            forall|k: int| 0 <= k < members@.len() ==> (#[trigger] members@[k]) < i,
        decreases n - i,
    {
        assert(comps.deep_view()[i as int] == comps@[i as int]@);
        if str_eq(comps[i].as_str(), component) {
            members.push(i);
        }
        i += 1;
    }
    members
}

/// Gathers the columns of a columnar table by component type: a column that
/// holds its values whole is taken as it is, and the columns of the fields of
/// one component type become one column of objects.
pub fn to_archetype_snapshot(csv: &ColumnarCsv) -> (r: ArchetypeSnapshot)
    requires
        csv@.columns_aligned(),
        csv@.groups_uniform(),
    ensures
        r@ == csv@.to_archetype(),
        r@.wf(),
{
    let (comps, fields) = split_headers(&csv.headers);
    assert(comps.deep_view() =~= csv@.components());
    let mut names: Vec<String> = Vec::new();
    assert(names.deep_view() =~= Seq::empty());
    merge_names(&mut names, &comps);
    let ghost m = csv@;
    let rows = csv.row_index.len();
    let mut columns: Vec<Vec<DynValue>> = Vec::new();
    let mut storage: Vec<StorageTypeFlag> = Vec::new();
    let mut g: usize = 0;
    while g < names.len()
        invariant
            m == csv@,
            m.columns_aligned(),
            rows == m.row_index.len(),
            comps.deep_view() == m.components(),
            names.deep_view() == m.group_names(),
            fields@.len() == m.headers.len(),
            forall|k: int|
                0 <= k < m.headers.len() ==> match header_field(m.headers[k]) {
                    Some(f) => (#[trigger] fields@[k]) matches Some(x) && x@ == f,
                    None => fields@[k] is None,
                },
            g <= names.len(),
            columns@.len() == g,
            storage@.len() == g,
            forall|k: int| 0 <= k < g ==> storage@[k] == StorageTypeFlag::Table,
            forall|k: int|
                0 <= k < g ==> (#[trigger] columns@[k]).deep_view() == m.group_column(
                    m.group_names()[k],
                ),
        decreases names.len() - g,
    {
        let component = names[g].as_str();
        assert(component@ == m.group_names()[g as int]) by {
            assert(names.deep_view()[g as int] == names@[g as int]@);
        }
        let members = members_of(csv, &comps, component);
        let ghost ms = m.members(component@, m.headers.len() as int);
        let whole = members.len() == 1 && fields[members[0]].is_none();
        assert(whole == m.is_whole(ms));
        let mut column: Vec<DynValue> = Vec::new();
        let mut r: usize = 0;
        while r < rows
            invariant
                m == csv@,
                m.columns_aligned(),
                rows == m.row_index.len(),
                ms == m.members(component@, m.headers.len() as int),
                members@.len() == ms.len(),
                forall|k: int| 0 <= k < members@.len() ==> (#[trigger] members@[k]) as int == ms[k],
                forall|k: int| 0 <= k < members@.len() ==> (#[trigger] members@[k]) < m.headers.len(),
                whole == m.is_whole(ms),
                fields@.len() == m.headers.len(),
                forall|k: int|
                    0 <= k < m.headers.len() ==> match header_field(m.headers[k]) {
                        Some(f) => (#[trigger] fields@[k]) matches Some(x) && x@ == f,
                        None => fields@[k] is None,
                    },
                r <= rows,
                column@.len() == r,
                forall|k: int| 0 <= k < r ==> (#[trigger] column@[k])@ == m.group_cell(ms, k),
            decreases rows - r,
        {
            let cell = if whole {
                let c = members[0];
                assert(m.columns[c as int].len() == m.row_index.len());
                assert(csv.columns.deep_view()[c as int] == csv.columns@[c as int].deep_view());
                csv.columns[c][r].clone()
            } else {
                let mut entries: Vec<(String, DynValue)> = Vec::new();
                let mut k: usize = 0;
                while k < members.len()
                    invariant
                        m == csv@,
                        m.columns_aligned(),
                        r < rows,
                        rows == m.row_index.len(),
                        members@.len() == ms.len(),
                        forall|k: int|
                            0 <= k < members@.len() ==> (#[trigger] members@[k]) as int == ms[k],
                        forall|k: int|
                            0 <= k < members@.len() ==> (#[trigger] members@[k]) < m.headers.len(),
                        fields@.len() == m.headers.len(),
                        forall|k: int|
                            0 <= k < m.headers.len() ==> match header_field(m.headers[k]) {
                                Some(f) => (#[trigger] fields@[k]) matches Some(x) && x@ == f,
                                None => fields@[k] is None,
                            },
                        k <= members.len(),
                        entries@.len() == k,
                        forall|j: int|
                            0 <= j < k ==> (#[trigger] entries@[j]).0@ == (match header_field(
                                m.headers[ms[j]],
                            ) {
                                Some(f) => f,
                                None => Seq::empty(),
                            }) && entries@[j].1@ == m.columns[ms[j]][r as int],
                    decreases members.len() - k,
                {
                    let c = members[k];
                    assert(c as int == ms[k as int]);
                    assert(m.columns[c as int].len() == m.row_index.len());
                    assert(csv.columns.deep_view()[c as int] == csv.columns@[c as int].deep_view());
                    let name = match &fields[c] {
                        Some(f) => f.clone(),
                        None => String::new(),
                    };
                    entries.push((name, csv.columns[c][r].clone()));
                    k += 1;
                }
                let cell = DynValue::Object(entries);
                proof {
                    lemma_object_view(cell);
                    assert(cell@->Object_0 =~= m.group_cell(ms, r as int)->Object_0);
                }
                cell
            };
            column.push(cell);
            r += 1;
        }
        proof {
            assert(column.deep_view() =~= m.group_column(component@));
        }
        columns.push(column);
        storage.push(StorageTypeFlag::Table);
        g += 1;
    }
    let entities = copy_ids(&csv.row_index);
    let r = ArchetypeSnapshot { component_types: names, storage_types: storage, columns, entities };
    proof {
        assert(r@.storage_types =~= csv@.to_archetype().storage_types);
        assert(r@.columns =~= csv@.to_archetype().columns);
    }
    r
}

/// A column without objects, if it has a row, takes one header: the name of
/// its component type.
pub proof fn lemma_column_fields_flat(component: Seq<char>, cells: Seq<DynModel>)
    requires
        cells.len() > 0,
        forall|r: int| 0 <= r < cells.len() ==> !(#[trigger] cells[r] is Object),
    ensures
        column_fields(component, cells) == seq![component],
    decreases cells.len(),
{
    let names = cell_fields(component, cells.last());
    assert(!(cells[cells.len() - 1] is Object));
    assert(names =~= seq![component]);
    assert(names.drop_last() =~= Seq::<Seq<char>>::empty());
    if cells.len() == 1 {
        assert(cells.drop_last() =~= Seq::<DynModel>::empty());
        let none = column_fields(component, cells.drop_last());
        assert(none =~= Seq::<Seq<char>>::empty());
        assert(merge_new(none, names.drop_last()) == none);
        assert(!none.contains(component));
        assert(merge_new(none, names) =~= seq![component]);
    } else {
        let rest = cells.drop_last();
        assert forall|r: int| 0 <= r < rest.len() implies !(#[trigger] rest[r] is Object) by {
            assert(rest[r] == cells[r]);
        }
        lemma_column_fields_flat(component, rest);
        let one = column_fields(component, rest);
        assert(merge_new(one, names.drop_last()) == one);
        assert(one[0] == component);
        assert(one.contains(component));
    }
}

/// Names that do not repeat are their own list of first occurrences.
pub proof fn lemma_merge_new_distinct(names: Seq<Seq<char>>, k: int)
    requires
        names.no_duplicates(),
        0 <= k <= names.len(),
    ensures
        merge_new(Seq::empty(), names.take(k)) == names.take(k),
    decreases k,
{
    if k > 0 {
        lemma_merge_new_distinct(names, k - 1);
        assert(names.take(k).drop_last() =~= names.take(k - 1));
        assert(names.take(k).last() == names[k - 1]);
        let shorter = names.take(k - 1);
        let last = names[k - 1];
        if shorter.contains(last) {
            let i = choose|i: int| 0 <= i < shorter.len() && shorter[i] == last;
            assert(names[i] == names[k - 1]);
        }
        assert(names.take(k - 1).push(names[k - 1]) =~= names.take(k));
    } else {
        assert(names.take(0) =~= Seq::<Seq<char>>::empty());
    }
}

/// The bytes that the `csv` crate writes for one record, where it can.
pub uninterp spec fn csv_record_bytes(record: Seq<Seq<char>>) -> Option<Seq<u8>>;

/// The first record of CSV data, where the `csv` crate can read it.
pub uninterp spec fn csv_headers_of(bytes: Seq<u8>) -> Option<Seq<Seq<char>>>;

/// The records of CSV data behind the first one, where the `csv` crate can
/// read them all.
pub uninterp spec fn csv_records_of(bytes: Seq<u8>) -> Option<Seq<Seq<Seq<char>>>>;

/// Whether a character is white space, by the standard library.
pub uninterp spec fn is_white_space(c: char) -> bool;

/// Appends one record to CSV data: a writer of the `csv` crate is made on
/// the buffer, `write_record` writes the record, and `into_inner` gives the
/// buffer back. What is appended depends on the record alone.
#[verifier::external_body]
fn csv_write_record(buffer: Vec<u8>, record: &Vec<String>) -> (r: Result<Vec<u8>, String>)
    ensures
        match r {
            Ok(out) => csv_record_bytes(record.deep_view()) matches Some(written) && out@
                == buffer@ + written,
            Err(_) => csv_record_bytes(record.deep_view()) is None,
        },
{
    let mut writer = csv::Writer::from_writer(buffer);
    writer.write_record(record).map_err(|e| e.to_string())?;
    writer.into_inner().map_err(|e| e.to_string())
}

/// The first record of CSV data: `headers` of a reader of the `csv` crate.
#[verifier::external_body]
fn csv_read_headers(bytes: &[u8]) -> (r: Result<Vec<String>, String>)
    ensures
        match r {
            Ok(headers) => csv_headers_of(bytes@) == Some(headers.deep_view()),
            Err(_) => csv_headers_of(bytes@) is None,
        },
{
    let mut reader = csv::Reader::from_reader(bytes);
    let headers = reader.headers().map_err(|e| e.to_string())?;
    Ok(headers.iter().map(String::from).collect())
}

/// The records of CSV data behind the first one: `into_records` of a reader
/// of the `csv` crate, which stops at the first record that it cannot read.
#[verifier::external_body]
fn csv_read_records(bytes: &[u8]) -> (r: Result<Vec<Vec<String>>, String>)
    ensures
        match r {
            Ok(records) => csv_records_of(bytes@) == Some(records.deep_view()),
            Err(_) => csv_records_of(bytes@) is None,
        },
{
    let reader = csv::Reader::from_reader(bytes);
    let mut out: Vec<Vec<String>> = Vec::new();
    for record in reader.into_records() {
        out.push(record.map_err(|e| e.to_string())?.iter().map(String::from).collect());
    }
    Ok(out)
}

/// `char::is_whitespace` of the standard library.
#[verifier::external_body]
fn char_is_whitespace(c: char) -> (r: bool)
    ensures
        r == is_white_space(c),
{
    c.is_whitespace()
}

/// Whether a text has nothing but white space.
pub open spec fn is_blank(text: Seq<char>) -> bool {
    forall|i: int| 0 <= i < text.len() ==> is_white_space(#[trigger] text[i])
}

/// The text of a cell: nothing for null, and else the JSON text of the value.
pub open spec fn text_of_cell(value: DynModel) -> Seq<char> {
    if value is Null {
        Seq::empty()
    } else {
        json_text(json_form(value))
    }
}

/// The cell that a text stands for: null for a blank text, the value of a
/// JSON text, and for any other text the text itself as a string.
pub open spec fn cell_of_text(text: Seq<char>) -> DynModel {
    if is_blank(text) {
        DynModel::Null
    } else {
        match json_parsed(text) {
            Some(value) => value,
            None => DynModel::String(text),
        }
    }
}

/// The text of a cell.
pub fn cell_to_text(value: &DynValue) -> (r: String)
    ensures
        r@ == text_of_cell(value@),
{
    if value.is_null() {
        String::new()
    } else {
        json_to_string(&to_json(value))
    }
}

/// The cell that a text stands for.
pub fn cell_from_text(text: &str) -> (r: DynValue)
    ensures
        r@ == cell_of_text(text@),
{
    let chars = chars_of(text);
    let mut blank = true;
    let mut i: usize = 0;
    while i < chars.len()
        invariant
            chars@ == text@,
            i <= chars.len(),
            blank == (forall|k: int| 0 <= k < i ==> is_white_space(#[trigger] text@[k])),
        decreases chars.len() - i,
    {
        if !char_is_whitespace(chars[i]) {
            blank = false;
        }
        i += 1;
    }
    if blank {
        return DynValue::Null;
    }
    match json_from_str(text) {
        Ok(v) => from_json(v),
        Err(_) => DynValue::String(String::from_str(text)),
    }
}

impl ColumnarModel {
    /// The record of the headers: `id`, then the header of each column.
    pub open spec fn header_record(self) -> Seq<Seq<char>> {
        seq!["id"@] + self.headers
    }

    /// The record of row `r`: the entity index, then the text of each cell.
    pub open spec fn row_record(self, r: int) -> Seq<Seq<char>> {
        seq![decimal(self.row_index[r] as nat)] + Seq::new(
            self.columns.len(),
            |c: int| text_of_cell(self.columns[c][r]),
        )
    }

    /// The records of the table: that of the headers, then one for each row.
    pub open spec fn records(self) -> Seq<Seq<Seq<char>>> {
        seq![self.header_record()] + Seq::new(
            self.row_index.len(),
            |r: int| self.row_record(r),
        )
    }
}

/// The CSV data of a list of records: what is written for each of them, one
/// behind the other. There is none where a record cannot be written.
pub open spec fn csv_bytes(records: Seq<Seq<Seq<char>>>) -> Option<Seq<u8>>
    decreases records.len(),
{
    if records.len() == 0 {
        Some(Seq::empty())
    } else {
        match (csv_bytes(records.drop_last()), csv_record_bytes(records.last())) {
            (Some(head), Some(last)) => Some(head + last),
            _ => None,
        }
    }
}

/// Whether a record fits under the headers: it has a field for each of
/// them, and the first is an entity index.
pub open spec fn record_fits(headers: Seq<Seq<char>>, record: Seq<Seq<char>>) -> bool {
    record.len() == headers.len() && parse_unsigned(record[0], u32::MAX as nat) is Some
}

/// Whether record `k` is the first that does not fit under the headers.
pub open spec fn is_first_misfit(
    headers: Seq<Seq<char>>,
    records: Seq<Seq<Seq<char>>>,
    k: int,
) -> bool {
    &&& 0 <= k < records.len()
    &&& !record_fits(headers, records[k])
    &&& forall|j: int| 0 <= j < k ==> record_fits(headers, #[trigger] records[j])
}

/// The first record that does not fit under the headers.
pub open spec fn first_misfit(headers: Seq<Seq<char>>, records: Seq<Seq<Seq<char>>>) -> int {
    choose|k: int| is_first_misfit(headers, records, k)
}

/// There is one first misfit at most.
pub proof fn lemma_first_misfit(headers: Seq<Seq<char>>, records: Seq<Seq<Seq<char>>>, k: int)
    requires
        is_first_misfit(headers, records, k),
    ensures
        first_misfit(headers, records) == k,
{
    let w = first_misfit(headers, records);
    assert(is_first_misfit(headers, records, w));
    if w < k {
        assert(record_fits(headers, records[w]));
    }
    if k < w {
        assert(record_fits(headers, records[k]));
    }
}

/// Why a record does not fit under the headers.
pub open spec fn misfit_error(headers: Seq<Seq<char>>, record: Seq<Seq<char>>, k: int) -> Seq<
    char,
> {
    if record.len() != headers.len() {
        "CSV record "@ + decimal(k as nat) + " has "@ + decimal(record.len()) + " fields, expected "@
            + decimal(headers.len())
    } else {
        "CSV record "@ + decimal(k as nat) + " has no entity index: '"@ + record[0] + "'"@
    }
}

/// The table that records stand for, under headers of which the first is
/// that of the entity index.
pub open spec fn table_of_records(
    headers: Seq<Seq<char>>,
    records: Seq<Seq<Seq<char>>>,
) -> ColumnarModel {
    ColumnarModel {
        headers: headers.skip(1),
        columns: Seq::new(
            (headers.len() - 1) as nat,
            |c: int| Seq::new(records.len(), |r: int| cell_of_text(records[r][c + 1])),
        ),
        row_index: Seq::new(
            records.len(),
            |r: int| parse_unsigned(records[r][0], u32::MAX as nat).unwrap() as u32,
        ),
    }
}

/// The table that CSV data stands for: its first record has to be one of
/// headers with `id` first, and every other record has to fit under it.
pub open spec fn csv_table_of(bytes: Seq<u8>) -> Option<ColumnarModel> {
    match (csv_headers_of(bytes), csv_records_of(bytes)) {
        (Some(headers), Some(records)) => if headers.len() > 0 && headers[0] == "id"@ && forall|
            k: int,
        |
            0 <= k < records.len() ==> record_fits(headers, #[trigger] records[k]) {
            Some(table_of_records(headers, records))
        } else {
            None
        },
        _ => None,
    }
}

/// Builds the table that the records of CSV data stand for. The first
/// header is that of the entity index, `id`; a record has to have a field
/// for each header, and an entity index in the first.
pub fn columnar_from_records(headers: Vec<String>, records: Vec<Vec<String>>) -> (r: Result<
    ColumnarCsv,
    String,
>)
    requires
        headers@.len() > 0,
        headers@[0]@ == "id"@,
    ensures
        match r {
            Ok(csv) => {
                &&& forall|k: int|
                    0 <= k < records@.len() ==> record_fits(
                        headers.deep_view(),
                        #[trigger] records.deep_view()[k],
                    )
                &&& csv@ == table_of_records(headers.deep_view(), records.deep_view())
                &&& csv@.columns_aligned()
            },
            Err(msg) => {
                let k = first_misfit(headers.deep_view(), records.deep_view());
                is_first_misfit(headers.deep_view(), records.deep_view(), k) && msg@
                    == misfit_error(headers.deep_view(), records.deep_view()[k], k)
            },
        },
{
    let ghost hs = headers.deep_view();
    let ghost rs = records.deep_view();
    let n = headers.len();
    let mut row_index: Vec<u32> = Vec::new();
    let mut k: usize = 0;
    while k < records.len()
        invariant
            hs == headers.deep_view(),
            rs == records.deep_view(),
            n == headers@.len(),
            n > 0,
            k <= records.len(),
            row_index@.len() == k,
            forall|j: int| 0 <= j < k ==> record_fits(hs, #[trigger] rs[j]),
            forall|j: int|
                0 <= j < k ==> row_index@[j] == parse_unsigned(rs[j][0], u32::MAX as nat).unwrap(),
        decreases records.len() - k,
    {
        let record = &records[k];
        assert(rs[k as int] == record.deep_view());
        if record.len() != n {
            let mut msg = String::from_str("CSV record ");
            msg.append(usize_to_decimal(k).as_str());
            msg.append(" has ");
            msg.append(usize_to_decimal(record.len()).as_str());
            msg.append(" fields, expected ");
            msg.append(usize_to_decimal(n).as_str());
            proof {
                assert(is_first_misfit(hs, rs, k as int));
                lemma_first_misfit(hs, rs, k as int);
                assert(msg@ =~= misfit_error(hs, rs[k as int], k as int));
            }
            return Err(msg);
        }
        assert(record.deep_view()[0] == record@[0]@);
        match parse_u32(record[0].as_str()) {
            Some(id) => {
                row_index.push(id);
            },
            None => {
                let mut msg = String::from_str("CSV record ");
                msg.append(usize_to_decimal(k).as_str());
                msg.append(" has no entity index: '");
                msg.append(record[0].as_str());
                msg.append("'");
                proof {
                    assert(is_first_misfit(hs, rs, k as int));
                    lemma_first_misfit(hs, rs, k as int);
                    assert(msg@ =~= misfit_error(hs, rs[k as int], k as int));
                }
                return Err(msg);
            },
        }
        k += 1;
    }
    let mut columns: Vec<Vec<DynValue>> = Vec::new();
    let mut c: usize = 1;
    while c < n
        invariant
            hs == headers.deep_view(),
            rs == records.deep_view(),
            n == headers@.len(),
            1 <= c <= n,
            columns@.len() == c - 1,
            forall|j: int| 0 <= j < records@.len() ==> record_fits(hs, #[trigger] rs[j]),
            forall|j: int|
                0 <= j < c - 1 ==> (#[trigger] columns@[j]).deep_view() == Seq::new(
                    rs.len(),
                    |r: int| cell_of_text(rs[r][j + 1]),
                ),
        decreases n - c,
    {
        let mut column: Vec<DynValue> = Vec::new();
        let mut row: usize = 0;
        while row < records.len()
            invariant
                hs == headers.deep_view(),
                rs == records.deep_view(),
                n == headers@.len(),
                1 <= c < n,
                row <= records.len(),
                forall|j: int| 0 <= j < records@.len() ==> record_fits(hs, #[trigger] rs[j]),
                column@.len() == row,
                forall|j: int|
                    0 <= j < row ==> (#[trigger] column@[j])@ == cell_of_text(rs[j][c as int]),
            decreases records.len() - row,
        {
            let record = &records[row];
            assert(rs[row as int] == record.deep_view());
            assert(record_fits(hs, rs[row as int]));
            assert(record.deep_view()[c as int] == record@[c as int]@);
            column.push(cell_from_text(record[c].as_str()));
            row += 1;
        }
        assert(column.deep_view() =~= Seq::new(rs.len(), |r: int| cell_of_text(rs[r][c as int])));
        columns.push(column);
        c += 1;
    }
    let mut names: Vec<String> = Vec::new();
    let mut h: usize = 1;
    while h < n
        invariant
            n == headers@.len(),
            1 <= h <= n,
            names@.len() == h - 1,
            forall|j: int| 0 <= j < h - 1 ==> (#[trigger] names@[j])@ == headers@[j + 1]@,
        decreases n - h,
    {
        names.push(headers[h].clone());
        h += 1;
    }
    let csv = ColumnarCsv { headers: names, columns, row_index };
    proof {
        let t = table_of_records(hs, rs);
        assert(csv@.headers =~= t.headers);
        assert(csv@.columns =~= t.columns);
        assert(csv@.row_index =~= t.row_index);
    }
    Ok(csv)
}

impl ColumnarCsv {
    /// The records of the table: that of the headers, `id` first, then one
    /// for each row, with the entity index and the text of each cell.
    pub fn to_records(&self) -> (r: Vec<Vec<String>>)
        requires
            self@.columns_aligned(),
        ensures
            r.deep_view() == self@.records(),
    {
        let mut out: Vec<Vec<String>> = Vec::new();
        let mut header: Vec<String> = Vec::new();
        header.push(String::from_str("id"));
        let mut c: usize = 0;
        while c < self.headers.len()
            invariant
                c <= self.headers.len(),
                header@.len() == c + 1,
                header@[0]@ == "id"@,
                forall|j: int| 0 <= j < c ==> (#[trigger] header@[j + 1])@ == self.headers@[j]@,
            decreases self.headers.len() - c,
        {
            header.push(self.headers[c].clone());
            c += 1;
        }
        assert(header.deep_view() =~= self@.header_record()) by {
            assert forall|j: int| 0 <= j < header@.len() implies header.deep_view()[j]
                == self@.header_record()[j] by {
                if j > 0 {
                    assert(header@[(j - 1) + 1]@ == self.headers@[j - 1]@);
                }
            }
        }
        out.push(header);
        let mut row: usize = 0;
        while row < self.row_index.len()
            invariant
                self@.columns_aligned(),
                row <= self.row_index.len(),
                out@.len() == row + 1,
                out@[0].deep_view() == self@.header_record(),
                forall|j: int|
                    0 <= j < row ==> (#[trigger] out@[j + 1]).deep_view() == self@.row_record(j),
            decreases self.row_index.len() - row,
        {
            let mut record: Vec<String> = Vec::new();
            record.push(u32_to_decimal(self.row_index[row]));
            let mut c: usize = 0;
            while c < self.columns.len()
                invariant
                    self@.columns_aligned(),
                    row < self.row_index.len(),
                    c <= self.columns.len(),
                    record@.len() == c + 1,
                    record@[0]@ == decimal(self.row_index@[row as int] as nat),
                    forall|j: int|
                        0 <= j < c ==> (#[trigger] record@[j + 1])@ == text_of_cell(
                            self@.columns[j][row as int],
                        ),
                decreases self.columns.len() - c,
            {
                assert(self@.columns[c as int].len() == self@.row_index.len());
                assert(self@.columns[c as int] == self.columns@[c as int].deep_view());
                record.push(cell_to_text(&self.columns[c][row]));
                c += 1;
            }
            assert(record.deep_view() =~= self@.row_record(row as int)) by {
                assert forall|j: int| 0 <= j < record@.len() implies record.deep_view()[j]
                    == self@.row_record(row as int)[j] by {
                    if j > 0 {
                        assert(record@[(j - 1) + 1]@ == text_of_cell(
                            self@.columns[j - 1][row as int],
                        ));
                    }
                }
            }
            out.push(record);
            row += 1;
        }
        assert(out.deep_view() =~= self@.records()) by {
            assert forall|j: int| 0 <= j < out@.len() implies out.deep_view()[j]
                == self@.records()[j] by {
                if j > 0 {
                    assert(out@[(j - 1) + 1].deep_view() == self@.row_record(j - 1));
                }
            }
        }
        out
    }

    /// The table as CSV data: a record of headers, `id` first, and a record
    /// for each row. A null cell is left empty; any other cell holds the JSON
    /// text of its value.
    pub fn to_csv_writer(&self) -> (r: Result<Vec<u8>, String>)
        requires
            self@.columns_aligned(),
        ensures
            match r {
                Ok(bytes) => csv_bytes(self@.records()) == Some(bytes@),
                Err(_) => csv_bytes(self@.records()) is None,
            },
    {
        let records = self.to_records();
        let ghost rs = records.deep_view();
        let mut bytes: Vec<u8> = Vec::new();
        let mut k: usize = 0;
        assert(rs.take(0) =~= Seq::empty());
        while k < records.len()
            invariant
                rs == records.deep_view(),
                rs == self@.records(),
                k <= records.len(),
                csv_bytes(rs.take(k as int)) == Some(bytes@),
            decreases records.len() - k,
        {
            proof {
                assert(rs.take(k + 1).drop_last() =~= rs.take(k as int));
                assert(rs.take(k + 1).last() == records@[k as int].deep_view());
            }
            match csv_write_record(bytes, &records[k]) {
                Ok(out) => {
                    bytes = out;
                },
                Err(reason) => {
                    proof {
                        assert(csv_record_bytes(rs.take(k + 1).last()) is None);
                        assert(csv_bytes(rs.take(k + 1)) is None);
                        lemma_csv_bytes_none(rs, k + 1);
                    }
                    return Err(reason);
                },
            }
            k += 1;
        }
        assert(rs.take(rs.len() as int) =~= rs);
        Ok(bytes)
    }

    /// The table as CSV data.
    pub fn to_csv(&self) -> (r: Result<Vec<u8>, String>)
        requires
            self@.columns_aligned(),
        ensures
            match r {
                Ok(bytes) => csv_bytes(self@.records()) == Some(bytes@),
                Err(_) => csv_bytes(self@.records()) is None,
            },
    {
        self.to_csv_writer()
    }

    /// Reads a table from CSV data. The data has to begin with a record of
    /// headers of which the first is `id`; an empty cell is null, and any
    /// other cell is read as JSON text, or taken as a string where it is none.
    pub fn from_csv_reader(bytes: &[u8]) -> (r: Result<ColumnarCsv, String>)
        ensures
            match csv_table_of(bytes@) {
                Some(table) => r matches Ok(csv) && csv@ == table && csv@.columns_aligned(),
                None => r is Err,
            },
            csv_headers_of(bytes@) is Some && (csv_headers_of(bytes@).unwrap().len() == 0
                || csv_headers_of(bytes@).unwrap()[0] != "id"@) ==> (r matches Err(msg) && msg@
                == "CSV data has no id column"@),
    {
        let headers = match csv_read_headers(bytes) {
            Ok(headers) => headers,
            Err(reason) => {
                return Err(reason);
            },
        };
        if headers.len() == 0 {
            return Err(String::from_str("CSV data has no id column"));
        }
        assert(headers.deep_view()[0] == headers@[0]@);
        if !str_eq(headers[0].as_str(), "id") {
            return Err(String::from_str("CSV data has no id column"));
        }
        let records = match csv_read_records(bytes) {
            Ok(records) => records,
            Err(reason) => {
                return Err(reason);
            },
        };
        let ghost hs = headers.deep_view();
        let ghost rs = records.deep_view();
        let r = columnar_from_records(headers, records);
        proof {
            if r is Err {
                let k = first_misfit(hs, rs);
                assert(!record_fits(hs, rs[k]));
            }
        }
        r
    }

    /// Reads a table from CSV data.
    pub fn from_csv(bytes: &[u8]) -> (r: Result<ColumnarCsv, String>)
        ensures
            match csv_table_of(bytes@) {
                Some(table) => r matches Ok(csv) && csv@ == table && csv@.columns_aligned(),
                None => r is Err,
            },
    {
        ColumnarCsv::from_csv_reader(bytes)
    }
}

/// Where a record cannot be written, the data cannot.
pub proof fn lemma_csv_bytes_none(records: Seq<Seq<Seq<char>>>, k: int)
    requires
        0 <= k <= records.len(),
        csv_bytes(records.take(k)) is None,
    ensures
        csv_bytes(records) is None,
    decreases records.len() - k,
{
    if k < records.len() {
        assert(records.take(k + 1).drop_last() =~= records.take(k));
        lemma_csv_bytes_none(records, k + 1);
    } else {
        assert(records.take(k) =~= records);
    }
}

} // verus!
