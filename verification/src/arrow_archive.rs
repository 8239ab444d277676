//! The names of typed columns: how the fields of a component type are named
//! in one wide table, and how a table is told apart by component type again.

use crate::dyn_value::{lemma_object_view, DynModel, DynValue};
use crate::schema::{strings_to_value, strings_value};
use crate::text::{str_eq, strip_prefix};
use vstd::prelude::*;
use vstd::string::*;

verus! {

/// The entity index of a row, as a column of its own.
#[derive(Debug, Clone, Copy, PartialEq, Eq, Structural)]
pub struct EntityID {
    pub id: u32,
}

impl Default for EntityID {
    fn default() -> (r: Self)
        ensures
            r.id == 0,
    {
        EntityID { id: 0 }
    }
}

/// Marks a conversion between archetype snapshots and typed columns.
#[derive(Debug, Clone, Copy, PartialEq, Eq, Structural)]
pub struct ArrowTableConverstion;

/// A field of the wide table: its name, and the component type that owns
/// it.
#[derive(Debug, Clone, PartialEq, Eq)]
pub struct MangledField {
    pub name: String,
    /// The `prefix` entry of the field's metadata: the component type that
    /// owns the field. A table from elsewhere may lack it.
    pub prefix: Option<String>,
}

/// The name that a field of a component type has in the wide table: the
/// name of the type for a field without a name, and else the name of the
/// type, a dot and the name of the field.
pub open spec fn mangled_name(owner: Seq<char>, field: Seq<char>) -> Seq<char> {
    if field.len() == 0 {
        owner
    } else {
        owner + seq!['.'] + field
    }
}

/// The component type that owns a field of the wide table: the one that its
/// metadata names, and else the one that its name is.
pub open spec fn owner_of(name: Seq<char>, prefix: Option<Seq<char>>) -> Seq<char> {
    match prefix {
        Some(p) => p,
        None => name,
    }
}

/// The name that a field of the wide table has within its component type:
/// none where the field bears the name of the type, what follows the name
/// of the type and a dot where it begins so, and else its whole name.
pub open spec fn unmangled_name(name: Seq<char>, prefix: Option<Seq<char>>) -> Seq<char> {
    let owner = owner_of(name, prefix);
    let head = owner + seq!['.'];
    if name == owner {
        Seq::empty()
    } else if head.is_prefix_of(name) {
        name.skip(head.len() as int)
    } else {
        name
    }
}

/// Names a field of a component type for the wide table, and records the
/// type as the owner of the field.
pub fn mangle_field(owner: &str, field: &str) -> (r: MangledField)
    ensures
        r.name@ == mangled_name(owner@, field@),
        r.prefix matches Some(p) && p@ == owner@,
{
    if field.unicode_len() == 0 {
        MangledField { name: String::from_str(owner), prefix: Some(String::from_str(owner)) }
    } else {
        let mut name = String::from_str(owner);
        name.append(".");
        name.append(field);
        proof {
            reveal_strlit(".");
            assert(name@ =~= owner@ + seq!['.'] + field@);
        }
        MangledField { name, prefix: Some(String::from_str(owner)) }
    }
}

/// Tells the component type and the field of a field of the wide table.
pub fn unmangle_field(field: &MangledField) -> (r: (String, String))
    ensures
        r.0@ == owner_of(
            field.name@,
            match field.prefix {
                Some(p) => Some(p@),
                None => None,
            },
        ),
        r.1@ == unmangled_name(
            field.name@,
            match field.prefix {
                Some(p) => Some(p@),
                None => None,
            },
        ),
{
    let owner = match &field.prefix {
        Some(p) => p.clone(),
        None => field.name.clone(),
    };
    if str_eq(field.name.as_str(), owner.as_str()) {
        let none = String::from_str("");
        proof {
            reveal_strlit("");
            assert(none@ =~= Seq::empty());
        }
        return (owner, none);
    }
    let mut head = owner.clone();
    head.append(".");
    proof {
        reveal_strlit(".");
        assert(head@ =~= owner@ + seq!['.']);
    }
    let name = match strip_prefix(field.name.as_str(), head.as_str()) {
        Some(rest) => rest,
        None => field.name.clone(),
    };
    (owner, name)
}

/// Whether a field of the wide table is the column of entity indices: it is
/// named `id`, and no component type owns it.
pub fn is_entity_column(field: &MangledField) -> (b: bool)
    ensures
        b == (field.name@ == "id"@ && field.prefix is None),
{
    field.prefix.is_none() && str_eq(field.name.as_str(), "id")
}

/// A field comes back from the wide table under its component type and its
/// own name, whether it has a name or not.
pub proof fn lemma_mangle_round_trip(owner: Seq<char>, field: Seq<char>)
    ensures
        owner_of(mangled_name(owner, field), Some(owner)) == owner,
        unmangled_name(mangled_name(owner, field), Some(owner)) == field,
{
    let name = mangled_name(owner, field);
    let head = owner + seq!['.'];
    if field.len() == 0 {
        assert(field =~= Seq::empty());
    } else {
        assert(name.len() > owner.len());
        assert(name.subrange(0, head.len() as int) =~= head);
        assert(name.skip(head.len() as int) =~= field);
    }
}

/// The map from each component type of a wide table to the names of its
/// fields there, with the column of entity indices first: what the schema
/// of the table records as its `type_mapping`.
pub open spec fn type_mapping(groups: Seq<(Seq<char>, Seq<Seq<char>>)>) -> DynModel {
    DynModel::Object(
        seq![("id"@, strings_value(seq!["id"@]))] + Seq::new(
            groups.len(),
            |i: int| (groups[i].0, strings_value(groups[i].1)),
        ),
    )
}

/// The `type_mapping` of a wide table, as a tree.
pub fn type_mapping_value(groups: &Vec<(String, Vec<String>)>) -> (r: DynValue)
    ensures
        r@ == type_mapping(groups.deep_view()),
{
    let mut fields: Vec<(String, DynValue)> = Vec::new();
    let mut id_names: Vec<String> = Vec::new();
    id_names.push(String::from_str("id"));
    assert(id_names.deep_view() =~= seq!["id"@]);
    fields.push((String::from_str("id"), strings_to_value(&id_names)));
    let mut i: usize = 0;
    while i < groups.len()
        invariant
            i <= groups.len(),
            fields@.len() == i + 1,
            fields@[0].0@ == "id"@,
            fields@[0].1@ == strings_value(seq!["id"@]),
            forall|k: int|
                0 <= k < i ==> (#[trigger] fields@[k + 1]).0@ == groups@[k].0@ && fields@[k + 1].1@
                    == strings_value(groups@[k].1.deep_view()),
        decreases groups.len() - i,
    {
        fields.push((groups[i].0.clone(), strings_to_value(&groups[i].1)));
        i += 1;
    }
    let r = DynValue::Object(fields);
    proof {
        lemma_object_view(r);
        let want = type_mapping(groups.deep_view())->Object_0;
        assert forall|k: int| 0 <= k < want.len() implies r@->Object_0[k] == want[k] by {
            if k > 0 {
                assert(fields@[(k - 1) + 1].0@ == groups@[k - 1].0@);
                assert(groups.deep_view()[k - 1] == (groups@[k - 1].0@, groups@[k - 1].1.deep_view()));
            }
        }
        assert(r@->Object_0 =~= want);
    }
    r
}

} // verus!
