use vstd::prelude::*;

use crate::constraints::{AliasPath, AliasSegment};
use crate::error::{LocationItem, LocationStep};
use crate::input::{InputArena, InputId, InputNode, InputValue};
use crate::reports::top_level_index;
use crate::text::{owned, str_equal};

verus! {

// ---------------------------------------------------------------------------
// Following an alias path through the input
// ---------------------------------------------------------------------------

/// The position of the first entry with the given name.
pub open spec fn first_named(names: Seq<Seq<char>>, name: Seq<char>) -> Option<nat>
    decreases names.len(),
{
    if names.len() == 0 {
        None
    } else if names[0] == name {
        Some(0)
    } else {
        match first_named(names.drop_first(), name) {
            Some(i) => Some(i + 1),
            None => None,
        }
    }
}

proof fn lemma_first_named(names: Seq<Seq<char>>, name: Seq<char>, i: int)
    requires
        0 <= i <= names.len(),
        forall|j: int| 0 <= j < i ==> names[j] != name,
    ensures
        i < names.len() && names[i] == name ==> first_named(names, name) == Some(i as nat),
        i == names.len() ==> first_named(names, name) is None,
    decreases i,
{
    if i > 0 {
        lemma_first_named(names.drop_first(), name, i - 1);
    }
}

/// The position of the first entry named `name`.
fn first_entry(entries: &[(String, InputId)], name: &str) -> (r: Option<usize>)
    ensures
        r matches Some(i) ==> first_named(entries@.map_values(|e: (String, InputId)| e.0@), name@) == Some(i as nat)
            && i < entries@.len(),
        r is None ==> first_named(entries@.map_values(|e: (String, InputId)| e.0@), name@) is None,
{
    let ghost names = entries@.map_values(|e: (String, InputId)| e.0@);
    let mut i: usize = 0;
    while i < entries.len()
        invariant
            i <= entries@.len(),
            names == entries@.map_values(|e: (String, InputId)| e.0@),
            forall|j: int| 0 <= j < i ==> names[j] != name@,
        decreases entries@.len() - i,
    {
        if str_equal(entries[i].0.as_str(), name) {
            proof {
                lemma_first_named(names, name@, i as int);
            }
            return Some(i);
        }
        i = i + 1;
    }
    proof {
        lemma_first_named(names, name@, i as int);
    }
    None
}

/// The input reached from `current` by following `path`: a field step
/// enters the first entry of that name of an object, an index step the item
/// at that position of a sequence; nothing when a step does not apply.
pub open spec fn spec_resolve(nodes: Seq<InputNode>, current: nat, path: Seq<AliasSegment>) -> Option<nat>
    decreases path.len(),
{
    if path.len() == 0 {
        Some(current)
    } else if current >= nodes.len() {
        None
    } else {
        match (path[0], nodes[current as int]) {
            (AliasSegment::Field(field), InputNode::Object { entries, .. }) => match first_named(
                entries.map_values(|e: (Seq<char>, nat)| e.0),
                field@,
            ) {
                Some(i) => spec_resolve(nodes, entries[i as int].1, path.drop_first()),
                None => None,
            },
            (AliasSegment::Index(k), InputNode::Sequence { items, .. }) => if k < items.len() {
                spec_resolve(nodes, items[k as int], path.drop_first())
            } else {
                None
            },
            _ => None,
        }
    }
}

/// Follows an alias path from `root` through the input.
pub fn resolve_alias(input: &InputArena, root: InputId, path: &AliasPath) -> (r: Option<InputId>)
    ensures
        match r {
            Some(id) => spec_resolve(input.spec_nodes(), root@, path.segments@) == Some(id@),
            None => spec_resolve(input.spec_nodes(), root@, path.segments@) is None,
        },
{
    let ghost nodes = input.spec_nodes();
    let ghost full = path.segments@;
    let mut current = root;
    let mut k: usize = 0;
    proof {
        assert(full.skip(0) =~= full);
    }
    while k < path.segments.len()
        invariant
            nodes == input.spec_nodes(),
            full == path.segments@,
            k <= full.len(),
            spec_resolve(nodes, root@, full) == spec_resolve(nodes, current@, full.skip(k as int)),
        decreases full.len() - k,
    {
        let ghost rest = full.skip(k as int);
        proof {
            assert(rest.drop_first() =~= full.skip(k + 1));
            assert(rest[0] == full[k as int]);
        }
        let node = match input.get(current) {
            Some(node) => node,
            None => {
                return None;
            },
        };
        current = match (path.segments[k], node) {
            (AliasSegment::Field(field), InputValue::Object { entries, .. }) => {
                proof {
                    assert(entries@.map_values(|e: (String, InputId)| e.0@) =~= node@->Object_entries.map_values(
                        |e: (Seq<char>, nat)| e.0,
                    ));
                }
                match first_entry(entries.as_slice(), field) {
                    Some(i) => entries[i].1,
                    None => {
                        return None;
                    },
                }
            },
            (AliasSegment::Index(index), InputValue::Sequence { items, .. }) => {
                if index < items.len() {
                    items[index]
                } else {
                    return None;
                }
            },
            _ => {
                return None;
            },
        };
        k = k + 1;
    }
    proof {
        assert(full.skip(k as int) =~= Seq::<AliasSegment>::empty());
    }
    Some(current)
}

// ---------------------------------------------------------------------------
// Where a field is found, and where its errors are reported
// ---------------------------------------------------------------------------

/// The location that an alias path names: its field steps by name and its
/// index steps by position.
pub open spec fn alias_location(path: Seq<AliasSegment>) -> Seq<LocationStep> {
    path.map_values(
        |segment: AliasSegment|
            match segment {
                AliasSegment::Field(name) => LocationStep::Field(name@),
                AliasSegment::Index(i) => LocationStep::Index(i),
            },
    )
}

/// The location of a field found through an alias: the alias path when
/// locations follow aliases, else the field's own name.
pub fn location_for_alias(location_by_alias: bool, field_name: &str, alias: &AliasPath) -> (r: Vec<LocationItem>)
    ensures
        r@.map_values(|item: LocationItem| item@) == if location_by_alias {
            alias_location(alias.segments@)
        } else {
            seq![LocationStep::Field(field_name@)]
        },
{
    if !location_by_alias {
        let r = vec![LocationItem::Field(owned(field_name))];
        proof {
            assert(r@.map_values(|item: LocationItem| item@) =~= seq![LocationStep::Field(field_name@)]);
        }
        return r;
    }
    let mut out: Vec<LocationItem> = Vec::new();
    let mut k: usize = 0;
    while k < alias.segments.len()
        invariant
            k <= alias.segments@.len(),
            out@.map_values(|item: LocationItem| item@) == alias_location(alias.segments@.take(k as int)),
        decreases alias.segments@.len() - k,
    {
        let item = match alias.segments[k] {
            AliasSegment::Field(name) => LocationItem::Field(owned(name)),
            AliasSegment::Index(i) => LocationItem::Index(i),
        };
        let ghost before = out@;
        out.push(item);
        proof {
            assert(alias.segments@.take(k + 1) =~= alias.segments@.take(k as int).push(alias.segments@[k as int]));
            assert(out@.map_values(|item: LocationItem| item@) =~= before.map_values(|item: LocationItem| item@).push(
                item@,
            ));
            assert(alias_location(alias.segments@.take(k + 1)) =~= alias_location(alias.segments@.take(k as int)).push(
                item@,
            ));
        }
        k = k + 1;
    }
    proof {
        assert(alias.segments@.take(k as int) =~= alias.segments@);
    }
    out
}

/// The location reported for a missing field: the first alias's first
/// field when locations follow aliases, else the field's own name.
pub fn missing_location(location_by_alias: bool, field_name: &str, aliases: &[AliasPath]) -> (r: LocationItem)
    ensures
        r@ == if location_by_alias && aliases@.len() > 0 && aliases@[0].segments@.len() > 0
            && aliases@[0].segments@[0] is Field {
            LocationStep::Field(aliases@[0].segments@[0]->Field_0@)
        } else {
            LocationStep::Field(field_name@)
        },
{
    if location_by_alias && aliases.len() > 0 && aliases[0].segments.len() > 0 {
        if let AliasSegment::Field(name) = aliases[0].segments[0] {
            return LocationItem::Field(owned(name));
        }
    }
    LocationItem::Field(owned(field_name))
}

/// The position of the entry that an alias path's first step names, when
/// that step is a field.
pub open spec fn alias_index(path: Seq<AliasSegment>, names: Seq<Seq<char>>) -> Option<nat> {
    if path.len() > 0 && path[0] is Field {
        first_named(names, path[0]->Field_0@)
    } else {
        None
    }
}

/// An alias that finds the field: its path leads somewhere in the input and
/// its first step names an entry of the model's input.
pub open spec fn alias_hits(nodes: Seq<InputNode>, root: nat, path: Seq<AliasSegment>, names: Seq<Seq<char>>) -> bool {
    spec_resolve(nodes, root, path) is Some && alias_index(path, names) is Some
}

/// The position of the first alias that finds the field.
pub open spec fn first_hit(
    nodes: Seq<InputNode>,
    root: nat,
    aliases: Seq<Seq<AliasSegment>>,
    names: Seq<Seq<char>>,
) -> Option<nat>
    decreases aliases.len(),
{
    if aliases.len() == 0 {
        None
    } else if alias_hits(nodes, root, aliases[0], names) {
        Some(0)
    } else {
        match first_hit(nodes, root, aliases.drop_first(), names) {
            Some(j) => Some(j + 1),
            None => None,
        }
    }
}

proof fn lemma_first_hit(
    nodes: Seq<InputNode>,
    root: nat,
    aliases: Seq<Seq<AliasSegment>>,
    names: Seq<Seq<char>>,
    j: int,
)
    requires
        0 <= j <= aliases.len(),
        forall|k: int| 0 <= k < j ==> !alias_hits(nodes, root, #[trigger] aliases[k], names),
    ensures
        j < aliases.len() && alias_hits(nodes, root, aliases[j], names) ==> first_hit(nodes, root, aliases, names)
            == Some(j as nat),
        j == aliases.len() ==> first_hit(nodes, root, aliases, names) is None,
    decreases j,
{
    if j > 0 {
        let rest = aliases.drop_first();
        assert forall|k: int| 0 <= k < j - 1 implies !alias_hits(nodes, root, #[trigger] rest[k], names) by {
            assert(rest[k] == aliases[k + 1]);
        }
        lemma_first_hit(nodes, root, rest, names, j - 1);
    }
}

/// Finds a model's field in its input: through the first of its aliases
/// whose path leads somewhere and whose first step names an entry, with the
/// location that alias gives; else, when the field has no alias or may be
/// populated by name, the first entry with the field's name. Gives the
/// value, the entry's position and the location.
pub fn select_field(
    input: &InputArena,
    root: InputId,
    entries: &[(String, InputId)],
    aliases: &[AliasPath],
    populate_by_name: bool,
    location_by_alias: bool,
    field_name: &str,
) -> (r: Option<(InputId, usize, Vec<LocationItem>)>)
    ensures
        ({
            let nodes = input.spec_nodes();
            let names = entries@.map_values(|e: (String, InputId)| e.0@);
            let paths = aliases@.map_values(|a: AliasPath| a.segments@);
            match first_hit(nodes, root@, paths, names) {
                Some(j) => r matches Some((value, index, location)) && spec_resolve(nodes, root@, paths[j as int])
                    == Some(value@) && alias_index(paths[j as int], names) == Some(index as nat)
                    && location@.map_values(|item: LocationItem| item@) == (if location_by_alias {
                    alias_location(paths[j as int])
                } else {
                    seq![LocationStep::Field(field_name@)]
                }),
                None => if aliases@.len() == 0 || populate_by_name {
                    match first_named(names, field_name@) {
                        Some(i) => r matches Some((value, index, location)) && index == i && value
                            == entries@[i as int].1 && location@.map_values(|item: LocationItem| item@)
                            == seq![LocationStep::Field(field_name@)],
                        None => r is None,
                    }
                } else {
                    r is None
                },
            }
        }),
{
    let ghost nodes = input.spec_nodes();
    let ghost names = entries@.map_values(|e: (String, InputId)| e.0@);
    let ghost paths = aliases@.map_values(|a: AliasPath| a.segments@);
    let mut j: usize = 0;
    while j < aliases.len()
        invariant
            j <= aliases@.len(),
            nodes == input.spec_nodes(),
            names == entries@.map_values(|e: (String, InputId)| e.0@),
            paths == aliases@.map_values(|a: AliasPath| a.segments@),
            forall|k: int| 0 <= k < j ==> !alias_hits(nodes, root@, #[trigger] paths[k], names),
        decreases aliases@.len() - j,
    {
        let alias = &aliases[j];
        let ghost path = alias.segments@;
        assert(paths[j as int] == path);
        let value = resolve_alias(input, root, alias);
        let index = top_level_index(alias, entries);
        proof {
            if path.len() > 0 && path[0] is Field {
                match index {
                    Some(i) => {
                        assert forall|k: int| 0 <= k < i implies names[k] != path[0]->Field_0@ by {
                            assert(names[k] == entries@[k].0@);
                        }
                        assert(names[i as int] == entries@[i as int].0@);
                        lemma_first_named(names, path[0]->Field_0@, i as int);
                    },
                    None => {
                        assert forall|k: int| 0 <= k < names.len() implies names[k] != path[0]->Field_0@ by {
                            assert(names[k] == entries@[k].0@);
                        }
                        lemma_first_named(names, path[0]->Field_0@, names.len() as int);
                    },
                }
            }
        }
        if let Some(found) = value {
            if let Some(position) = index {
                proof {
                    lemma_first_hit(nodes, root@, paths, names, j as int);
                }
                return Some((found, position, location_for_alias(location_by_alias, field_name, alias)));
            }
        }
        j = j + 1;
    }
    proof {
        lemma_first_hit(nodes, root@, paths, names, j as int);
    }
    if aliases.len() == 0 || populate_by_name {
        match first_entry(entries, field_name) {
            Some(i) => {
                let location = vec![LocationItem::Field(owned(field_name))];
                proof {
                    assert(location@.map_values(|item: LocationItem| item@) =~= seq![LocationStep::Field(field_name@)]);
                }
                Some((entries[i].1, i, location))
            },
            None => None,
        }
    } else {
        None
    }
}

} // verus!
