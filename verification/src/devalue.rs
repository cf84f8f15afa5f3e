//! The devalue serialisation used by Nuxt and Pinia: a flat array whose first
//! element is the root object, and in which the non-negative integers held by
//! objects and arrays are positions in the flat array.

use std::collections::HashSet;
use vstd::prelude::*;

use crate::json::{
    json_model, json_models, lemma_json_models, lemma_member_models, member_models, Json, JsonNum,
    JsonNumber, JsonValue,
};

verus! {

broadcast use vstd::std_specs::hash::group_hash_axioms;

/// The positions held by a set of `usize` positions, as integers.
pub open spec fn index_set(s: Set<usize>) -> Set<int> {
    s.map(|u: usize| u as int)
}

/// The number of positions in `0..n` that `visited` does not hold.
pub open spec fn unvisited_below(n: nat, visited: Set<int>) -> nat
    decreases n,
{
    if n == 0 {
        0
    } else {
        unvisited_below((n - 1) as nat, visited) + if visited.contains(n - 1) {
            0nat
        } else {
            1nat
        }
    }
}

/// Marking an unvisited position below `n` as visited leaves one position
/// fewer unvisited below `n`.
pub proof fn lemma_unvisited_insert(n: nat, visited: Set<int>, i: int)
    requires
        0 <= i,
        !visited.contains(i),
    ensures
        unvisited_below(n, visited.insert(i)) + (if i < n {
            1int
        } else {
            0int
        }) == unvisited_below(n, visited),
    decreases n,
{
    if n > 0 {
        lemma_unvisited_insert((n - 1) as nat, visited, i);
    }
}

/// The position that a member value refers to: a non-negative integer that
/// is a position of the flat array.
pub open spec fn reference_of(v: Json, len: nat) -> Option<int> {
    match v {
        Json::Number(JsonNum::PosInt(i)) => if i < len {
            Some(i as int)
        } else {
            None
        },
        _ => None,
    }
}

/// The value that position `index` of `flat` stands for, with the positions
/// in `visited` (those being resolved further up) read as `null`.
/// `None` when `index` is no position of `flat`.
pub open spec fn resolve(flat: Seq<Json>, index: int, visited: Set<int>) -> Option<Json>
    decreases unvisited_below(flat.len(), visited), 0int,
{
    if !(0 <= index < flat.len()) {
        None
    } else if visited.contains(index) {
        Some(Json::Null)
    } else {
        let inner = visited.insert(index);
        proof {
            lemma_unvisited_insert(flat.len(), visited, index);
        }
        Some(
            match flat[index] {
                Json::Object(members) => Json::Object(resolve_members(flat, members, inner)),
                Json::Array(items) => Json::Array(resolve_items(flat, items, inner)),
                other => other,
            },
        )
    }
}

/// A member of an object or an array once resolved: a reference is replaced
/// by what it refers to, anything else is kept.
pub open spec fn resolve_member(flat: Seq<Json>, v: Json, visited: Set<int>) -> Json
    decreases unvisited_below(flat.len(), visited), 1int,
{
    match reference_of(v, flat.len()) {
        Some(i) => match resolve(flat, i, visited) {
            Some(r) => r,
            None => Json::Null,
        },
        None => v,
    }
}

/// The members of an object, each value resolved.
pub open spec fn resolve_members(
    flat: Seq<Json>,
    members: Seq<(Seq<char>, Json)>,
    visited: Set<int>,
) -> Seq<(Seq<char>, Json)>
    decreases unvisited_below(flat.len(), visited), 2int,
{
    members.map_values(|m: (Seq<char>, Json)| (m.0, resolve_member(flat, m.1, visited)))
}

/// The elements of an array, each resolved.
pub open spec fn resolve_items(flat: Seq<Json>, items: Seq<Json>, visited: Set<int>) -> Seq<Json>
    decreases unvisited_below(flat.len(), visited), 2int,
{
    items.map_values(|v: Json| resolve_member(flat, v, visited))
}

/// The value that a devalue flat array stands for: its first element, resolved.
pub open spec fn devalue(flat: Seq<Json>) -> Option<Json> {
    if flat.len() == 0 {
        None
    } else {
        resolve(flat, 0, Set::empty())
    }
}

/// The number of member values of an object that are positions of a flat
/// array of length `len`.
pub open spec fn count_references(members: Seq<(Seq<char>, Json)>, len: nat) -> nat
    decreases members.len(),
{
    if members.len() == 0 {
        0
    } else {
        count_references(members.drop_last(), len) + if reference_of(
            members.last().1,
            len,
        ) is Some {
            1nat
        } else {
            0nat
        }
    }
}

/// An array looks like devalue output: at least two elements, the first a
/// non-empty object at least half of whose member values are positions of
/// the array.
pub open spec fn devalue_shaped(arr: Seq<Json>) -> bool {
    &&& arr.len() >= 2
    &&& arr[0] matches Json::Object(members)
    &&& members.len() > 0
    &&& 2 * count_references(members, arr.len()) >= members.len()
}

/// The model of an optional value.
pub open spec fn option_model(r: Option<JsonValue>) -> Option<Json> {
    match r {
        Some(v) => Some(v@),
        None => None,
    }
}

proof fn lemma_index_set_insert(s: Set<usize>, u: usize)
    ensures
        index_set(s.insert(u)) == index_set(s).insert(u as int),
        index_set(s).contains(u as int) == s.contains(u),
{
    assert(index_set(s.insert(u)) =~= index_set(s).insert(u as int)) by {
        assert forall|i: int| #[trigger] index_set(s).insert(u as int).contains(i) implies index_set(
            s.insert(u),
        ).contains(i) by {
            if i != u as int {
                let x = choose|x: usize| s.contains(x) && i == x as int;
                assert(s.insert(u).contains(x));
            } else {
                assert(s.insert(u).contains(u));
            }
        }
    }
    if s.contains(u) {
        assert(index_set(s).contains(u as int));
    }
}

/// Whether `arr` looks like the output of devalue.
pub fn is_devalue_format(arr: &[JsonValue]) -> (r: bool)
    ensures
        r == devalue_shaped(json_models(arr@)),
{
    proof {
        lemma_json_models(arr@);
    }
    if arr.len() < 2 {
        return false;
    }
    let first = match &arr[0] {
        JsonValue::Object(members) => members,
        _ => return false,
    };
    if first.len() == 0 {
        return false;
    }
    let ghost ms = member_models(first@);
    proof {
        lemma_member_models(first@);
    }
    let len = arr.len();
    let mut index_count: usize = 0;
    let mut total: usize = 0;
    while total < first.len()
        invariant
            total <= first.len(),
            len == arr@.len(),
            ms == member_models(first@),
            ms.len() == first@.len(),
            forall|i: int| 0 <= i < first@.len() ==> #[trigger] ms[i] == (first@[i].0@, json_model(first@[i].1)),
            index_count == count_references(ms.subrange(0, total as int), len as nat),
            index_count <= total,
        decreases first.len() - total,
    {
        assert(ms.subrange(0, total + 1).drop_last() =~= ms.subrange(0, total as int));
        if let JsonValue::Number(JsonNumber::PosInt(i)) = &first[total].1 {
            if *i < len as u64 {
                index_count = index_count + 1;
            }
        }
        total = total + 1;
    }
    assert(ms.subrange(0, total as int) =~= ms);
    index_count >= total - index_count
}

/// Turns a devalue flat array into the nested value it stands for.
/// `None` for an empty array.
pub fn deserialize_devalue(flat: &[JsonValue]) -> (r: Option<JsonValue>)
    ensures
        option_model(r) == devalue(json_models(flat@)),
{
    if flat.len() == 0 {
        proof {
            lemma_json_models(flat@);
        }
        return None;
    }
    let mut visited: HashSet<usize> = HashSet::new();
    proof {
        assert(index_set(visited@) =~= Set::<int>::empty());
    }
    resolve_value(flat, 0, &mut visited)
}

/// Resolves position `index` of `flat`; positions in `visited` are those
/// being resolved further up and read as `null`, which breaks cycles.
/// `visited` is the same on return as on entry.
pub fn resolve_value(flat: &[JsonValue], index: usize, visited: &mut HashSet<usize>) -> (r: Option<
    JsonValue,
>)
    ensures
        final(visited)@ == old(visited)@,
        option_model(r) == resolve(json_models(flat@), index as int, index_set(old(visited)@)),
    decreases unvisited_below(flat@.len() as nat, index_set(old(visited)@)), 0int,
{
    let ghost fm = json_models(flat@);
    let ghost vis = index_set(visited@);
    proof {
        lemma_json_models(flat@);
        lemma_index_set_insert(visited@, index);
    }
    if index >= flat.len() {
        return None;
    }
    if !visited.insert(index) {
        return Some(JsonValue::Null);
    }
    let ghost inner = index_set(visited@);
    proof {
        lemma_unvisited_insert(fm.len(), vis, index as int);
        assert(inner == vis.insert(index as int));
    }
    let result = match &flat[index] {
        JsonValue::Object(members) => {
            proof {
                lemma_member_models(members@);
            }
            let mut resolved: Vec<(String, JsonValue)> = Vec::new();
            let mut k: usize = 0;
            while k < members.len()
                invariant
                    k <= members.len(),
                    fm == json_models(flat@),
                    inner == index_set(visited@),
                    unvisited_below(fm.len(), inner) < unvisited_below(fm.len(), vis),
                    vis == index_set(old(visited)@),
                    fm.len() == flat@.len(),
                    visited@ == old(visited)@.insert(index),
                    !old(visited)@.contains(index),
                    resolved@.len() == k,
                    forall|j: int|
                        0 <= j < k ==> #[trigger] resolved@[j].0@ == members@[j].0@ && json_model(
                            resolved@[j].1,
                        ) == resolve_member(fm, json_model(members@[j].1), inner),
                decreases members.len() - k,
            {
                let v = resolve_member_value(flat, &members[k].1, visited);
                resolved.push((members[k].0.clone(), v));
                k = k + 1;
            }
            proof {
                lemma_member_models(resolved@);
                assert(member_models(resolved@) =~= resolve_members(
                    fm,
                    member_models(members@),
                    inner,
                ));
            }
            Some(JsonValue::Object(resolved))
        },
        JsonValue::Array(items) => {
            proof {
                lemma_json_models(items@);
            }
            let mut resolved: Vec<JsonValue> = Vec::new();
            let mut k: usize = 0;
            while k < items.len()
                invariant
                    k <= items.len(),
                    fm == json_models(flat@),
                    inner == index_set(visited@),
                    unvisited_below(fm.len(), inner) < unvisited_below(fm.len(), vis),
                    vis == index_set(old(visited)@),
                    fm.len() == flat@.len(),
                    visited@ == old(visited)@.insert(index),
                    !old(visited)@.contains(index),
                    resolved@.len() == k,
                    forall|j: int|
                        0 <= j < k ==> #[trigger] json_model(resolved@[j]) == resolve_member(
                            fm,
                            json_model(items@[j]),
                            inner,
                        ),
                decreases items.len() - k,
            {
                let v = resolve_member_value(flat, &items[k], visited);
                resolved.push(v);
                k = k + 1;
            }
            proof {
                lemma_json_models(resolved@);
                assert(json_models(resolved@) =~= resolve_items(fm, json_models(items@), inner));
            }
            Some(JsonValue::Array(resolved))
        },
        other => Some(other.duplicate()),
    };
    visited.remove(&index);
    proof {
        assert(visited@ =~= old(visited)@);
    }
    result
}

/// Resolves one member value of an object or array: a reference to a
/// position of `flat` becomes what that position stands for.
fn resolve_member_value(flat: &[JsonValue], v: &JsonValue, visited: &mut HashSet<usize>) -> (r:
    JsonValue)
    ensures
        final(visited)@ == old(visited)@,
        r@ == resolve_member(json_models(flat@), v@, index_set(old(visited)@)),
    decreases unvisited_below(flat@.len() as nat, index_set(old(visited)@)), 1int,
{
    proof {
        lemma_json_models(flat@);
    }
    match v {
        JsonValue::Number(JsonNumber::PosInt(i)) => {
            if *i < flat.len() as u64 {
                match resolve_value(flat, *i as usize, visited) {
                    Some(r) => r,
                    None => JsonValue::Null,
                }
            } else {
                v.duplicate()
            }
        },
        _ => v.duplicate(),
    }
}

/// A devalue flat array stands for a value exactly when it is not empty.
pub proof fn law_devalue_defined_iff_nonempty(flat: Seq<Json>)
    ensures
        devalue(flat) is Some <==> flat.len() > 0,
{
}

/// Resolving a position gives a value exactly when the position is one of
/// the flat array.
pub proof fn law_resolve_defined_iff_in_range(flat: Seq<Json>, index: int, visited: Set<int>)
    ensures
        resolve(flat, index, visited) is Some <==> 0 <= index < flat.len(),
{
}

/// A position being resolved further up reads as `null`: this is how cycles
/// are broken.
pub proof fn law_cycle_reads_null(flat: Seq<Json>, index: int, visited: Set<int>)
    requires
        0 <= index < flat.len(),
        visited.contains(index),
    ensures
        resolve(flat, index, visited) == Some(Json::Null),
{
}

/// Resolution keeps the shape of the element: an object stays an object with
/// the same keys in the same order, an array stays an array of the same
/// length, any other value is kept as it is.
pub proof fn law_resolve_keeps_shape(flat: Seq<Json>, index: int, visited: Set<int>)
    requires
        0 <= index < flat.len(),
        !visited.contains(index),
    ensures
        match flat[index] {
            Json::Object(members) => resolve(flat, index, visited) matches Some(
                Json::Object(resolved),
            ) && resolved.len() == members.len() && forall|k: int|
                0 <= k < members.len() ==> #[trigger] resolved[k].0 == members[k].0,
            Json::Array(items) => resolve(flat, index, visited) matches Some(Json::Array(resolved))
                && resolved.len() == items.len(),
            other => resolve(flat, index, visited) == Some(other),
        },
{
}

/// A member value that refers to no position of the flat array is kept as
/// it is.
pub proof fn law_non_reference_kept(flat: Seq<Json>, v: Json, visited: Set<int>)
    requires
        reference_of(v, flat.len()) is None,
    ensures
        resolve_member(flat, v, visited) == v,
{
}

/// A root object none of whose member values refers to a position of the
/// flat array stands for itself.
pub proof fn law_reference_free_root(flat: Seq<Json>)
    requires
        flat.len() > 0,
        flat[0] matches Json::Object(members) && forall|k: int|
            0 <= k < members.len() ==> reference_of(#[trigger] members[k].1, flat.len()) is None,
    ensures
        devalue(flat) == Some(flat[0]),
{
    if let Json::Object(members) = flat[0] {
        let inner = Set::<int>::empty().insert(0);
        assert(resolve_members(flat, members, inner) =~= members);
    }
}

/// An array that looks like devalue output always stands for a value.
pub proof fn law_shaped_arrays_deserialize(arr: Seq<Json>)
    requires
        devalue_shaped(arr),
    ensures
        devalue(arr) is Some,
{
}

/// A reference to a position that holds neither an object nor an array, and
/// is not being resolved further up, reads as what that position holds.
pub proof fn law_reference_to_plain_value(flat: Seq<Json>, i: u64, visited: Set<int>)
    requires
        i < flat.len(),
        !visited.contains(i as int),
        !(flat[i as int] is Object),
        !(flat[i as int] is Array),
    ensures
        resolve_member(flat, Json::Number(JsonNum::PosInt(i)), visited) == flat[i as int],
{
}

/// Inside an array being resolved, an element that refers to a position of
/// the flat array reads as what that position stands for, its own references
/// resolved in turn (with the array's position now being resolved further
/// up); any other element is kept.
pub proof fn law_array_elements_resolve_references(
    flat: Seq<Json>,
    index: int,
    visited: Set<int>,
    k: int,
)
    requires
        0 <= index < flat.len(),
        !visited.contains(index),
        flat[index] matches Json::Array(items) && 0 <= k < items.len(),
    ensures
        resolve(flat, index, visited) matches Some(Json::Array(resolved)) && resolved[k] == match (
            match flat[index] {
                Json::Array(items) => items[k],
                _ => Json::Null,
            }
        ) {
            Json::Number(JsonNum::PosInt(i)) => if i < flat.len() {
                resolve(flat, i as int, visited.insert(index))->0
            } else {
                Json::Number(JsonNum::PosInt(i))
            },
            other => other,
        },
{
}

/// Inside an object being resolved, a member value that refers to a
/// position of the flat array reads as what that position stands for, its
/// own references resolved in turn (with the object's position now being
/// resolved further up); any other member value is kept, and so is the key.
pub proof fn law_object_members_resolve_references(
    flat: Seq<Json>,
    index: int,
    visited: Set<int>,
    k: int,
)
    requires
        0 <= index < flat.len(),
        !visited.contains(index),
        flat[index] matches Json::Object(members) && 0 <= k < members.len(),
    ensures
        ({
            let member = match flat[index] {
                Json::Object(members) => members[k],
                _ => (Seq::empty(), Json::Null),
            };
            resolve(flat, index, visited) matches Some(Json::Object(resolved))
                && resolved[k].0 == member.0 && resolved[k].1 == match member.1 {
                Json::Number(JsonNum::PosInt(i)) => if i < flat.len() {
                    resolve(flat, i as int, visited.insert(index))->0
                } else {
                    member.1
                },
                other => other,
            }
        }),
{
}

/// Only member values that are non-negative integers below the length of
/// the flat array count as references: an object none of whose member values
/// is one (floats, negative numbers, strings and the like) counts none.
pub proof fn law_only_positions_count(members: Seq<(Seq<char>, Json)>, len: nat)
    requires
        forall|k: int|
            0 <= k < members.len() ==> !(#[trigger] members[k].1 matches Json::Number(
                JsonNum::PosInt(i),
            ) && i < len),
    ensures
        count_references(members, len) == 0,
    decreases members.len(),
{
    if members.len() > 0 {
        let p = members.drop_last();
        assert forall|k: int| 0 <= k < p.len() implies !(#[trigger] p[k].1 matches Json::Number(
            JsonNum::PosInt(i),
        ) && i < len) by {
            assert(p[k] == members[k]);
        }
        law_only_positions_count(p, len);
        assert(!(members[members.len() - 1].1 matches Json::Number(JsonNum::PosInt(i)) && i < len));
    }
}

/// When every member value is a position of the flat array, every one
/// counts.
pub proof fn law_all_positions_count(members: Seq<(Seq<char>, Json)>, len: nat)
    requires
        forall|k: int|
            0 <= k < members.len() ==> (#[trigger] members[k].1 matches Json::Number(
                JsonNum::PosInt(i),
            ) && i < len),
    ensures
        count_references(members, len) == members.len(),
    decreases members.len(),
{
    if members.len() > 0 {
        let p = members.drop_last();
        assert forall|k: int| 0 <= k < p.len() implies (#[trigger] p[k].1 matches Json::Number(
            JsonNum::PosInt(i),
        ) && i < len) by {
            assert(p[k] == members[k]);
        }
        law_all_positions_count(p, len);
        assert(members[members.len() - 1].1 matches Json::Number(JsonNum::PosInt(i)) && i < len);
    }
}

/// An array whose first element is an object without a single member value
/// that is a position of the array (say, a list of points with float
/// coordinates) does not look like devalue output.
pub proof fn law_arrays_without_positions_are_not_devalue(arr: Seq<Json>)
    requires
        arr.len() > 0,
        arr[0] matches Json::Object(members) && forall|k: int|
            0 <= k < members.len() ==> !(#[trigger] members[k].1 matches Json::Number(
                JsonNum::PosInt(i),
            ) && i < arr.len()),
    ensures
        !devalue_shaped(arr),
{
    if let Json::Object(members) = arr[0] {
        law_only_positions_count(members, arr.len());
    }
}

/// An array of at least two elements whose first element is a non-empty
/// object all of whose member values are positions of the array looks like
/// devalue output.
pub proof fn law_arrays_of_positions_are_devalue(arr: Seq<Json>)
    requires
        arr.len() >= 2,
        arr[0] matches Json::Object(members) && members.len() > 0 && forall|k: int|
            0 <= k < members.len() ==> (#[trigger] members[k].1 matches Json::Number(
                JsonNum::PosInt(i),
            ) && i < arr.len()),
    ensures
        devalue_shaped(arr),
{
    if let Json::Object(members) = arr[0] {
        law_all_positions_count(members, arr.len());
    }
}

} // verus!
