//! How the directory keeps its resources: one shelf per category, in the
//! order in which the categories were first used.

use vstd::prelude::*;
use crate::model::has_resource;
use crate::records::{resource_views, Resource, ResourceView};

verus! {

/// One category with its resources, oldest first.
pub(crate) struct Shelf {
    pub(crate) name: String,
    pub(crate) resources: Vec<Resource>,
}

/// The shelf at position `i` is the one called `name`.
pub(crate) open spec fn shelf_at(shelves: Seq<Shelf>, name: Seq<char>, i: int) -> bool {
    0 <= i < shelves.len() && shelves[i].name@ == name
}

/// No two shelves have the same name.
pub(crate) open spec fn shelves_distinct(shelves: Seq<Shelf>) -> bool {
    forall|i: int, j: int|
        0 <= i < j < shelves.len() ==> (#[trigger] shelves[i]).name@ != (
        #[trigger] shelves[j]).name@
}

/// The shelves as a map from category to resources.
pub(crate) open spec fn shelf_map(shelves: Seq<Shelf>) -> Map<Seq<char>, Seq<ResourceView>> {
    Map::new(
        |name: Seq<char>| exists|i: int| shelf_at(shelves, name, i),
        |name: Seq<char>|
            resource_views(shelves[choose|i: int| shelf_at(shelves, name, i)].resources@),
    )
}

/// Each shelf is what the map holds under the shelf's name.
pub(crate) proof fn lemma_shelf_map(shelves: Seq<Shelf>, i: int)
    requires
        shelves_distinct(shelves),
        0 <= i < shelves.len(),
    ensures
        shelf_map(shelves).dom().contains(shelves[i].name@),
        shelf_map(shelves)[shelves[i].name@] == resource_views(shelves[i].resources@),
{
    let name = shelves[i].name@;
    assert(shelf_at(shelves, name, i));
    let k = choose|k: int| shelf_at(shelves, name, k);
    if k < i {
        assert(shelves[k].name@ != shelves[i].name@);
    } else if i < k {
        assert(shelves[i].name@ != shelves[k].name@);
    }
}

/// Changing the resources of one shelf changes the map under that name only.
pub(crate) proof fn lemma_shelf_map_update(before: Seq<Shelf>, after: Seq<Shelf>, i: int)
    requires
        shelves_distinct(before),
        0 <= i < before.len(),
        after.len() == before.len(),
        forall|j: int| 0 <= j < before.len() && j != i ==> after[j] == before[j],
        after[i].name@ == before[i].name@,
    ensures
        shelves_distinct(after),
        shelf_map(after) == shelf_map(before).insert(
            before[i].name@,
            resource_views(after[i].resources@),
        ),
{
    assert forall|a: int, b: int| 0 <= a < b < after.len() implies (#[trigger] after[a]).name@ != (
    #[trigger] after[b]).name@ by {
        assert(before[a].name@ != before[b].name@);
    }
    let lhs = shelf_map(after);
    let rhs = shelf_map(before).insert(before[i].name@, resource_views(after[i].resources@));
    assert forall|name: Seq<char>| #[trigger] lhs.dom().contains(name) implies rhs.dom().contains(
        name,
    ) && lhs[name] == rhs[name] by {
        let j = choose|j: int| shelf_at(after, name, j);
        lemma_shelf_map(after, j);
        assert(shelf_at(before, name, j));
        lemma_shelf_map(before, j);
        if j != i {
            lemma_shelf_map(before, i);
            if j < i {
                assert(before[j].name@ != before[i].name@);
            } else {
                assert(before[i].name@ != before[j].name@);
            }
        }
    }
    assert forall|name: Seq<char>| #[trigger] rhs.dom().contains(name) implies lhs.dom().contains(
        name,
    ) by {
        if name == before[i].name@ {
            assert(shelf_at(after, name, i));
        } else {
            let j = choose|j: int| shelf_at(before, name, j);
            assert(shelf_at(after, name, j));
        }
    }
    assert(lhs =~= rhs);
}

/// A shelf with a new name adds one entry to the map.
pub(crate) proof fn lemma_shelf_map_push(before: Seq<Shelf>, shelf: Shelf)
    requires
        shelves_distinct(before),
        forall|j: int| 0 <= j < before.len() ==> (#[trigger] before[j]).name@ != shelf.name@,
    ensures
        shelves_distinct(before.push(shelf)),
        !shelf_map(before).dom().contains(shelf.name@),
        shelf_map(before.push(shelf)) == shelf_map(before).insert(
            shelf.name@,
            resource_views(shelf.resources@),
        ),
{
    let after = before.push(shelf);
    let n = before.len() as int;
    assert forall|a: int, b: int| 0 <= a < b < after.len() implies (#[trigger] after[a]).name@ != (
    #[trigger] after[b]).name@ by {
        if b < n {
            assert(before[a].name@ != before[b].name@);
        } else {
            assert(before[a].name@ != shelf.name@);
        }
    }
    if shelf_map(before).dom().contains(shelf.name@) {
        let j = choose|j: int| shelf_at(before, shelf.name@, j);
        assert(before[j].name@ != shelf.name@);
    }
    let lhs = shelf_map(after);
    let rhs = shelf_map(before).insert(shelf.name@, resource_views(shelf.resources@));
    assert forall|name: Seq<char>| #[trigger] lhs.dom().contains(name) implies rhs.dom().contains(
        name,
    ) && lhs[name] == rhs[name] by {
        let j = choose|j: int| shelf_at(after, name, j);
        lemma_shelf_map(after, j);
        if j < n {
            assert(shelf_at(before, name, j));
            lemma_shelf_map(before, j);
            assert(before[j].name@ != shelf.name@);
        }
    }
    assert forall|name: Seq<char>| #[trigger] rhs.dom().contains(name) implies lhs.dom().contains(
        name,
    ) by {
        if name == shelf.name@ {
            assert(shelf_at(after, name, n));
        } else {
            let j = choose|j: int| shelf_at(before, name, j);
            assert(shelf_at(after, name, j));
        }
    }
    assert(lhs =~= rhs);
}

/// The position in `items` of the resource `id`, if there is one.
pub(crate) fn find_resource(items: &Vec<Resource>, id: &String) -> (r: Option<usize>)
    ensures
        match r {
            Some(i) => i < items@.len() && items@[i as int]@.id == id@ && has_resource(
                resource_views(items@),
                id@,
            ),
            None => !has_resource(resource_views(items@), id@),
        },
{
    let mut i: usize = 0;
    while i < items.len()
        invariant
            i <= items@.len(),
            forall|j: int| 0 <= j < i ==> resource_views(items@)[j].id != id@,
        decreases items.len() - i,
    {
        if items[i].id == *id {
            assert(resource_views(items@)[i as int].id == id@);
            return Some(i);
        }
        i += 1;
    }
    None
}

} // verus!
