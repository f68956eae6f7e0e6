//! The directory as mathematics: users as a sequence, resources as a map
//! from category to sequence, and what it means for them to be valid.

use vstd::prelude::*;
use crate::records::{resource_valid, user_valid, is_match, ResourceView, UserView};
use crate::skill_set::tag_views;

verus! {

/// Some user in `users` has the identifier `id`.
pub open spec fn has_user(users: Seq<UserView>, id: Seq<char>) -> bool {
    exists|i: int| 0 <= i < users.len() && #[trigger] users[i].id == id
}

/// The position in `users` of the user with identifier `id`, if there is one.
pub open spec fn user_index(users: Seq<UserView>, id: Seq<char>) -> int {
    choose|i: int| 0 <= i < users.len() && #[trigger] users[i].id == id
}

/// No two users share an identifier, and none has an empty set.
pub open spec fn users_valid(users: Seq<UserView>) -> bool {
    &&& forall|i: int| 0 <= i < users.len() ==> user_valid(#[trigger] users[i])
    &&& forall|i: int, j: int|
        0 <= i < j < users.len() ==> (#[trigger] users[i]).id != (#[trigger] users[j]).id
}

/// The users that match the one with identifier `id`, in directory order.
pub open spec fn matches_of(users: Seq<UserView>, id: Seq<char>) -> Seq<UserView> {
    users.filter(|u: UserView| is_match(users[user_index(users, id)], u))
}

/// Some resource in `shelf` has the identifier `id`.
pub open spec fn has_resource(shelf: Seq<ResourceView>, id: Seq<char>) -> bool {
    exists|i: int| 0 <= i < shelf.len() && #[trigger] shelf[i].id == id
}

/// The position in `shelf` of the resource with identifier `id`, if there
/// is one.
pub open spec fn resource_index(shelf: Seq<ResourceView>, id: Seq<char>) -> int {
    choose|i: int| 0 <= i < shelf.len() && #[trigger] shelf[i].id == id
}

/// The resources filed under `category`; none where the category is unknown.
pub open spec fn shelf_of(
    resources: Map<Seq<char>, Seq<ResourceView>>,
    category: Seq<char>,
) -> Seq<ResourceView> {
    if resources.dom().contains(category) {
        resources[category]
    } else {
        Seq::empty()
    }
}

/// Every resource of `shelf` is complete and filed under `category`, and no
/// two of them share an identifier.
pub open spec fn shelf_valid(category: Seq<char>, shelf: Seq<ResourceView>) -> bool {
    &&& forall|i: int|
        0 <= i < shelf.len() ==> resource_valid(#[trigger] shelf[i]) && shelf[i].category
            == category
    &&& forall|i: int, j: int|
        0 <= i < j < shelf.len() ==> (#[trigger] shelf[i]).id != (#[trigger] shelf[j]).id
}

/// Every category's resources are valid for it.
pub open spec fn resources_valid(resources: Map<Seq<char>, Seq<ResourceView>>) -> bool {
    forall|c: Seq<char>| #[trigger] resources.dom().contains(c) ==> shelf_valid(c, resources[c])
}

/// The resource that `add_resource` files for the given inputs.
pub open spec fn new_resource(
    id: Seq<char>,
    link: Seq<char>,
    category: Seq<char>,
    added_by: Seq<char>,
) -> ResourceView {
    ResourceView { id, link, category, added_by }
}

/// The user that `add_user` files for the given inputs.
pub open spec fn new_user(id: Seq<char>, skills: Seq<String>, wants: Seq<String>) -> UserView {
    UserView {
        id,
        skills: tag_views(skills).to_set(),
        wants_to_learn: tag_views(wants).to_set(),
    }
}

/// In a valid category the resource at position `i` is the one that its
/// identifier finds.
pub proof fn lemma_resource_index(category: Seq<char>, shelf: Seq<ResourceView>, i: int)
    requires
        shelf_valid(category, shelf),
        0 <= i < shelf.len(),
    ensures
        has_resource(shelf, shelf[i].id),
        resource_index(shelf, shelf[i].id) == i,
{
    let k = resource_index(shelf, shelf[i].id);
    assert(shelf[i].id == shelf[i].id);
    if k < i {
        assert(shelf[k].id != shelf[i].id);
    } else if i < k {
        assert(shelf[i].id != shelf[k].id);
    }
}

/// A valid category stays valid when a complete resource of that category
/// with an unused identifier is put at its end.
pub proof fn lemma_shelf_push_valid(category: Seq<char>, shelf: Seq<ResourceView>, r: ResourceView)
    requires
        shelf_valid(category, shelf),
        resource_valid(r),
        r.category == category,
        !has_resource(shelf, r.id),
    ensures
        shelf_valid(category, shelf.push(r)),
{
    let after = shelf.push(r);
    assert forall|i: int, j: int| 0 <= i < j < after.len() implies (#[trigger] after[i]).id != (
    #[trigger] after[j]).id by {
        if j < shelf.len() {
            assert(shelf[i].id != shelf[j].id);
        } else {
            assert(shelf[i].id != r.id);
        }
    }
}

/// A valid category stays valid when one resource is taken out.
pub proof fn lemma_shelf_remove_valid(category: Seq<char>, shelf: Seq<ResourceView>, k: int)
    requires
        shelf_valid(category, shelf),
        0 <= k < shelf.len(),
    ensures
        shelf_valid(category, shelf.remove(k)),
{
    let after = shelf.remove(k);
    assert forall|i: int| 0 <= i < after.len() implies resource_valid(#[trigger] after[i])
        && after[i].category == category by {
        let a = if i < k { i } else { i + 1 };
        assert(after[i] == shelf[a]);
    }
    assert forall|i: int, j: int| 0 <= i < j < after.len() implies (#[trigger] after[i]).id != (
    #[trigger] after[j]).id by {
        let a = if i < k { i } else { i + 1 };
        let b = if j < k { j } else { j + 1 };
        assert(shelf[a].id != shelf[b].id);
    }
}

/// In a valid directory the user at position `i` is the one that its
/// identifier finds.
pub proof fn lemma_user_index(users: Seq<UserView>, i: int)
    requires
        users_valid(users),
        0 <= i < users.len(),
    ensures
        has_user(users, users[i].id),
        user_index(users, users[i].id) == i,
{
    let k = user_index(users, users[i].id);
    assert(users[i].id == users[i].id);
    if k < i {
        assert(users[k].id != users[i].id);
    } else if i < k {
        assert(users[i].id != users[k].id);
    }
}

/// A user exists as soon as it has been added.
pub proof fn lemma_pushed_user_exists(users: Seq<UserView>, u: UserView)
    ensures
        has_user(users.push(u), u.id),
{
    assert(users.push(u)[users.len() as int].id == u.id);
}

} // verus!
