//! What the operations of the directory imply for one another, stated over
//! the models that their contracts use.

use vstd::prelude::*;
use crate::records::{is_match, user_valid, user_views, ResourceView, User, UserView};
use crate::model::{
    has_resource, has_user, matches_of, resource_index, shelf_of, shelf_valid, user_index,
    users_valid,
};
use crate::store::SkillExchange;

verus! {

/// A valid user filed under an identifier that was not in use is found
/// under it right away, at the end of the directory, which stays valid;
/// every user that was there before is still found.
pub proof fn lemma_added_user_found(users: Seq<UserView>, u: UserView)
    requires
        users_valid(users),
        user_valid(u),
        !has_user(users, u.id),
    ensures
        ({
            let after = users.push(u);
            &&& users_valid(after)
            &&& has_user(after, u.id)
            &&& after[user_index(after, u.id)] == u
            &&& forall|id: Seq<char>| has_user(users, id) ==> #[trigger] has_user(after, id)
        }),
{
    let after = users.push(u);
    let n = users.len() as int;
    assert(after[n].id == u.id);
    assert forall|i: int, j: int| 0 <= i < j < after.len() implies (#[trigger] after[i]).id != (
    #[trigger] after[j]).id by {
        if j < n {
            assert(users[i].id != users[j].id);
        } else {
            assert(users[i].id != u.id);
        }
    }
    let k = user_index(after, u.id);
    if k < n {
        assert(users[k].id != u.id);
    }
    assert forall|id: Seq<char>| has_user(users, id) implies #[trigger] has_user(after, id) by {
        let i = user_index(users, id);
        assert(after[i].id == id);
    }
}

/// After a user has been replaced by `u`, which keeps the identifier, a
/// lookup of that identifier finds exactly `u`: both sets are the new ones.
/// Every other user is as before, every identifier that was in use still
/// is, and the directory is still valid.
pub proof fn lemma_update_then_read(users: Seq<UserView>, id: Seq<char>, u: UserView)
    requires
        users_valid(users),
        has_user(users, id),
        user_valid(u),
        u.id == id,
    ensures
        ({
            let after = users.update(user_index(users, id), u);
            &&& users_valid(after)
            &&& has_user(after, id)
            &&& after[user_index(after, id)] == u
            &&& forall|j: int|
                0 <= j < users.len() && j != user_index(users, id) ==> #[trigger] after[j]
                    == users[j]
            &&& forall|other: Seq<char>|
                has_user(users, other) ==> #[trigger] has_user(after, other)
        }),
{
    let at = user_index(users, id);
    let after = users.update(at, u);
    assert(after[at].id == id);
    assert forall|other: Seq<char>| has_user(users, other) implies #[trigger] has_user(
        after,
        other,
    ) by {
        let i = user_index(users, other);
        assert(after[i].id == other);
    }
    assert forall|i: int, j: int| 0 <= i < j < after.len() implies (#[trigger] after[i]).id != (
    #[trigger] after[j]).id by {
        assert(users[i].id != users[j].id);
    }
    let k = user_index(after, id);
    if k < at {
        assert(after[k].id != after[at].id);
    } else if at < k {
        assert(after[at].id != after[k].id);
    }
}

/// The matches of a requester are exactly the users of the directory that
/// are not the requester and teach at least one skill the requester wants.
/// So whether one user is a match for another depends on the first one's
/// skills and the second one's wants only, not the other way round.
pub proof fn lemma_matches_exact(users: Seq<UserView>, id: Seq<char>, u: UserView)
    ensures
        matches_of(users, id).contains(u) <==> users.contains(u) && is_match(
            users[user_index(users, id)],
            u,
        ),
{
    let requester = users[user_index(users, id)];
    let pred = |x: UserView| is_match(requester, x);
    let found = users.filter(pred);
    if found.contains(u) {
        users.lemma_filter_contains_rev(pred, u);
        let i = choose|i: int| 0 <= i < found.len() && found[i] == u;
        users.lemma_filter_pred(pred, i);
    }
    if users.contains(u) && is_match(requester, u) {
        let i = choose|i: int| 0 <= i < users.len() && users[i] == u;
        users.lemma_filter_contains(pred, i);
    }
}

/// A resource that has just been filed is the last one listed under its
/// category; what was listed there before is still there, in order.
pub proof fn lemma_added_resource_listed(
    resources: Map<Seq<char>, Seq<ResourceView>>,
    r: ResourceView,
)
    ensures
        ({
            let before = shelf_of(resources, r.category);
            let after = resources.insert(r.category, before.push(r));
            &&& after.dom().contains(r.category)
            &&& after[r.category].contains(r)
            &&& after[r.category].last() == r
            &&& after[r.category].drop_last() == before
        }),
{
    let before = shelf_of(resources, r.category);
    assert(before.push(r)[before.len() as int] == r);
    assert(before.push(r).drop_last() =~= before);
}

/// Deleting the resource `id` from a valid category takes out exactly one
/// resource, the one with that identifier; those before it keep their
/// places and those after it move up by one, in order.
pub proof fn lemma_delete_keeps_order(category: Seq<char>, shelf: Seq<ResourceView>, id: Seq<char>)
    requires
        shelf_valid(category, shelf),
        has_resource(shelf, id),
    ensures
        ({
            let k = resource_index(shelf, id);
            let after = shelf.remove(k);
            &&& after.len() == shelf.len() - 1
            &&& !has_resource(after, id)
            &&& forall|j: int| 0 <= j < k ==> #[trigger] after[j] == shelf[j]
            &&& forall|j: int| k <= j < after.len() ==> #[trigger] after[j] == shelf[j + 1]
        }),
{
    let k = resource_index(shelf, id);
    let after = shelf.remove(k);
    if has_resource(after, id) {
        let j = choose|j: int| 0 <= j < after.len() && #[trigger] after[j].id == id;
        let a = if j < k { j } else { j + 1 };
        assert(after[j] == shelf[a]);
        if a < k {
            assert(shelf[a].id != shelf[k].id);
        } else {
            assert(shelf[k].id != shelf[a].id);
        }
    }
}

/// Reading does not depend on how often one reads: any two answers to
/// whether a user exists agree, and any two listings of the users of one
/// directory show the same users in the same order.
pub proof fn lemma_reads_repeatable(
    directory: SkillExchange,
    id: Seq<char>,
    first_answer: bool,
    second_answer: bool,
    first_listing: Seq<User>,
    second_listing: Seq<User>,
)
    requires
        first_answer == has_user(directory.users(), id),
        second_answer == has_user(directory.users(), id),
        user_views(first_listing) == directory.users(),
        user_views(second_listing) == directory.users(),
    ensures
        first_answer == second_answer,
        user_views(first_listing) == user_views(second_listing),
{
}

} // verus!
