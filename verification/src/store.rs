//! The directory itself: every user and every resource, with the operations
//! that change it and the queries that read it.
//!
//! Users are kept, listed and matched in the order in which they were added.
//! A category comes into being with its first resource and stays, possibly
//! empty, once its resources are deleted.

use vstd::prelude::*;
use crate::error::Error;
use crate::ident::generate_unique_id;
use crate::model::{
    has_resource, has_user, lemma_pushed_user_exists, lemma_resource_index,
    lemma_shelf_push_valid, lemma_shelf_remove_valid, lemma_user_index, matches_of, new_resource,
    new_user, resource_index, resources_valid, shelf_of, user_index, users_valid,
};
use crate::records::{
    is_match, resource_valid, resource_views, user_views, Resource, ResourceView, User, UserView,
};
use crate::shelves::{
    find_resource, lemma_shelf_map, lemma_shelf_map_push, lemma_shelf_map_update, shelf_at,
    shelf_map, shelves_distinct, Shelf,
};
use crate::skill_set::{tag_views, SkillSet};

verus! {

/// The directory: users in the order they were added, and resources by
/// category in the order they were added.
pub struct SkillExchange {
    users: Vec<User>,
    shelves: Vec<Shelf>,
}

impl Default for SkillExchange {
    /// An empty directory.
    fn default() -> (s: SkillExchange)
        ensures
            s.wf(),
            s.users() == Seq::<UserView>::empty(),
            s.resources() == Map::<Seq<char>, Seq<ResourceView>>::empty(),
    {
        SkillExchange::new()
    }
}

impl SkillExchange {
    /// The users, in the order in which they were added.
    pub closed spec fn users(&self) -> Seq<UserView> {
        user_views(self.users@)
    }

    /// The resources of each category that was ever used, oldest first.
    pub closed spec fn resources(&self) -> Map<Seq<char>, Seq<ResourceView>> {
        shelf_map(self.shelves@)
    }

    /// What holds of the representation between operations.
    pub closed spec fn inv(&self) -> bool {
        &&& forall|i: int| 0 <= i < self.users@.len() ==> (#[trigger] self.users@[i]).wf()
        &&& shelves_distinct(self.shelves@)
    }

    /// The directory is consistent: identifiers are unique and no record
    /// has an empty field.
    pub open spec fn wf(&self) -> bool {
        self.inv() && users_valid(self.users()) && resources_valid(self.resources())
    }

    /// An empty directory.
    pub fn new() -> (s: SkillExchange)
        ensures
            s.wf(),
            s.users() == Seq::<UserView>::empty(),
            s.resources() == Map::<Seq<char>, Seq<ResourceView>>::empty(),
    {
        let s = SkillExchange { users: Vec::new(), shelves: Vec::new() };
        assert(s.users() =~= Seq::<UserView>::empty());
        assert(s.resources() =~= Map::<Seq<char>, Seq<ResourceView>>::empty());
        s
    }

    /// The position of the shelf of `category`, if there is one.
    fn find_shelf(&self, category: &String) -> (r: Option<usize>)
        requires
            self.inv(),
        ensures
            match r {
                Some(i) => i < self.shelves@.len() && self.shelves@[i as int].name@ == category@
                    && self.resources().dom().contains(category@) && self.resources()[category@]
                    == resource_views(self.shelves@[i as int].resources@),
                None => !self.resources().dom().contains(category@) && forall|j: int|
                    0 <= j < self.shelves@.len() ==> (#[trigger] self.shelves@[j]).name@
                        != category@,
            },
    {
        let mut i: usize = 0;
        while i < self.shelves.len()
            invariant
                self.inv(),
                i <= self.shelves@.len(),
                forall|j: int| 0 <= j < i ==> (#[trigger] self.shelves@[j]).name@ != category@,
            decreases self.shelves.len() - i,
        {
            if self.shelves[i].name == *category {
                proof {
                    lemma_shelf_map(self.shelves@, i as int);
                }
                return Some(i);
            }
            i += 1;
        }
        proof {
            if self.resources().dom().contains(category@) {
                let j = choose|j: int| shelf_at(self.shelves@, category@, j);
                assert(self.shelves@[j].name@ != category@);
            }
        }
        None
    }

    /// The position of the user `user_id`, if there is one.
    fn find_user(&self, user_id: &String) -> (r: Option<usize>)
        ensures
            match r {
                Some(i) => i < self.users().len() && self.users()[i as int].id == user_id@
                    && i < self.users@.len(),
                None => !has_user(self.users(), user_id@),
            },
    {
        let mut i: usize = 0;
        while i < self.users.len()
            invariant
                i <= self.users@.len(),
                forall|j: int| 0 <= j < i ==> self.users()[j].id != user_id@,
            decreases self.users.len() - i,
        {
            if self.users[i].id == *user_id {
                return Some(i);
            }
            i += 1;
        }
        None
    }

    /// Whether a user with this identifier is registered.
    pub fn user_exists(&self, user_id: String) -> (b: bool)
        ensures
            b == has_user(self.users(), user_id@),
    {
        self.find_user(&user_id).is_some()
    }

    /// The user with this identifier, or `NotFound`.
    pub fn get_user_by_id(&self, user_id: &str) -> (r: Result<User, Error>)
        requires
            self.wf(),
        ensures
            has_user(self.users(), user_id@) ==> (r matches Ok(u) && u.wf()
                && u@ == self.users()[user_index(self.users(), user_id@)]),
            !has_user(self.users(), user_id@) ==> (r matches Err(e) && e == Error::NotFound),
    {
        let key = user_id.to_owned();
        match self.find_user(&key) {
            Some(i) => {
                proof {
                    lemma_user_index(self.users(), i as int);
                }
                Ok(self.users[i].clone())
            },
            None => Err(Error::NotFound),
        }
    }

    /// Files a user under the given identifier.
    ///
    /// Refused with `Validation` when either list is empty, and with
    /// `IdCollision` when the identifier is already in use; otherwise the
    /// user goes to the end of the directory and the identifier is returned.
    pub fn insert_user(&mut self, id: String, skills: Vec<String>, wants_to_learn: Vec<String>) -> (r:
        Result<String, Error>)
        requires
            old(self).wf(),
        ensures
            final(self).wf(),
            skills@.len() == 0 || wants_to_learn@.len() == 0 ==> (r matches Err(e) && e
                == Error::Validation),
            skills@.len() > 0 && wants_to_learn@.len() > 0 && has_user(old(self).users(), id@)
                ==> (r matches Err(e) && e == Error::IdCollision),
            skills@.len() > 0 && wants_to_learn@.len() > 0 && !has_user(old(self).users(), id@)
                ==> (r matches Ok(rid) && rid@ == id@),
            r is Ok ==> final(self).users() == old(self).users().push(
                new_user(id@, skills@, wants_to_learn@),
            ),
            r is Err ==> final(self).users() == old(self).users(),
            final(self).resources() == old(self).resources(),
    {
        if skills.len() == 0 || wants_to_learn.len() == 0 {
            return Err(Error::Validation);
        }
        if self.find_user(&id).is_some() {
            return Err(Error::IdCollision);
        }
        let user = User {
            id: id.clone(),
            skills: SkillSet::from_vec(skills),
            wants_to_learn: SkillSet::from_vec(wants_to_learn),
        };
        proof {
            assert(tag_views(skills@).to_set().contains(tag_views(skills@)[0]));
            assert(tag_views(wants_to_learn@).to_set().contains(tag_views(wants_to_learn@)[0]));
        }
        let ghost before = self.users();
        self.users.push(user);
        proof {
            assert(self.users() =~= before.push(new_user(id@, skills@, wants_to_learn@)));
        }
        Ok(id)
    }

    /// Registers a user under a newly generated identifier.
    ///
    /// Refused with `Validation` when either list is empty. Otherwise the
    /// user is filed under an identifier that no user had before, which is
    /// returned; should the generator repeat an identifier in use, the call
    /// is refused with `IdCollision` and nothing is overwritten. That cannot
    /// happen while the directory has no user, nor while no identifier in
    /// use has the length of a generated one: valid input then succeeds.
    pub fn add_user(&mut self, skills: Vec<String>, wants_to_learn: Vec<String>) -> (r: Result<
        String,
        Error,
    >)
        requires
            old(self).wf(),
        ensures
            final(self).wf(),
            skills@.len() == 0 || wants_to_learn@.len() == 0 ==> (r matches Err(e) && e
                == Error::Validation),
            skills@.len() > 0 && wants_to_learn@.len() > 0 ==> match r {
                Ok(id) => id@.len() == 36 && !has_user(old(self).users(), id@),
                Err(e) => e == Error::IdCollision,
            },
            skills@.len() > 0 && wants_to_learn@.len() > 0 && old(self).users().len() == 0
                ==> r is Ok,
            skills@.len() > 0 && wants_to_learn@.len() > 0 && (forall|i: int|
                0 <= i < old(self).users().len() ==> (#[trigger] old(self).users()[i]).id.len()
                    != 36) ==> r is Ok,
            match r {
                Ok(id) => final(self).users() == old(self).users().push(
                    new_user(id@, skills@, wants_to_learn@),
                ) && has_user(final(self).users(), id@),
                Err(_) => final(self).users() == old(self).users(),
            },
            final(self).resources() == old(self).resources(),
    {
        if skills.len() == 0 || wants_to_learn.len() == 0 {
            return Err(Error::Validation);
        }
        let id = generate_unique_id();
        let r = self.insert_user(id, skills, wants_to_learn);
        proof {
            if r is Ok {
                lemma_pushed_user_exists(
                    old(self).users(),
                    new_user(r->Ok_0@, skills@, wants_to_learn@),
                );
            }
        }
        r
    }

    /// Replaces both sets of the user `id`.
    ///
    /// Refused with `Validation` when either list is empty, else with
    /// `NotFound` when no user has this identifier. On success both sets are
    /// the new ones; no other user changes.
    pub fn update_user(
        &mut self,
        id: String,
        new_skills: Vec<String>,
        new_wants_to_learn: Vec<String>,
    ) -> (r: Result<(), Error>)
        requires
            old(self).wf(),
        ensures
            final(self).wf(),
            new_skills@.len() == 0 || new_wants_to_learn@.len() == 0 ==> (r matches Err(e) && e
                == Error::Validation),
            new_skills@.len() > 0 && new_wants_to_learn@.len() > 0 && !has_user(
                old(self).users(),
                id@,
            ) ==> (r matches Err(e) && e == Error::NotFound),
            new_skills@.len() > 0 && new_wants_to_learn@.len() > 0 && has_user(
                old(self).users(),
                id@,
            ) ==> r is Ok,
            r is Ok ==> final(self).users() == old(self).users().update(
                user_index(old(self).users(), id@),
                new_user(id@, new_skills@, new_wants_to_learn@),
            ),
            r is Err ==> final(self).users() == old(self).users(),
            final(self).resources() == old(self).resources(),
    {
        if new_skills.len() == 0 || new_wants_to_learn.len() == 0 {
            return Err(Error::Validation);
        }
        match self.find_user(&id) {
            Some(i) => {
                let ghost before = self.users();
                proof {
                    lemma_user_index(before, i as int);
                    assert(tag_views(new_skills@).to_set().contains(tag_views(new_skills@)[0]));
                    assert(tag_views(new_wants_to_learn@).to_set().contains(
                        tag_views(new_wants_to_learn@)[0],
                    ));
                }
                let user = User {
                    id,
                    skills: SkillSet::from_vec(new_skills),
                    wants_to_learn: SkillSet::from_vec(new_wants_to_learn),
                };
                self.users[i] = user;
                proof {
                    assert(self.users() =~= before.update(
                        i as int,
                        new_user(id@, new_skills@, new_wants_to_learn@),
                    ));
                }
                Ok(())
            },
            None => Err(Error::NotFound),
        }
    }

    /// Every user, in the order in which they were added.
    pub fn get_all_users(&self) -> (v: Vec<User>)
        requires
            self.wf(),
        ensures
            user_views(v@) == self.users(),
            forall|i: int| 0 <= i < v@.len() ==> (#[trigger] v@[i]).wf(),
    {
        let mut v: Vec<User> = Vec::new();
        let mut i: usize = 0;
        while i < self.users.len()
            invariant
                self.inv(),
                i <= self.users@.len(),
                user_views(v@) == self.users().take(i as int),
                forall|j: int| 0 <= j < v@.len() ==> (#[trigger] v@[j]).wf(),
            decreases self.users.len() - i,
        {
            let ghost before = user_views(v@);
            v.push(self.users[i].clone());
            assert(user_views(v@) =~= before.push(self.users()[i as int]));
            assert(before.push(self.users()[i as int]) =~= self.users().take(i + 1));
            i += 1;
        }
        assert(self.users().take(self.users@.len() as int) =~= self.users());
        v
    }

    /// The users who teach something that the user `user_id` wants to
    /// learn, in the order in which they were added.
    ///
    /// Refused with `NotFound` when no user has this identifier, and with
    /// `NoMatches` when the user exists and nobody matches.
    pub fn find_matches(&self, user_id: String) -> (r: Result<Vec<User>, Error>)
        requires
            self.wf(),
        ensures
            !has_user(self.users(), user_id@) ==> (r matches Err(e) && e == Error::NotFound),
            has_user(self.users(), user_id@) && matches_of(self.users(), user_id@).len() == 0
                ==> (r matches Err(e) && e == Error::NoMatches),
            has_user(self.users(), user_id@) && matches_of(self.users(), user_id@).len() > 0
                ==> (r matches Ok(v) && user_views(v@) == matches_of(self.users(), user_id@)
                && forall|i: int| 0 <= i < v@.len() ==> (#[trigger] v@[i]).wf()),
    {
        let at = match self.find_user(&user_id) {
            Some(i) => i,
            None => {
                return Err(Error::NotFound);
            },
        };
        proof {
            lemma_user_index(self.users(), at as int);
        }
        let ghost requester = self.users()[at as int];
        let ghost pred = |u: UserView| is_match(requester, u);
        let mut found: Vec<User> = Vec::new();
        let mut i: usize = 0;
        while i < self.users.len()
            invariant
                self.inv(),
                at < self.users@.len(),
                requester == self.users@[at as int]@,
                pred == |u: UserView| is_match(requester, u),
                i <= self.users@.len(),
                user_views(found@) == self.users().take(i as int).filter(pred),
                forall|j: int| 0 <= j < found@.len() ==> (#[trigger] found@[j]).wf(),
            decreases self.users.len() - i,
        {
            proof {
                reveal(Seq::filter);
                assert(self.users().take(i + 1).drop_last() =~= self.users().take(i as int));
            }
            let ghost before = user_views(found@);
            if self.users[i].matches(&self.users[at]) {
                found.push(self.users[i].clone());
                assert(user_views(found@) =~= before.push(self.users()[i as int]));
            }
            i += 1;
        }
        assert(self.users().take(self.users@.len() as int) =~= self.users());
        if found.len() == 0 {
            Err(Error::NoMatches)
        } else {
            Ok(found)
        }
    }

    /// Files a resource under the given identifier.
    ///
    /// Refused with `Validation` when the link, the category or the
    /// contributor is empty, and with `IdCollision` when the category
    /// already holds a resource with this identifier; otherwise the
    /// resource goes to the end of its category, which is created if need
    /// be, and the identifier is returned.
    pub fn insert_resource(
        &mut self,
        id: String,
        link: String,
        category: String,
        added_by: String,
    ) -> (r: Result<String, Error>)
        requires
            old(self).wf(),
        ensures
            final(self).wf(),
            final(self).users() == old(self).users(),
            !resource_valid(new_resource(id@, link@, category@, added_by@)) ==> (r matches Err(e)
                && e == Error::Validation),
            resource_valid(new_resource(id@, link@, category@, added_by@)) && has_resource(
                shelf_of(old(self).resources(), category@),
                id@,
            ) ==> (r matches Err(e) && e == Error::IdCollision),
            resource_valid(new_resource(id@, link@, category@, added_by@)) && !has_resource(
                shelf_of(old(self).resources(), category@),
                id@,
            ) ==> (r matches Ok(rid) && rid@ == id@),
            r is Ok ==> final(self).resources() == old(self).resources().insert(
                category@,
                shelf_of(old(self).resources(), category@).push(
                    new_resource(id@, link@, category@, added_by@),
                ),
            ),
            r is Err ==> final(self).resources() == old(self).resources(),
    {
        if link.as_str().is_empty() || category.as_str().is_empty() || added_by.as_str().is_empty() {
            return Err(Error::Validation);
        }
        let ghost filed = new_resource(id@, link@, category@, added_by@);
        let ghost before = self.shelves@;
        let ghost shelf = shelf_of(self.resources(), category@);
        match self.find_shelf(&category) {
            Some(i) => {
                if find_resource(&self.shelves[i].resources, &id).is_some() {
                    return Err(Error::IdCollision);
                }
                let resource = Resource { id: id.clone(), link, category, added_by };
                self.shelves[i].resources.push(resource);
                proof {
                    lemma_shelf_map_update(before, self.shelves@, i as int);
                    assert(resource_views(self.shelves@[i as int].resources@) =~= shelf.push(
                        filed,
                    ));
                }
            },
            None => {
                let mut resources: Vec<Resource> = Vec::new();
                let name = category.clone();
                resources.push(Resource { id: id.clone(), link, category, added_by });
                let added = Shelf { name, resources };
                self.shelves.push(added);
                proof {
                    lemma_shelf_map_push(before, added);
                    assert(resource_views(added.resources@) =~= shelf.push(filed));
                }
            },
        }
        proof {
            lemma_shelf_push_valid(category@, shelf, filed);
        }
        Ok(id)
    }

    /// Files a resource under a newly generated identifier.
    ///
    /// Refused with `Validation` when the link, the category or the
    /// contributor is empty. Otherwise the resource goes to the end of its
    /// category under an identifier that no resource of the category had
    /// before, which is returned; should the generator repeat an identifier
    /// in use there, the call is refused with `IdCollision`. That cannot
    /// happen while the category is unused or empty, nor while no
    /// identifier in use there has the length of a generated one: valid
    /// input then succeeds.
    pub fn add_resource(&mut self, link: String, category: String, added_by: String) -> (r: Result<
        String,
        Error,
    >)
        requires
            old(self).wf(),
        ensures
            final(self).wf(),
            final(self).users() == old(self).users(),
            link@.len() == 0 || category@.len() == 0 || added_by@.len() == 0 ==> (r matches Err(e)
                && e == Error::Validation),
            link@.len() > 0 && category@.len() > 0 && added_by@.len() > 0 ==> match r {
                Ok(id) => id@.len() == 36 && !has_resource(
                    shelf_of(old(self).resources(), category@),
                    id@,
                ),
                Err(e) => e == Error::IdCollision,
            },
            link@.len() > 0 && category@.len() > 0 && added_by@.len() > 0 && shelf_of(
                old(self).resources(),
                category@,
            ).len() == 0 ==> r is Ok,
            link@.len() > 0 && category@.len() > 0 && added_by@.len() > 0 && (forall|i: int|
                0 <= i < shelf_of(old(self).resources(), category@).len() ==> (#[trigger] shelf_of(
                    old(self).resources(),
                    category@,
                )[i]).id.len() != 36) ==> r is Ok,
            match r {
                Ok(id) => final(self).resources() == old(self).resources().insert(
                    category@,
                    shelf_of(old(self).resources(), category@).push(
                        new_resource(id@, link@, category@, added_by@),
                    ),
                ),
                Err(_) => final(self).resources() == old(self).resources(),
            },
    {
        if link.as_str().is_empty() || category.as_str().is_empty() || added_by.as_str().is_empty() {
            return Err(Error::Validation);
        }
        let id = generate_unique_id();
        self.insert_resource(id, link, category, added_by)
    }

    /// The resources of `category`, oldest first, or `NotFound` when the
    /// category was never used. A category whose resources were all deleted
    /// gives an empty list.
    pub fn get_resources(&self, category: String) -> (r: Result<Vec<Resource>, Error>)
        requires
            self.wf(),
        ensures
            self.resources().dom().contains(category@) ==> (r matches Ok(v) && resource_views(v@)
                == self.resources()[category@]),
            !self.resources().dom().contains(category@) ==> (r matches Err(e) && e
                == Error::NotFound),
    {
        match self.find_shelf(&category) {
            Some(i) => {
                let items = &self.shelves[i].resources;
                let mut v: Vec<Resource> = Vec::new();
                let mut k: usize = 0;
                while k < items.len()
                    invariant
                        k <= items@.len(),
                        resource_views(v@) == resource_views(items@).take(k as int),
                    decreases items.len() - k,
                {
                    let ghost before = resource_views(v@);
                    v.push(items[k].clone());
                    assert(resource_views(v@) =~= before.push(items@[k as int]@));
                    assert(before.push(items@[k as int]@) =~= resource_views(items@).take(k + 1));
                    k += 1;
                }
                assert(resource_views(items@).take(items@.len() as int) =~= resource_views(
                    items@,
                ));
                Ok(v)
            },
            None => Err(Error::NotFound),
        }
    }

    /// Deletes the resource `resource_id` from `category`.
    ///
    /// Refused with `NotFound` when the category was never used or holds no
    /// resource with this identifier. On success exactly that resource is
    /// gone; the others keep their order, and the category stays even when
    /// it is left empty.
    pub fn delete_resource(&mut self, resource_id: String, category: String) -> (r: Result<
        (),
        Error,
    >)
        requires
            old(self).wf(),
        ensures
            final(self).wf(),
            final(self).users() == old(self).users(),
            has_resource(shelf_of(old(self).resources(), category@), resource_id@) ==> r is Ok,
            !has_resource(shelf_of(old(self).resources(), category@), resource_id@) ==> (
            r matches Err(e) && e == Error::NotFound),
            r is Ok ==> final(self).resources() == old(self).resources().insert(
                category@,
                old(self).resources()[category@].remove(
                    resource_index(old(self).resources()[category@], resource_id@),
                ),
            ),
            r is Err ==> final(self).resources() == old(self).resources(),
    {
        let ghost before = self.shelves@;
        let ghost shelf = shelf_of(self.resources(), category@);
        let i = match self.find_shelf(&category) {
            Some(i) => i,
            None => {
                return Err(Error::NotFound);
            },
        };
        let k = match find_resource(&self.shelves[i].resources, &resource_id) {
            Some(k) => k,
            None => {
                return Err(Error::NotFound);
            },
        };
        proof {
            lemma_resource_index(category@, shelf, k as int);
        }
        self.shelves[i].resources.remove(k);
        proof {
            lemma_shelf_map_update(before, self.shelves@, i as int);
            assert(resource_views(self.shelves@[i as int].resources@) =~= shelf.remove(k as int));
            lemma_shelf_remove_valid(category@, shelf, k as int);
        }
        Ok(())
    }
}

} // verus!
