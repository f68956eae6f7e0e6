//! The two kinds of record that the directory keeps.

use vstd::prelude::*;
use crate::skill_set::SkillSet;

verus! {

/// What a [`User`] is, as plain mathematical values.
pub struct UserView {
    pub id: Seq<char>,
    pub skills: Set<Seq<char>>,
    pub wants_to_learn: Set<Seq<char>>,
}

/// One participant: the skills they teach and the skills they want to learn.
#[derive(Debug)]
pub struct User {
    pub id: String,
    pub skills: SkillSet,
    pub wants_to_learn: SkillSet,
}

impl View for User {
    type V = UserView;

    open spec fn view(&self) -> UserView {
        UserView { id: self.id@, skills: self.skills@, wants_to_learn: self.wants_to_learn@ }
    }
}

/// Both sets of a user hold at least one tag.
pub open spec fn user_valid(u: UserView) -> bool {
    u.skills != Set::<Seq<char>>::empty() && u.wants_to_learn != Set::<Seq<char>>::empty()
}

/// `other` is a match for `requester`: a different user who teaches at
/// least one skill that `requester` wants to learn.
pub open spec fn is_match(requester: UserView, other: UserView) -> bool {
    other.id != requester.id && !requester.wants_to_learn.disjoint(other.skills)
}

impl User {
    /// The sets are well formed and neither is empty.
    pub open spec fn wf(&self) -> bool {
        self.skills.wf() && self.wants_to_learn.wf() && user_valid(self@)
    }

    /// Whether this user is a match for `requester`.
    pub fn matches(&self, requester: &User) -> (b: bool)
        ensures
            b == is_match(requester@, self@),
    {
        self.id != requester.id && !requester.wants_to_learn.is_disjoint(&self.skills)
    }
}

impl Clone for User {
    fn clone(&self) -> (r: User)
        ensures
            r@ == self@,
            r.wf() == self.wf(),
    {
        User {
            id: self.id.clone(),
            skills: self.skills.clone(),
            wants_to_learn: self.wants_to_learn.clone(),
        }
    }
}

/// The views of a list of users, in order.
pub open spec fn user_views(v: Seq<User>) -> Seq<UserView> {
    Seq::new(v.len(), |i: int| v[i]@)
}

/// What a [`Resource`] is, as plain mathematical values.
pub struct ResourceView {
    pub id: Seq<char>,
    pub link: Seq<char>,
    pub category: Seq<char>,
    pub added_by: Seq<char>,
}

/// One shared learning link, filed under a category.
#[derive(Debug)]
pub struct Resource {
    pub id: String,
    pub link: String,
    pub category: String,
    /// The contributor's identifier. It need not name a registered user.
    pub added_by: String,
}

impl View for Resource {
    type V = ResourceView;

    open spec fn view(&self) -> ResourceView {
        ResourceView {
            id: self.id@,
            link: self.link@,
            category: self.category@,
            added_by: self.added_by@,
        }
    }
}

/// Link, category and contributor are all non-empty.
pub open spec fn resource_valid(r: ResourceView) -> bool {
    r.link.len() > 0 && r.category.len() > 0 && r.added_by.len() > 0
}

impl Clone for Resource {
    fn clone(&self) -> (r: Resource)
        ensures
            r@ == self@,
    {
        Resource {
            id: self.id.clone(),
            link: self.link.clone(),
            category: self.category.clone(),
            added_by: self.added_by.clone(),
        }
    }
}

/// The views of a list of resources, in order.
pub open spec fn resource_views(v: Seq<Resource>) -> Seq<ResourceView> {
    Seq::new(v.len(), |i: int| v[i]@)
}

} // verus!
