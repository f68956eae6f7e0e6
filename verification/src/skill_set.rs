//! A set of skill tags, compared by exact string equality.

use vstd::prelude::*;

verus! {

/// The tags of a list of strings, each as its sequence of characters.
pub open spec fn tag_views(v: Seq<String>) -> Seq<Seq<char>> {
    Seq::new(v.len(), |i: int| v[i]@)
}

/// A finite set of skill tags. No tag is stored twice.
#[derive(Debug)]
pub struct SkillSet {
    tags: Vec<String>,
}

impl View for SkillSet {
    type V = Set<Seq<char>>;

    /// The tags as a mathematical set.
    open spec fn view(&self) -> Set<Seq<char>> {
        self.tags().to_set()
    }
}

impl SkillSet {
    /// The tags in the order in which they are stored.
    pub closed spec fn tags(&self) -> Seq<Seq<char>> {
        tag_views(self.tags@)
    }

    /// No tag is stored twice.
    pub open spec fn wf(&self) -> bool {
        self.tags().no_duplicates()
    }

    /// The empty set.
    pub fn new() -> (r: SkillSet)
        ensures
            r.wf(),
            r.tags() == Seq::<Seq<char>>::empty(),
            r@ == Set::<Seq<char>>::empty(),
    {
        let r = SkillSet { tags: Vec::new() };
        assert(r.tags() =~= Seq::<Seq<char>>::empty());
        assert(r@ =~= Set::<Seq<char>>::empty());
        r
    }

    /// Whether `tag` is in the set.
    pub fn contains(&self, tag: &String) -> (b: bool)
        ensures
            b == self@.contains(tag@),
    {
        let mut i: usize = 0;
        while i < self.tags.len()
            invariant
                i <= self.tags.len(),
                forall|j: int| 0 <= j < i ==> self.tags()[j] != tag@,
            decreases self.tags.len() - i,
        {
            if self.tags[i] == *tag {
                assert(self.tags()[i as int] == tag@);
                return true;
            }
            i += 1;
        }
        false
    }

    /// Adds `tag` if it is not there yet.
    pub fn insert(&mut self, tag: String)
        requires
            old(self).wf(),
        ensures
            final(self).wf(),
            final(self)@ == old(self)@.insert(tag@),
            final(self).tags() == if old(self)@.contains(tag@) {
                old(self).tags()
            } else {
                old(self).tags().push(tag@)
            },
    {
        if !self.contains(&tag) {
            let ghost before = self.tags();
            self.tags.push(tag);
            proof {
                assert(self.tags() =~= before.push(tag@));
                before.lemma_push_to_set_commute(tag@);
            }
        } else {
            assert(self@ =~= self@.insert(tag@));
        }
    }

    /// The set of the strings in `v`; a string that occurs more than once is
    /// taken once.
    pub fn from_vec(v: Vec<String>) -> (r: SkillSet)
        ensures
            r.wf(),
            r@ == tag_views(v@).to_set(),
    {
        let mut r = SkillSet::new();
        let mut i: usize = 0;
        while i < v.len()
            invariant
                i <= v.len(),
                r.wf(),
                r@ == tag_views(v@).take(i as int).to_set(),
            decreases v.len() - i,
        {
            let t = v[i].clone();
            r.insert(t);
            proof {
                let s = tag_views(v@);
                assert(s.take(i + 1) =~= s.take(i as int).push(v@[i as int]@));
                s.take(i as int).lemma_push_to_set_commute(v@[i as int]@);
            }
            i += 1;
        }
        assert(tag_views(v@).take(v.len() as int) =~= tag_views(v@));
        r
    }

    /// The number of tags.
    pub fn len(&self) -> (n: usize)
        requires
            self.wf(),
        ensures
            n == self@.len(),
    {
        proof {
            self.tags().unique_seq_to_set();
        }
        self.tags.len()
    }

    /// Whether the set holds no tag.
    pub fn is_empty(&self) -> (b: bool)
        ensures
            b == (self@ == Set::<Seq<char>>::empty()),
    {
        let b = self.tags.len() == 0;
        proof {
            if b {
                assert(self@ =~= Set::<Seq<char>>::empty());
            } else {
                assert(self@.contains(self.tags()[0]));
            }
        }
        b
    }

    /// Whether the two sets have no tag in common.
    pub fn is_disjoint(&self, other: &SkillSet) -> (b: bool)
        ensures
            b == self@.disjoint(other@),
    {
        let mut i: usize = 0;
        while i < self.tags.len()
            invariant
                i <= self.tags.len(),
                forall|j: int| 0 <= j < i ==> !other@.contains(self.tags()[j]),
            decreases self.tags.len() - i,
        {
            if other.contains(&self.tags[i]) {
                assert(self@.contains(self.tags()[i as int]));
                return false;
            }
            i += 1;
        }
        assert(self@.disjoint(other@));
        true
    }

    /// The tags as a list, each once.
    pub fn to_vec(&self) -> (v: Vec<String>)
        ensures
            tag_views(v@) == self.tags(),
    {
        let mut v: Vec<String> = Vec::new();
        let mut i: usize = 0;
        while i < self.tags.len()
            invariant
                i <= self.tags.len(),
                v@ == self.tags@.take(i as int),
            decreases self.tags.len() - i,
        {
            v.push(self.tags[i].clone());
            assert(v@ =~= self.tags@.take(i + 1));
            i += 1;
        }
        assert(self.tags@.take(self.tags.len() as int) =~= self.tags@);
        v
    }
}

impl Clone for SkillSet {
    fn clone(&self) -> (r: SkillSet)
        ensures
            r.tags() == self.tags(),
    {
        SkillSet { tags: self.to_vec() }
    }
}

} // verus!
