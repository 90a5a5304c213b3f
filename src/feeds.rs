//! Registry that gives each named feed a stable integer id.
use vstd::prelude::*;
use crate::text::same_chars;
use crate::text::chars_of;

verus! {

/// Names of feeds in the order they were first seen; a feed's id is its
/// position in this list.
pub struct FeedTracker {
    names: Vec<String>,
}

impl View for FeedTracker {
    type V = Seq<Seq<char>>;

    closed spec fn view(&self) -> Seq<Seq<char>> {
        self.names@.map_values(|n: String| n@)
    }
}

impl FeedTracker {
    /// Every name occurs once, so each id belongs to one name, and every
    /// id fits in 32 bits.
    pub open spec fn wf(&self) -> bool {
        self@.no_duplicates() && self@.len() <= u32::MAX
    }

    /// An empty registry.
    pub fn new() -> (r: FeedTracker)
        ensures
            r@ == Seq::<Seq<char>>::empty(),
            r.wf(),
    {
        FeedTracker { names: Vec::new() }
    }

    /// Number of feeds registered.
    pub fn len(&self) -> (r: usize)
        ensures
            r == self@.len(),
    {
        self.names.len()
    }

    /// The id of `name`: its existing id if it was seen before, otherwise
    /// the next id, counting from 0, which it keeps from now on.
    pub fn identify(&mut self, name: &str) -> (r: u32)
        requires
            old(self).wf(),
            old(self)@.contains(name@) || old(self)@.len() < u32::MAX,
        ensures
            final(self).wf(),
            old(self)@.contains(name@) ==> final(self)@ == old(self)@ && r < old(self)@.len()
                && old(self)@[r as int] == name@,
            !old(self)@.contains(name@) ==> final(self)@ == old(self)@.push(name@) && r
                == old(self)@.len(),
    {
        let wanted = chars_of(name);
        let mut i: usize = 0;
        while i < self.names.len()
            invariant
                self.wf(),
                self@ == old(self)@,
                old(self)@.len() <= u32::MAX,
                old(self)@.contains(name@) || old(self)@.len() < u32::MAX,
                i <= self@.len(),
                wanted@ == name@,
                forall|k: int| 0 <= k < i ==> self@[k] != name@,
            decreases self@.len() - i,
        {
            let have = chars_of(self.names[i].as_str());
            assert(self@[i as int] == self.names@[i as int]@);
            if same_chars(&have, &wanted) {
                assert(self@.len() == self.names@.len());
                assert(old(self)@[i as int] == name@);
                return i as u32;
            }
            i = i + 1;
        }
        assert(!old(self)@.contains(name@));
        let id = self.names.len() as u32;
        self.names.push(name.to_owned());
        proof {
            assert(self@ =~= old(self)@.push(name@));
            assert(!old(self)@.contains(name@));
        }
        id
    }

    /// Every registered name with its id, in the order of the ids.
    pub fn ids(&self) -> (r: Vec<(String, u32)>)
        requires
            self@.len() <= u32::MAX,
        ensures
            r@.len() == self@.len(),
            forall|i: int| 0 <= i < r@.len() ==> (#[trigger] r@[i]).0@ == self@[i] && r@[i].1 == i,
    {
        let mut r: Vec<(String, u32)> = Vec::new();
        let mut i: usize = 0;
        while i < self.names.len()
            invariant
                i <= self@.len() <= u32::MAX,
                r@.len() == i,
                forall|k: int| 0 <= k < i ==> (#[trigger] r@[k]).0@ == self@[k] && r@[k].1 == k,
            decreases self@.len() - i,
        {
            r.push((self.names[i].clone(), i as u32));
            i = i + 1;
        }
        r
    }
}

} // verus!
