//! Sets of digests.

use crate::text::texts;
use vstd::hash_set::StringHashSet;
use vstd::prelude::*;

verus! {

/// A set of digests that remembers the order in which they came in.
pub struct DigestSet {
    /// The members, each once, in the order in which they were first inserted.
    items: Vec<String>,
    /// The same members, for looking one up.
    index: StringHashSet,
}

impl View for DigestSet {
    type V = Set<Seq<char>>;

    closed spec fn view(&self) -> Set<Seq<char>> {
        self.index@
    }
}

impl DigestSet {
    #[verifier::type_invariant]
    spec fn consistent(self) -> bool {
        &&& texts(self.items@).no_duplicates()
        &&& texts(self.items@).to_set() == self.index@
    }

    /// The members in the order in which they were first inserted.
    pub closed spec fn order(self) -> Seq<Seq<char>> {
        texts(self.items@)
    }

    /// The empty set.
    pub fn new() -> (r: DigestSet)
        ensures
            r@ == Set::<Seq<char>>::empty(),
            r.order() == Seq::<Seq<char>>::empty(),
    {
        let items: Vec<String> = Vec::new();
        assert(texts(items@) =~= Seq::<Seq<char>>::empty());
        assert(texts(items@).to_set() =~= Set::<Seq<char>>::empty());
        DigestSet { items, index: StringHashSet::new() }
    }

    /// Whether a digest is a member.
    pub fn contains(&self, digest: &str) -> (r: bool)
        ensures
            r == self@.contains(digest@),
    {
        self.index.contains(digest)
    }

    /// Adds a digest.
    pub fn insert(&mut self, digest: String)
        ensures
            final(self)@ == old(self)@.insert(digest@),
            final(self).order() == if old(self)@.contains(digest@) {
                old(self).order()
            } else {
                old(self).order().push(digest@)
            },
    {
        proof {
            use_type_invariant(&*self);
        }
        if self.index.contains(digest.as_str()) {
            assert(old(self)@.insert(digest@) =~= old(self)@);
            return ;
        }
        let mut grown: DigestSet = DigestSet::new();
        std::mem::swap(self, &mut grown);
        let DigestSet { mut items, mut index } = grown;
        let ghost before = texts(items@);
        index.insert(digest.clone());
        items.push(digest);
        proof {
            let after = texts(items@);
            assert(after =~= before.push(digest@));
            assert(!before.contains(digest@)) by {
                if before.contains(digest@) {
                    assert(before.to_set().contains(digest@));
                }
            }
            assert forall|i: int, j: int|
                0 <= i < after.len() && 0 <= j < after.len() && i != j implies after[i]
                != after[j] by {
                if i < before.len() && j < before.len() {
                    assert(before[i] != before[j]);
                } else if i < before.len() {
                    assert(before.contains(before[i]));
                } else {
                    assert(before.contains(before[j]));
                }
            }
            assert forall|d: Seq<char>| after.to_set().contains(d) == index@.contains(d) by {
                if index@.contains(d) {
                    if d == digest@ {
                        assert(after[before.len() as int] == d);
                    } else {
                        assert(before.to_set().contains(d));
                        let k = choose|k: int| 0 <= k < before.len() && before[k] == d;
                        assert(after[k] == d);
                    }
                }
                if after.contains(d) {
                    let k = choose|k: int| 0 <= k < after.len() && after[k] == d;
                    if k < before.len() {
                        assert(before[k] == d);
                        assert(before.to_set().contains(d));
                    }
                }
            }
            assert(after.to_set() =~= index@);
        }
        *self = DigestSet { items, index };
    }

    /// The members, each once, in the order in which they were first inserted.
    pub fn to_vec(&self) -> (r: Vec<String>)
        ensures
            texts(r@) == self.order(),
            texts(r@).no_duplicates(),
            texts(r@).to_set() == self@,
    {
        proof {
            use_type_invariant(self);
        }
        let r: Vec<String> = self.items.clone();
        assert(r@ =~= self.items@);
        r
    }
}

} // verus!
