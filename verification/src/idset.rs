//! The reconciled identifier set: the `action_id` values already present
//! remotely, frozen for a run, consulted before every submission.

use vstd::prelude::*;

verus! {

/// A finite set of identifiers, held as text.
pub struct IdSet {
    items: Vec<String>,
}

impl View for IdSet {
    type V = Set<Seq<char>>;

    closed spec fn view(&self) -> Set<Seq<char>> {
        self.items@.map_values(|s: String| s@).to_set()
    }
}

impl IdSet {
    /// The set never stores an identifier twice; every constructor
    /// establishes this and every method keeps it.
    pub closed spec fn wf(&self) -> bool {
        self.items@.map_values(|s: String| s@).no_duplicates()
    }

    /// The empty set.
    pub fn new() -> (r: Self)
        ensures r@ == Set::<Seq<char>>::empty(), r.wf(),
    {
        let r = IdSet { items: Vec::new() };
        proof {
            assert(r.items@.map_values(|s: String| s@).len() == 0);
            assert(r@ =~= Set::<Seq<char>>::empty());
        }
        r
    }

    /// Whether `id` is in the set.
    pub fn contains(&self, id: &str) -> (r: bool)
        ensures r == self@.contains(id@),
    {
        let key = id.to_owned();
        let ghost mapped = self.items@.map_values(|s: String| s@);
        let mut i: usize = 0;
        while i < self.items.len()
            invariant
                i <= self.items@.len(),
                mapped == self.items@.map_values(|s: String| s@),
                key@ == id@,
                forall|k: int| 0 <= k < i ==> #[trigger] mapped[k] != id@,
            decreases self.items@.len() - i,
        {
            if self.items[i] == key {
                proof { assert(mapped[i as int] == id@); }
                return true;
            }
            proof { assert(mapped[i as int] == self.items@[i as int]@); }
            i += 1;
        }
        proof {
            if self@.contains(id@) {
                let k = choose|k: int| 0 <= k < mapped.len() && mapped[k] == id@;
                assert(false);
            }
        }
        false
    }

    /// Adds `id`; adding an identifier already present changes nothing.
    pub fn insert(&mut self, id: String)
        requires old(self).wf(),
        ensures final(self)@ == old(self)@.insert(id@), final(self).wf(),
    {
        let ghost oldview = self@;
        let ghost oldmapped = self.items@.map_values(|s: String| s@);
        if self.contains(id.as_str()) {
            proof { assert(oldview.insert(id@) =~= oldview); }
            return;
        }
        self.items.push(id);
        proof {
            let mapped = self.items@.map_values(|s: String| s@);
            assert forall|k: int| 0 <= k < mapped.len() implies
                #[trigger] mapped[k] == (if k < oldmapped.len() { oldmapped[k] } else { id@ }) by {
                assert(mapped[k] == self.items@[k]@);
                if k < oldmapped.len() {
                    assert(oldmapped[k] == old(self).items@[k]@);
                }
            }
            assert(mapped =~= oldmapped.push(id@));
            assert(!oldmapped.contains(id@)) by {
                if oldmapped.contains(id@) {
                    let k = choose|k: int| 0 <= k < oldmapped.len() && oldmapped[k] == id@;
                    assert(oldview.contains(id@));
                }
            }
            assert(self@ =~= oldview.insert(id@)) by {
                assert forall|x: Seq<char>| self@.contains(x) implies oldview.insert(id@).contains(x) by {
                    let k = choose|k: int| 0 <= k < mapped.len() && mapped[k] == x;
                    if k < oldmapped.len() {
                        assert(oldmapped[k] == x);
                    }
                }
                assert forall|x: Seq<char>| oldview.insert(id@).contains(x) implies self@.contains(x) by {
                    if x == id@ {
                        assert(mapped[mapped.len() - 1] == x);
                    } else {
                        let k = choose|k: int| 0 <= k < oldmapped.len() && oldmapped[k] == x;
                        assert(mapped[k] == x);
                    }
                }
            }
        }
    }

    /// How many identifiers the set holds.
    pub fn len(&self) -> (r: usize)
        requires self.wf(),
        ensures r == self@.len(),
    {
        proof {
            self.items@.map_values(|s: String| s@).unique_seq_to_set();
        }
        self.items.len()
    }
}

} // verus!
