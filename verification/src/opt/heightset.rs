//! Small sets of heights.
use vstd::prelude::*;

verus! {

/// A set of heights, kept as a strictly increasing list.
#[derive(Debug)]
pub struct HeightSet {
    items: Vec<u32>,
}

impl View for HeightSet {
    type V = Set<u32>;

    closed spec fn view(&self) -> Set<u32> {
        self.items@.to_set()
    }
}

impl HeightSet {
    #[verifier::type_invariant]
    spec fn increasing(self) -> bool {
        forall|i: int, j: int| 0 <= i < j < self.items@.len() ==> self.items@[i] < self.items@[j]
    }

    pub fn new() -> (set: Self)
        ensures
            set@ == Set::<u32>::empty(),
    {
        let set: HeightSet = HeightSet { items: Vec::new() };
        assert(set@ =~= Set::<u32>::empty());
        set
    }

    /// Add one height.
    pub fn insert(&mut self, height: u32)
        ensures
            final(self)@ == old(self)@.insert(height),
    {
        proof {
            use_type_invariant(&*self);
        }
        let mut items: Vec<u32> = Vec::new();
        let mut k: usize = 0;
        while k < self.items.len() && self.items[k] < height
            invariant
                *self == *old(self),
                k <= self.items@.len(),
                items@ == self.items@.take(k as int),
                forall|i: int| 0 <= i < k ==> self.items@[i] < height,
            decreases self.items@.len() - k,
        {
            items.push(self.items[k]);
            k = k + 1;
            assert(items@ =~= self.items@.take(k as int));
        }
        let ghost split: int = k as int;
        items.push(height);
        if k < self.items.len() && self.items[k] == height {
            k = k + 1;
        }
        let ghost rest: int = k as int;
        assert(items@ =~= self.items@.take(split).push(height) + self.items@.subrange(rest, rest));
        while k < self.items.len()
            invariant
                *self == *old(self),
                0 <= split <= rest <= k <= self.items@.len(),
                items@ == self.items@.take(split).push(height) + self.items@.subrange(
                    rest,
                    k as int,
                ),
            decreases self.items@.len() - k,
        {
            items.push(self.items[k]);
            k = k + 1;
            assert(items@ =~= self.items@.take(split).push(height) + self.items@.subrange(
                rest,
                k as int,
            ));
        }
        proof {
            let before = self.items@;
            assert forall|h: u32|
                #[trigger] items@.contains(h) <==> (before.contains(h) || h == height) by {
                if before.contains(h) {
                    let i = choose|i: int| 0 <= i < before.len() && before[i] == h;
                    if i < split {
                        assert(items@[i] == h);
                    } else if i >= rest {
                        assert(items@[i - rest + split + 1] == h);
                    } else {
                        assert(items@[split] == h);
                    }
                }
                assert(items@[split] == height);
                if items@.contains(h) {
                    let i = choose|i: int| 0 <= i < items@.len() && items@[i] == h;
                    if i < split {
                        assert(before[i] == h);
                    } else if i > split {
                        assert(before[i - split - 1 + rest] == h);
                    }
                }
            }
        }
        let ghost after: Seq<u32> = items@;
        self.items = items;
        proof {
            assert forall|h: u32| self@.contains(h) == old(self)@.insert(height).contains(h) by {
                assert(after.contains(h) <==> (old(self).items@.contains(h) || h == height));
            }
            assert(self@ =~= old(self)@.insert(height));
        }
    }

    /// Add every height of another set.
    pub fn extend(&mut self, other: &HeightSet)
        ensures
            final(self)@ == old(self)@.union(other@),
    {
        let mut k: usize = 0;
        while k < other.items.len()
            invariant
                k <= other.items@.len(),
                self@ == old(self)@.union(other.items@.take(k as int).to_set()),
            decreases other.items@.len() - k,
        {
            self.insert(other.items[k]);
            k = k + 1;
            proof {
                let now = other.items@.take(k as int);
                let was = other.items@.take(k - 1);
                assert(now =~= was.push(other.items@[k - 1]));
                assert forall|h: u32| now.contains(h) <==> (was.contains(h) || h
                    == other.items@[k - 1]) by {
                    if was.contains(h) {
                        let i = choose|i: int| 0 <= i < was.len() && was[i] == h;
                        assert(now[i] == h);
                    }
                    assert(now[k - 1] == other.items@[k - 1]);
                }
                assert(self@ =~= old(self)@.union(now.to_set()));
            }
        }
        proof {
            assert(other.items@.take(k as int) =~= other.items@);
        }
    }

    /// Lowest height of the set.
    pub fn min(&self) -> (lowest: Option<u32>)
        ensures
            match lowest {
                Some(m) => self@.contains(m) && forall|h: u32| self@.contains(h) ==> m <= h,
                None => self@ == Set::<u32>::empty(),
            },
    {
        proof {
            use_type_invariant(self);
        }
        if self.items.len() == 0 {
            assert(self@ =~= Set::<u32>::empty());
            None
        } else {
            assert(self.items@.contains(self.items@[0]));
            Some(self.items[0])
        }
    }
}

impl Clone for HeightSet {
    fn clone(&self) -> (set: Self)
        ensures
            set@ == self@,
    {
        proof {
            use_type_invariant(self);
        }
        HeightSet { items: self.items.clone() }
    }
}

} // verus!
