use vstd::prelude::*;

verus! {

/// The keys held down at the moment, each once, in the order they were
/// pressed. Keys are identified by their key code.
pub struct KeySet {
    keys: Vec<u32>,
}

impl View for KeySet {
    type V = Set<u32>;

    closed spec fn view(&self) -> Set<u32> {
        self.keys@.to_set()
    }
}

impl KeySet {
    pub closed spec fn wf(self) -> bool {
        self.keys@.no_duplicates()
    }

    /// The held keys in the order they were pressed.
    pub closed spec fn in_order(self) -> Seq<u32> {
        self.keys@
    }

    pub fn new() -> (r: KeySet)
        ensures
            r.wf(),
            r@ == Set::<u32>::empty(),
    {
        let r = KeySet { keys: Vec::new() };
        proof {
            assert(r.keys@.to_set() =~= Set::<u32>::empty());
        }
        r
    }

    pub fn contains(&self, key: u32) -> (r: bool)
        requires
            self.wf(),
        ensures
            r == self@.contains(key),
    {
        let mut i: usize = 0;
        while i < self.keys.len()
            invariant
                i <= self.keys@.len(),
                forall|j: int| 0 <= j < i ==> self.keys@[j] != key,
            decreases self.keys@.len() - i,
        {
            if self.keys[i] == key {
                proof {
                    assert(self.keys@.contains(key));
                }
                return true;
            }
            i = i + 1;
        }
        false
    }

    /// The number of keys held.
    pub fn len(&self) -> (r: usize)
        requires
            self.wf(),
        ensures
            r == self@.len(),
    {
        proof {
            self.keys@.unique_seq_to_set();
        }
        self.keys.len()
    }

    /// Records that `key` went down; a key already held stays held once.
    pub fn press(&mut self, key: u32)
        requires
            old(self).wf(),
        ensures
            final(self).wf(),
            final(self)@ == old(self)@.insert(key),
            old(self)@.contains(key) ==> final(self).in_order() == old(self).in_order(),
            !old(self)@.contains(key) ==> final(self).in_order() == old(self).in_order().push(key),
    {
        if !self.contains(key) {
            let ghost k0 = self.keys@;
            self.keys.push(key);
            proof {
                assert(self.keys@ == k0.push(key));
                assert(self.keys@.to_set() =~= k0.to_set().insert(key)) by {
                    assert forall|x: u32| self.keys@.contains(x) <==> (k0.contains(x) || x == key) by {
                        if k0.contains(x) {
                            let w = choose|w: int| 0 <= w < k0.len() && k0[w] == x;
                            assert(self.keys@[w] == x);
                        }
                        if x == key {
                            assert(self.keys@[k0.len() as int] == x);
                        }
                    }
                }
                assert forall|a: int, b: int|
                    0 <= a < self.keys@.len() && 0 <= b < self.keys@.len() && a != b
                    implies self.keys@[a] != self.keys@[b] by {
                    if a == k0.len() as int {
                        assert(!k0.contains(self.keys@[b]) || self.keys@[b] != key);
                    } else if b == k0.len() as int {
                        assert(!k0.contains(self.keys@[a]) || self.keys@[a] != key);
                    }
                }
            }
        } else {
            proof {
                assert(self.keys@.to_set() =~= self.keys@.to_set().insert(key));
            }
        }
    }

    /// Records that `key` went up; the other keys keep their order.
    pub fn release(&mut self, key: u32)
        requires
            old(self).wf(),
        ensures
            final(self).wf(),
            final(self)@ == old(self)@.remove(key),
    {
        let mut i: usize = 0;
        while i < self.keys.len()
            invariant
                *self == *old(self),
                old(self).wf(),
                i <= self.keys@.len(),
                forall|j: int| 0 <= j < i ==> self.keys@[j] != key,
            decreases self.keys@.len() - i,
        {
            if self.keys[i] == key {
                let ghost k0 = self.keys@;
                self.keys.remove(i);
                proof {
                    assert(k0[i as int] == key);
                    assert(k0.no_duplicates());
                    assert(self.keys@ == k0.remove(i as int));
                    assert forall|x: u32| self.keys@.contains(x) <==> (k0.contains(x) && x != key) by {
                        if self.keys@.contains(x) {
                            let w = choose|w: int| 0 <= w < self.keys@.len() && self.keys@[w] == x;
                            if w < i {
                                assert(k0[w] == x);
                            } else {
                                assert(k0[w + 1] == x);
                                assert(w + 1 != i);
                            }
                        }
                        if k0.contains(x) && x != key {
                            let w = choose|w: int| 0 <= w < k0.len() && k0[w] == x;
                            if w < i {
                                assert(self.keys@[w] == x);
                            } else {
                                assert(w != i);
                                assert(self.keys@[w - 1] == x);
                            }
                        }
                    }
                    assert(self.keys@.to_set() =~= k0.to_set().remove(key));
                    assert forall|a: int, b: int|
                        0 <= a < self.keys@.len() && 0 <= b < self.keys@.len() && a != b
                        implies self.keys@[a] != self.keys@[b] by {
                        let a0 = if a < i { a } else { a + 1 };
                        let b0 = if b < i { b } else { b + 1 };
                        assert(self.keys@[a] == k0[a0]);
                        assert(self.keys@[b] == k0[b0]);
                    }
                }
                return;
            }
            i = i + 1;
        }
        proof {
            assert(!self.keys@.contains(key));
            assert(self.keys@.to_set() =~= self.keys@.to_set().remove(key));
        }
    }

    /// Presses each of `keys` in turn.
    pub fn press_all(&mut self, keys: &Vec<u32>)
        requires
            old(self).wf(),
        ensures
            final(self).wf(),
            final(self)@ == old(self)@.union(keys@.to_set()),
    {
        let mut i: usize = 0;
        while i < keys.len()
            invariant
                self.wf(),
                i <= keys@.len(),
                self@ == old(self)@.union(keys@.take(i as int).to_set()),
            decreases keys@.len() - i,
        {
            let ghost s0 = self@;
            self.press(keys[i]);
            proof {
                assert(keys@.take(i + 1) == keys@.take(i as int).push(keys@[i as int]));
                assert(keys@.take(i + 1).to_set() =~= keys@.take(i as int).to_set().insert(keys@[i as int])) by {
                    let t0 = keys@.take(i as int);
                    let t1 = keys@.take(i + 1);
                    assert forall|x: u32| t1.contains(x) <==> (t0.contains(x) || x == keys@[i as int]) by {
                        if t0.contains(x) {
                            let w = choose|w: int| 0 <= w < t0.len() && t0[w] == x;
                            assert(t1[w] == x);
                        }
                        if x == keys@[i as int] {
                            assert(t1[i as int] == x);
                        }
                        if t1.contains(x) {
                            let w = choose|w: int| 0 <= w < t1.len() && t1[w] == x;
                            if w < i {
                                assert(t0[w] == x);
                            }
                        }
                    }
                }
                assert(self@ =~= old(self)@.union(keys@.take(i + 1).to_set()));
            }
            i = i + 1;
        }
        proof {
            assert(keys@.take(i as int) =~= keys@);
        }
    }

    /// The held keys in the order they were pressed.
    pub fn keys(&self) -> (r: Vec<u32>)
        requires
            self.wf(),
        ensures
            r@ == self.in_order(),
            r@.to_set() == self@,
            r@.no_duplicates(),
    {
        self.keys.clone()
    }
}

/// Two runs of key presses, whatever order they reach the set in, leave the
/// same keys held: those held before and every key of either run, each once.
pub proof fn lemma_press_runs_commute(start: Set<u32>, a: Seq<u32>, b: Seq<u32>)
    ensures
        start.union(a.to_set()).union(b.to_set()) == start.union(b.to_set()).union(a.to_set()),
        start.union(a.to_set()).union(b.to_set()) == start.union((a + b).to_set()),
{
    assert(start.union(a.to_set()).union(b.to_set()) =~= start.union(b.to_set()).union(a.to_set()));
    assert forall|x: u32| (a + b).contains(x) <==> (a.contains(x) || b.contains(x)) by {
        if a.contains(x) {
            let w = choose|w: int| 0 <= w < a.len() && a[w] == x;
            assert((a + b)[w] == x);
        }
        if b.contains(x) {
            let w = choose|w: int| 0 <= w < b.len() && b[w] == x;
            assert((a + b)[a.len() + w] == x);
        }
        if (a + b).contains(x) {
            let w = choose|w: int| 0 <= w < (a + b).len() && (a + b)[w] == x;
            if w < a.len() {
                assert(a[w] == x);
            } else {
                assert(b[w - a.len()] == x);
            }
        }
    }
    assert(start.union(a.to_set()).union(b.to_set()) =~= start.union((a + b).to_set()));
}

} // verus!
