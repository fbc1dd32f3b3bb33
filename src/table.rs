use vstd::prelude::*;

verus! {

/// One login and the value kept for it.
pub struct Entry<V> {
    pub login: String,
    pub value: V,
}

/// A table keyed by login, each login present at most once.
pub struct LoginTable<V> {
    pub entries: Vec<Entry<V>>,
}

impl<V> LoginTable<V> {
    /// Logins are unique.
    pub open spec fn wf(&self) -> bool {
        forall|i: int, j: int|
            0 <= i < self.entries@.len() && 0 <= j < self.entries@.len() && i != j
                ==> #[trigger] self.entries@[i].login@ != #[trigger] self.entries@[j].login@
    }

    pub open spec fn has(&self, login: Seq<char>) -> bool {
        exists|i: int| 0 <= i < self.entries@.len() && #[trigger] self.entries@[i].login@ == login
    }

    /// The position of `login`, when present.
    pub open spec fn pos(&self, login: Seq<char>) -> int {
        choose|i: int| 0 <= i < self.entries@.len() && #[trigger] self.entries@[i].login@ == login
    }

    /// The value kept for `login`, when present.
    pub open spec fn get(&self, login: Seq<char>) -> Option<V> {
        if self.has(login) {
            Some(self.entries@[self.pos(login)].value)
        } else {
            None
        }
    }

    pub proof fn lemma_pos(&self, i: int)
        requires
            self.wf(),
            0 <= i < self.entries@.len(),
        ensures
            self.has(self.entries@[i].login@),
            self.pos(self.entries@[i].login@) == i,
            self.get(self.entries@[i].login@) == Some(self.entries@[i].value),
    {
        let k = self.entries@[i].login@;
        assert(self.has(k));
        let p = self.pos(k);
        assert(0 <= p < self.entries@.len() && self.entries@[p].login@ == k);
    }

    pub fn new() -> (r: Self)
        ensures
            r.wf(),
            r.entries@.len() == 0,
            forall|k: Seq<char>| !r.has(k),
    {
        LoginTable { entries: Vec::new() }
    }

    /// The position of `login`, or `None` when absent.
    pub fn find(&self, login: &String) -> (r: Option<usize>)
        requires
            self.wf(),
        ensures
            r matches Some(i) ==> i < self.entries@.len() && self.entries@[i as int].login@ == login@
                && self.has(login@) && self.pos(login@) == i,
            r is None ==> !self.has(login@),
    {
        let mut i: usize = 0;
        while i < self.entries.len()
            invariant
                self.wf(),
                i <= self.entries@.len(),
                forall|j: int| 0 <= j < i ==> #[trigger] self.entries@[j].login@ != login@,
            decreases self.entries@.len() - i,
        {
            if self.entries[i].login == *login {
                proof {
                    self.lemma_pos(i as int);
                }
                return Some(i);
            }
            i = i + 1;
        }
        None
    }

    /// Adds `login` with `value`, which must not be present yet.
    pub fn push_new(&mut self, login: String, value: V)
        requires
            old(self).wf(),
            !old(self).has(login@),
        ensures
            final(self).wf(),
            final(self).entries@ == old(self).entries@.push(Entry { login, value }),
            final(self).has(login@),
            final(self).get(login@) == Some(value),
            forall|k: Seq<char>| k != login@ ==> final(self).get(k) == old(self).get(k),
            forall|k: Seq<char>| k != login@ ==> (final(self).has(k) == old(self).has(k)),
    {
        let ghost l = login@;
        self.entries.push(Entry { login, value });
        proof {
            let n = self.entries@.len() - 1;
            assert forall|i: int, j: int|
                0 <= i < self.entries@.len() && 0 <= j < self.entries@.len() && i != j
                    implies #[trigger] self.entries@[i].login@ != #[trigger] self.entries@[j].login@ by {
                if i == n {
                    assert(old(self).entries@[j] == self.entries@[j]);
                } else if j == n {
                    assert(old(self).entries@[i] == self.entries@[i]);
                } else {
                    assert(old(self).entries@[i] == self.entries@[i]);
                    assert(old(self).entries@[j] == self.entries@[j]);
                }
            }
            self.lemma_pos(n);
            assert forall|k: Seq<char>| k != l implies (self.has(k) == old(self).has(k)) by {
                if self.has(k) {
                    let p = self.pos(k);
                    assert(old(self).entries@[p] == self.entries@[p]);
                }
                if old(self).has(k) {
                    let p = old(self).pos(k);
                    assert(old(self).entries@[p] == self.entries@[p]);
                }
            }
            assert forall|k: Seq<char>| k != l implies self.get(k) == old(self).get(k) by {
                if old(self).has(k) {
                    let p = old(self).pos(k);
                    assert(old(self).entries@[p] == self.entries@[p]);
                    self.lemma_pos(p);
                    old(self).lemma_pos(p);
                }
            }
        }
    }

    /// Facts about a table whose entry `i` was given a new value.
    pub proof fn lemma_update(old_t: &Self, new_t: &Self, i: int)
        requires
            old_t.wf(),
            0 <= i < old_t.entries@.len(),
            new_t.entries@.len() == old_t.entries@.len(),
            new_t.entries@[i].login@ == old_t.entries@[i].login@,
            forall|j: int| 0 <= j < old_t.entries@.len() && j != i ==> new_t.entries@[j] == old_t.entries@[j],
        ensures
            new_t.wf(),
            new_t.get(old_t.entries@[i].login@) == Some(new_t.entries@[i].value),
            forall|k: Seq<char>| new_t.has(k) == old_t.has(k),
            forall|k: Seq<char>| k != old_t.entries@[i].login@ ==> new_t.get(k) == old_t.get(k),
    {
        assert forall|a: int, b: int|
            0 <= a < new_t.entries@.len() && 0 <= b < new_t.entries@.len() && a != b
                implies #[trigger] new_t.entries@[a].login@ != #[trigger] new_t.entries@[b].login@ by {
            assert(new_t.entries@[a].login@ == old_t.entries@[a].login@);
            assert(new_t.entries@[b].login@ == old_t.entries@[b].login@);
        }
        new_t.lemma_pos(i);
        assert forall|k: Seq<char>| new_t.has(k) == old_t.has(k) by {
            if new_t.has(k) {
                let p = new_t.pos(k);
                assert(new_t.entries@[p].login@ == old_t.entries@[p].login@);
            }
            if old_t.has(k) {
                let p = old_t.pos(k);
                assert(new_t.entries@[p].login@ == old_t.entries@[p].login@);
            }
        }
        assert forall|k: Seq<char>| k != old_t.entries@[i].login@ implies new_t.get(k) == old_t.get(k) by {
            if old_t.has(k) {
                let p = old_t.pos(k);
                old_t.lemma_pos(p);
                assert(p != i);
                assert(new_t.entries@[p] == old_t.entries@[p]);
                new_t.lemma_pos(p);
            }
        }
    }
}

} // verus!
