//! Tabular value stores.
//!
//! `VTable` maps a state to an estimated return; `QTable` maps a
//! (state, action) pair to one. Both are association lists with unique keys,
//! viewed as a `Map` whose values are specification-level rationals. A key
//! that was never written denotes the value zero: the cold-start rule.

use vstd::prelude::*;

use crate::rat::Rat;
use crate::rat::q_zero;

verus! {

/// The stored value for state `k`: the table entry, or zero when unwritten.
pub open spec fn v_lookup(m: Map<usize, (int, int)>, k: usize) -> (int, int) {
    if m.contains_key(k) {
        m[k]
    } else {
        q_zero()
    }
}

/// The stored value for pair `(s, a)`: the table entry, or zero when unwritten.
pub open spec fn q_lookup(m: Map<(usize, usize), (int, int)>, s: usize, a: usize) -> (int, int) {
    if m.contains_key((s, a)) {
        m[(s, a)]
    } else {
        q_zero()
    }
}

spec fn v_keys_unique(s: Seq<(usize, Rat)>) -> bool {
    forall|i: int, j: int| 0 <= i < j < s.len() ==> s[i].0 != s[j].0
}

spec fn v_map_of(s: Seq<(usize, Rat)>) -> Map<usize, (int, int)>
    decreases s.len(),
{
    if s.len() == 0 {
        Map::empty()
    } else {
        v_map_of(s.drop_last()).insert(s.last().0, s.last().1@)
    }
}

proof fn lemma_v_map_of_index(s: Seq<(usize, Rat)>, i: int)
    requires
        0 <= i < s.len(),
        forall|j: int| i < j < s.len() ==> s[j].0 != s[i].0,
    ensures
        v_map_of(s).contains_key(s[i].0),
        v_map_of(s)[s[i].0] == s[i].1@,
    decreases s.len(),
{
    if i < s.len() - 1 {
        lemma_v_map_of_index(s.drop_last(), i);
    }
}

proof fn lemma_v_map_of_absent(s: Seq<(usize, Rat)>, k: usize)
    requires
        forall|i: int| 0 <= i < s.len() ==> s[i].0 != k,
    ensures
        !v_map_of(s).contains_key(k),
    decreases s.len(),
{
    if s.len() > 0 {
        lemma_v_map_of_absent(s.drop_last(), k);
    }
}

proof fn lemma_v_map_of_update(s: Seq<(usize, Rat)>, i: int, v: Rat)
    requires
        v_keys_unique(s),
        0 <= i < s.len(),
    ensures
        v_map_of(s.update(i, (s[i].0, v))) == v_map_of(s).insert(s[i].0, v@),
    decreases s.len(),
{
    let t = s.update(i, (s[i].0, v));
    if i == s.len() - 1 {
        assert(t.drop_last() =~= s.drop_last());
        assert(v_map_of(t) =~= v_map_of(s).insert(s[i].0, v@));
    } else {
        lemma_v_map_of_update(s.drop_last(), i, v);
        assert(t.drop_last() =~= s.drop_last().update(i, (s[i].0, v)));
        assert(t.last() == s.last());
        assert(s[i].0 != s.last().0);
        assert(v_map_of(t) =~= v_map_of(s).insert(s[i].0, v@));
    }
}

/// State-value table: each state holds one estimated return.
pub struct VTable {
    items: Vec<(usize, Rat)>,
}

impl View for VTable {
    type V = Map<usize, (int, int)>;

    closed spec fn view(&self) -> Map<usize, (int, int)> {
        v_map_of(self.items@)
    }
}

impl VTable {
    #[verifier::type_invariant]
    spec fn type_inv(self) -> bool {
        v_keys_unique(self.items@)
    }

    /// A table with no entries.
    pub fn new() -> (r: VTable)
        ensures
            r@ == Map::<usize, (int, int)>::empty(),
    {
        VTable { items: Vec::new() }
    }

    /// The stored value for `state`, or zero if it was never written.
    pub fn get(&self, state: usize) -> (r: Rat)
        ensures
            r@ == v_lookup(self@, state),
    {
        proof {
            use_type_invariant(&*self);
        }
        let n = self.items.len();
        let mut i: usize = 0;
        while i < n
            invariant
                n == self.items@.len(),
                0 <= i <= n,
                v_keys_unique(self.items@),
                forall|j: int| 0 <= j < i ==> self.items@[j].0 != state,
            decreases n - i,
        {
            if self.items[i].0 == state {
                proof {
                    lemma_v_map_of_index(self.items@, i as int);
                }
                return self.items[i].1;
            }
            i += 1;
        }
        proof {
            lemma_v_map_of_absent(self.items@, state);
        }
        Rat::zero()
    }

    /// Write `value` for `state`, replacing any earlier entry.
    pub fn set(&mut self, state: usize, value: Rat)
        ensures
            final(self)@ == old(self)@.insert(state, value@),
    {
        proof {
            use_type_invariant(&*self);
        }
        let mut items: Vec<(usize, Rat)> = Vec::new();
        core::mem::swap(&mut items, &mut self.items);
        let n = items.len();
        let mut i: usize = 0;
        while i < n
            invariant
                n == items@.len(),
                0 <= i <= n,
                v_keys_unique(items@),
                items@ == old(self).items@,
                forall|j: int| 0 <= j < i ==> items@[j].0 != state,
            decreases n - i,
        {
            if items[i].0 == state {
                proof {
                    lemma_v_map_of_update(items@, i as int, value);
                }
                items.set(i, (state, value));
                self.items = items;
                return ;
            }
            i += 1;
        }
        items.push((state, value));
        proof {
            assert(items@.drop_last() =~= old(self).items@);
        }
        self.items = items;
    }

    /// An identical copy of the table.
    pub fn duplicate(&self) -> (r: VTable)
        ensures
            r@ == self@,
    {
        proof {
            use_type_invariant(&*self);
        }
        let n = self.items.len();
        let mut items: Vec<(usize, Rat)> = Vec::new();
        let mut i: usize = 0;
        while i < n
            invariant
                n == self.items@.len(),
                0 <= i <= n,
                items@ == self.items@.take(i as int),
            decreases n - i,
        {
            items.push(self.items[i]);
            proof {
                assert(items@ =~= self.items@.take(i + 1));
            }
            i += 1;
        }
        proof {
            assert(items@ =~= self.items@);
        }
        VTable { items }
    }

    /// The number of states that were written at least once.
    pub fn len(&self) -> (r: usize)
        ensures
            r == self@.dom().len(),
    {
        proof {
            use_type_invariant(&*self);
            lemma_v_dom_len(self.items@);
        }
        self.items.len()
    }

    /// The entries, one per written state, in insertion order.
    pub fn entries(&self) -> (r: &Vec<(usize, Rat)>)
        ensures
            r@.len() == self@.dom().len(),
            forall|i: int|
                0 <= i < r@.len() ==> self@.contains_key(#[trigger] r@[i].0) && self@[r@[i].0]
                    == r@[i].1@,
            forall|k: usize|
                self@.contains_key(k) ==> exists|i: int| 0 <= i < r@.len() && r@[i].0 == k,
    {
        proof {
            use_type_invariant(&*self);
            lemma_v_dom_len(self.items@);
            assert forall|i: int| 0 <= i < self.items@.len() implies self@.contains_key(
                #[trigger] self.items@[i].0,
            ) && self@[self.items@[i].0] == self.items@[i].1@ by {
                lemma_v_map_of_index(self.items@, i);
            }
            assert forall|k: usize| self@.contains_key(k) implies exists|i: int|
                0 <= i < self.items@.len() && self.items@[i].0 == k by {
                if forall|i: int| 0 <= i < self.items@.len() ==> self.items@[i].0 != k {
                    lemma_v_map_of_absent(self.items@, k);
                }
            }
        }
        &self.items
    }
}

proof fn lemma_v_dom_len(s: Seq<(usize, Rat)>)
    requires
        v_keys_unique(s),
    ensures
        v_map_of(s).dom().len() == s.len(),
        v_map_of(s).dom().finite(),
    decreases s.len(),
{
    if s.len() > 0 {
        lemma_v_dom_len(s.drop_last());
        lemma_v_map_of_absent(s.drop_last(), s.last().0);
    }
}

spec fn q_keys_unique(s: Seq<((usize, usize), Rat)>) -> bool {
    forall|i: int, j: int| 0 <= i < j < s.len() ==> s[i].0 != s[j].0
}

spec fn q_map_of(s: Seq<((usize, usize), Rat)>) -> Map<(usize, usize), (int, int)>
    decreases s.len(),
{
    if s.len() == 0 {
        Map::empty()
    } else {
        q_map_of(s.drop_last()).insert(s.last().0, s.last().1@)
    }
}

proof fn lemma_q_map_of_index(s: Seq<((usize, usize), Rat)>, i: int)
    requires
        0 <= i < s.len(),
        forall|j: int| i < j < s.len() ==> s[j].0 != s[i].0,
    ensures
        q_map_of(s).contains_key(s[i].0),
        q_map_of(s)[s[i].0] == s[i].1@,
    decreases s.len(),
{
    if i < s.len() - 1 {
        lemma_q_map_of_index(s.drop_last(), i);
    }
}

proof fn lemma_q_map_of_absent(s: Seq<((usize, usize), Rat)>, k: (usize, usize))
    requires
        forall|i: int| 0 <= i < s.len() ==> s[i].0 != k,
    ensures
        !q_map_of(s).contains_key(k),
    decreases s.len(),
{
    if s.len() > 0 {
        lemma_q_map_of_absent(s.drop_last(), k);
    }
}

proof fn lemma_q_map_of_update(s: Seq<((usize, usize), Rat)>, i: int, v: Rat)
    requires
        q_keys_unique(s),
        0 <= i < s.len(),
    ensures
        q_map_of(s.update(i, (s[i].0, v))) == q_map_of(s).insert(s[i].0, v@),
    decreases s.len(),
{
    let t = s.update(i, (s[i].0, v));
    if i == s.len() - 1 {
        assert(t.drop_last() =~= s.drop_last());
        assert(q_map_of(t) =~= q_map_of(s).insert(s[i].0, v@));
    } else {
        lemma_q_map_of_update(s.drop_last(), i, v);
        assert(t.drop_last() =~= s.drop_last().update(i, (s[i].0, v)));
        assert(t.last() == s.last());
        assert(s[i].0 != s.last().0);
        assert(q_map_of(t) =~= q_map_of(s).insert(s[i].0, v@));
    }
}

proof fn lemma_q_dom_len(s: Seq<((usize, usize), Rat)>)
    requires
        q_keys_unique(s),
    ensures
        q_map_of(s).dom().len() == s.len(),
        q_map_of(s).dom().finite(),
    decreases s.len(),
{
    if s.len() > 0 {
        lemma_q_dom_len(s.drop_last());
        lemma_q_map_of_absent(s.drop_last(), s.last().0);
    }
}

/// Action-value table: each (state, action) pair holds one estimated return.
pub struct QTable {
    items: Vec<((usize, usize), Rat)>,
}

impl View for QTable {
    type V = Map<(usize, usize), (int, int)>;

    closed spec fn view(&self) -> Map<(usize, usize), (int, int)> {
        q_map_of(self.items@)
    }
}

impl QTable {
    #[verifier::type_invariant]
    spec fn type_inv(self) -> bool {
        q_keys_unique(self.items@)
    }

    /// A table with no entries.
    pub fn new() -> (r: QTable)
        ensures
            r@ == Map::<(usize, usize), (int, int)>::empty(),
    {
        QTable { items: Vec::new() }
    }

    /// The stored value for `(state, action)`, or zero if it was never written.
    pub fn get(&self, state: usize, action: usize) -> (r: Rat)
        ensures
            r@ == q_lookup(self@, state, action),
    {
        proof {
            use_type_invariant(&*self);
        }
        let n = self.items.len();
        let mut i: usize = 0;
        while i < n
            invariant
                n == self.items@.len(),
                0 <= i <= n,
                q_keys_unique(self.items@),
                forall|j: int| 0 <= j < i ==> self.items@[j].0 != (state, action),
            decreases n - i,
        {
            let key = self.items[i].0;
            if key.0 == state && key.1 == action {
                proof {
                    lemma_q_map_of_index(self.items@, i as int);
                }
                return self.items[i].1;
            }
            i += 1;
        }
        proof {
            lemma_q_map_of_absent(self.items@, (state, action));
        }
        Rat::zero()
    }

    /// Write `value` for `(state, action)`, replacing any earlier entry.
    pub fn set(&mut self, state: usize, action: usize, value: Rat)
        ensures
            final(self)@ == old(self)@.insert((state, action), value@),
    {
        proof {
            use_type_invariant(&*self);
        }
        let mut items: Vec<((usize, usize), Rat)> = Vec::new();
        core::mem::swap(&mut items, &mut self.items);
        let n = items.len();
        let mut i: usize = 0;
        while i < n
            invariant
                n == items@.len(),
                0 <= i <= n,
                q_keys_unique(items@),
                items@ == old(self).items@,
                forall|j: int| 0 <= j < i ==> items@[j].0 != (state, action),
            decreases n - i,
        {
            let key = items[i].0;
            if key.0 == state && key.1 == action {
                proof {
                    lemma_q_map_of_update(items@, i as int, value);
                }
                items.set(i, ((state, action), value));
                self.items = items;
                return ;
            }
            i += 1;
        }
        items.push(((state, action), value));
        proof {
            assert(items@.drop_last() =~= old(self).items@);
        }
        self.items = items;
    }

    /// An identical copy of the table.
    pub fn duplicate(&self) -> (r: QTable)
        ensures
            r@ == self@,
    {
        proof {
            use_type_invariant(&*self);
        }
        let n = self.items.len();
        let mut items: Vec<((usize, usize), Rat)> = Vec::new();
        let mut i: usize = 0;
        while i < n
            invariant
                n == self.items@.len(),
                0 <= i <= n,
                items@ == self.items@.take(i as int),
            decreases n - i,
        {
            items.push(self.items[i]);
            proof {
                assert(items@ =~= self.items@.take(i + 1));
            }
            i += 1;
        }
        proof {
            assert(items@ =~= self.items@);
        }
        QTable { items }
    }

    /// The number of pairs that were written at least once.
    pub fn len(&self) -> (r: usize)
        ensures
            r == self@.dom().len(),
    {
        proof {
            use_type_invariant(&*self);
            lemma_q_dom_len(self.items@);
        }
        self.items.len()
    }

    /// The entries, one per written (state, action) pair, in insertion order.
    pub fn entries(&self) -> (r: &Vec<((usize, usize), Rat)>)
        ensures
            r@.len() == self@.dom().len(),
            forall|i: int|
                0 <= i < r@.len() ==> self@.contains_key(#[trigger] r@[i].0) && self@[r@[i].0]
                    == r@[i].1@,
            forall|k: (usize, usize)|
                self@.contains_key(k) ==> exists|i: int| 0 <= i < r@.len() && r@[i].0 == k,
    {
        proof {
            use_type_invariant(&*self);
            lemma_q_dom_len(self.items@);
            assert forall|i: int| 0 <= i < self.items@.len() implies self@.contains_key(
                #[trigger] self.items@[i].0,
            ) && self@[self.items@[i].0] == self.items@[i].1@ by {
                lemma_q_map_of_index(self.items@, i);
            }
            assert forall|k: (usize, usize)| self@.contains_key(k) implies exists|i: int|
                0 <= i < self.items@.len() && self.items@[i].0 == k by {
                if forall|i: int| 0 <= i < self.items@.len() ==> self.items@[i].0 != k {
                    lemma_q_map_of_absent(self.items@, k);
                }
            }
        }
        &self.items
    }
}

} // verus!
