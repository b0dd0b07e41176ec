//! The variable environment: one flat table from names to values.
use vstd::prelude::*;

verus! {

/// The variables of a run, each name bound to the value it was last given.
pub struct Environment {
    symbol_table: Vec<(String, i64)>,
    map: Ghost<Map<Seq<char>, i64>>,
}

impl View for Environment {
    type V = Map<Seq<char>, i64>;

    closed spec fn view(&self) -> Map<Seq<char>, i64> {
        self.map@
    }
}

impl Environment {
    /// Names in the table are distinct, and the table holds exactly the
    /// bindings of the map.
    pub closed spec fn wf(&self) -> bool {
        let t = self.symbol_table@;
        &&& forall|i: int, j: int|
            0 <= i < j < t.len() ==> #[trigger] t[i].0@ != #[trigger] t[j].0@
        &&& forall|k: Seq<char>|
            #[trigger] self.map@.contains_key(k) <==> exists|i: int|
                0 <= i < t.len() && #[trigger] t[i].0@ == k
        &&& forall|i: int| 0 <= i < t.len() ==> self.map@[#[trigger] t[i].0@] == t[i].1
    }

    /// An environment with no variables.
    pub fn new() -> (r: Environment)
        ensures
            r.wf(),
            r@ == Map::<Seq<char>, i64>::empty(),
    {
        Environment { symbol_table: Vec::new(), map: Ghost(Map::empty()) }
    }

    /// The value bound to `name`, if any.
    pub fn lookup(&self, name: &String) -> (r: Option<i64>)
        requires
            self.wf(),
        ensures
            r == (if self@.contains_key(name@) {
                Some(self@[name@])
            } else {
                None
            }),
    {
        let mut i: usize = 0;
        while i < self.symbol_table.len()
            invariant
                i <= self.symbol_table@.len(),
                self.wf(),
                forall|j: int| 0 <= j < i ==> (#[trigger] self.symbol_table@[j]).0@ != name@,
            decreases self.symbol_table@.len() - i,
        {
            if self.symbol_table[i].0.eq(name) {
                proof {
                    let t = self.symbol_table@;
                    assert(t[i as int].0@ == name@);
                    assert(self.map@.contains_key(t[i as int].0@));
                }
                return Some(self.symbol_table[i].1);
            }
            i = i + 1;
        }
        proof {
            if self.map@.contains_key(name@) {
                let j = choose|j: int|
                    0 <= j < self.symbol_table@.len() && #[trigger] self.symbol_table@[j].0@
                        == name@;
                assert(self.symbol_table@[j].0@ != name@);
            }
        }
        None
    }

    /// Binds `name` to `value`, replacing an earlier binding.
    pub fn assign(&mut self, name: &String, value: i64)
        requires
            old(self).wf(),
        ensures
            final(self).wf(),
            final(self)@ == old(self)@.insert(name@, value),
    {
        let mut i: usize = 0;
        while i < self.symbol_table.len()
            invariant
                i <= self.symbol_table@.len(),
                self.wf(),
                *self == *old(self),
                forall|j: int| 0 <= j < i ==> (#[trigger] self.symbol_table@[j]).0@ != name@,
            decreases self.symbol_table@.len() - i,
        {
            if self.symbol_table[i].0.eq(name) {
                let ghost t = self.symbol_table@;
                self.symbol_table.set(i, (name.clone(), value));
                self.map = Ghost(self.map@.insert(name@, value));
                proof {
                    let t2 = self.symbol_table@;
                    assert forall|j: int| 0 <= j < t2.len() implies self.map@[#[trigger] t2[j].0@]
                        == t2[j].1 by {
                        if j != i {
                            assert(t[j].0@ != t[i as int].0@);
                        }
                    }
                    assert forall|k: Seq<char>| #[trigger] self.map@.contains_key(k) implies exists|
                        j: int,
                    | 0 <= j < t2.len() && #[trigger] t2[j].0@ == k by {
                        if k != name@ {
                            let j = choose|j: int| 0 <= j < t.len() && #[trigger] t[j].0@ == k;
                            assert(t2[j].0@ == k);
                        } else {
                            assert(t2[i as int].0@ == k);
                        }
                    }
                    assert forall|a: int, b: int| 0 <= a < b < t2.len() implies #[trigger] t2[a].0@
                        != #[trigger] t2[b].0@ by {
                        assert(t[a].0@ != t[b].0@);
                    }
                }
                return;
            }
            i = i + 1;
        }
        let ghost t = self.symbol_table@;
        self.symbol_table.push((name.clone(), value));
        self.map = Ghost(self.map@.insert(name@, value));
        proof {
            let t2 = self.symbol_table@;
            let n = t.len() as int;
            assert(t2[n].0@ == name@);
            assert forall|j: int| 0 <= j < t2.len() implies self.map@[#[trigger] t2[j].0@]
                == t2[j].1 by {
                if j < n {
                    assert(t2[j] == t[j]);
                }
            }
            assert forall|k: Seq<char>| #[trigger] self.map@.contains_key(k) implies exists|j: int|
                0 <= j < t2.len() && #[trigger] t2[j].0@ == k by {
                if k != name@ {
                    let j = choose|j: int| 0 <= j < t.len() && #[trigger] t[j].0@ == k;
                    assert(t2[j] == t[j]);
                }
            }
            assert forall|k: Seq<char>|
                (exists|j: int| 0 <= j < t2.len() && #[trigger] t2[j].0@ == k) implies #[trigger] self.map@.contains_key(k) by {
                let j = choose|j: int| 0 <= j < t2.len() && #[trigger] t2[j].0@ == k;
                if j < n {
                    assert(t2[j] == t[j]);
                }
            }
            assert forall|a: int, b: int| 0 <= a < b < t2.len() implies #[trigger] t2[a].0@
                != #[trigger] t2[b].0@ by {
                if b < n {
                    assert(t2[a] == t[a]);
                    assert(t2[b] == t[b]);
                } else {
                    assert(t2[a] == t[a]);
                }
            }
        }
    }

}

} // verus!
