//! Variable bindings: a name-to-value map. First assignment creates the
//! binding; assigning again rebinds. Viewed as a `Map<Seq<char>, ValV>`.

use vstd::prelude::*;

use crate::interpreter::ValV;
use crate::interpreter::Value;

verus! {

/// The variable bindings of a runtime context.
pub struct VarMap {
    entries: Vec<(String, Value)>,
}

/// The map described by a list of entries; a later entry for a name
/// overrides an earlier one.
pub open spec fn map_of(es: Seq<(String, Value)>) -> Map<Seq<char>, ValV>
    decreases es.len(),
{
    if es.len() == 0 {
        Map::empty()
    } else {
        map_of(es.drop_last()).insert(es.last().0@, es.last().1@)
    }
}

/// No two entries bind the same name.
pub open spec fn distinct_keys(es: Seq<(String, Value)>) -> bool {
    forall|i: int, j: int| 0 <= i < j < es.len() ==> es[i].0@ != es[j].0@
}

/// With distinct keys, the map of a list binds exactly the listed names,
/// each to its listed value.
proof fn lemma_map_of_entries(es: Seq<(String, Value)>)
    requires
        distinct_keys(es),
    ensures
        forall|i: int|
            0 <= i < es.len() ==> map_of(es).contains_key(#[trigger] es[i].0@) && map_of(es)[es[i].0@]
                == es[i].1@,
        forall|k: Seq<char>|
            map_of(es).contains_key(k) ==> exists|i: int| 0 <= i < es.len() && #[trigger] es[i].0@ == k,
    decreases es.len(),
{
    if es.len() > 0 {
        let prefix = es.drop_last();
        assert(distinct_keys(prefix)) by {
            assert(forall|i: int, j: int|
                0 <= i < j < prefix.len() ==> prefix[i].0@ != prefix[j].0@) by {
                assert(forall|i: int| 0 <= i < prefix.len() ==> prefix[i] == es[i]);
            }
        }
        lemma_map_of_entries(prefix);
        assert(forall|i: int| 0 <= i < prefix.len() ==> es[i] == prefix[i]);
        assert forall|k: Seq<char>| map_of(es).contains_key(k) implies exists|i: int|
            0 <= i < es.len() && #[trigger] es[i].0@ == k by {
            if k == es.last().0@ {
                assert(es[es.len() - 1].0@ == k);
            } else {
                assert(map_of(prefix).contains_key(k));
                let j = choose|j: int| 0 <= j < prefix.len() && #[trigger] prefix[j].0@ == k;
                assert(es[j].0@ == k);
            }
        }
    }
}

impl View for VarMap {
    type V = Map<Seq<char>, ValV>;

    closed spec fn view(&self) -> Map<Seq<char>, ValV> {
        map_of(self.entries@)
    }
}

impl VarMap {
    /// The map's invariant: no name is bound twice.
    pub closed spec fn wf(&self) -> bool {
        distinct_keys(self.entries@)
    }

    /// An empty set of bindings.
    pub fn new() -> (r: VarMap)
        ensures
            r.wf(),
            r@ == Map::<Seq<char>, ValV>::empty(),
    {
        VarMap { entries: Vec::new() }
    }

    /// Removes every binding.
    pub fn clear(&mut self)
        ensures
            final(self).wf(),
            final(self)@ == Map::<Seq<char>, ValV>::empty(),
    {
        self.entries = Vec::new();
    }

    /// Binds `name` to `value`, replacing any earlier binding.
    pub fn insert(&mut self, name: &String, value: Value)
        requires
            old(self).wf(),
        ensures
            final(self).wf(),
            final(self)@ == old(self)@.insert(name@, value@),
    {
        let ghost vv = value@;
        let mut i: usize = 0;
        while i < self.entries.len()
            invariant
                self == old(self),
                old(self).wf(),
                vv == value@,
                i <= self.entries@.len(),
                forall|j: int| 0 <= j < i ==> #[trigger] self.entries@[j].0@ != name@,
            decreases self.entries@.len() - i,
        {
            if self.entries[i].0 == *name {
                let ghost es0 = self.entries@;
                let nm = self.entries[i].0.clone();
                self.entries[i] = (nm, value);
                proof {
                    let es1 = self.entries@;
                    assert(es1[i as int].0@ == name@);
                    assert(es0[i as int].0@ == name@);
                    assert forall|a: int, b: int| 0 <= a < b < es1.len() implies es1[a].0@
                        != es1[b].0@ by {
                        assert(es1[a].0@ == es0[a].0@);
                        assert(es1[b].0@ == es0[b].0@);
                    }
                    lemma_map_of_entries(es0);
                    lemma_map_of_entries(es1);
                    let m1 = map_of(es1);
                    let m2 = map_of(es0).insert(name@, vv);
                    assert forall|k: Seq<char>| m1.contains_key(k) implies m2.contains_key(k)
                        && m1[k] == m2[k] by {
                        let j = choose|j: int| 0 <= j < es1.len() && #[trigger] es1[j].0@ == k;
                        if j == i {
                            assert(k == name@);
                            assert(m1[k] == es1[i as int].1@);
                        } else {
                            assert(es0[j].0@ == k);
                            assert(es0[j].0@ != es0[i as int].0@);
                            assert(k != name@);
                            assert(m1[k] == es1[j].1@);
                            assert(map_of(es0)[k] == es0[j].1@);
                        }
                    }
                    assert forall|k: Seq<char>| m2.contains_key(k) implies m1.contains_key(k) by {
                        if k == name@ {
                            assert(es1[i as int].0@ == k);
                        } else {
                            assert(map_of(es0).contains_key(k));
                            let j = choose|j: int|
                                0 <= j < es0.len() && #[trigger] es0[j].0@ == k;
                            assert(es1[j].0@ == k);
                        }
                    }
                    assert(m1 =~= m2);
                }
                return ;
            }
            i = i + 1;
        }
        let ghost es0 = self.entries@;
        self.entries.push((name.clone(), value));
        proof {
            let es1 = self.entries@;
            assert(es1.drop_last() =~= es0);
            assert(es1.last().0@ == name@);
            assert(es1.last().1@ == vv);
            assert forall|a: int, b: int| 0 <= a < b < es1.len() implies es1[a].0@ != es1[b].0@ by {
                assert(es1[a] == es0[a]);
                if b < es1.len() - 1 {
                    assert(es1[b] == es0[b]);
                } else {
                    assert(es1[b].0@ == name@);
                    assert(es0[a].0@ != name@);
                }
            }
            assert(map_of(es1) == map_of(es1.drop_last()).insert(es1.last().0@, es1.last().1@));
            assert(map_of(es1.drop_last()) == map_of(es0));
        }
    }

    /// The value bound to `name`, if any.
    pub fn get(&self, name: &String) -> (r: Option<Value>)
        requires
            self.wf(),
        ensures
            match r {
                Option::Some(v) => self@.contains_key(name@) && v@ == self@[name@],
                Option::None => !self@.contains_key(name@),
            },
    {
        let mut i: usize = 0;
        while i < self.entries.len()
            invariant
                self.wf(),
                i <= self.entries@.len(),
                forall|j: int| 0 <= j < i ==> #[trigger] self.entries@[j].0@ != name@,
            decreases self.entries@.len() - i,
        {
            if self.entries[i].0 == *name {
                proof {
                    lemma_map_of_entries(self.entries@);
                }
                return Option::Some(self.entries[i].1.duplicate());
            }
            i = i + 1;
        }
        proof {
            lemma_map_of_entries(self.entries@);
            if self@.contains_key(name@) {
                let j = choose|j: int|
                    0 <= j < self.entries@.len() && #[trigger] self.entries@[j].0@ == name@;
                assert(false);
            }
        }
        Option::None
    }
}

} // verus!
