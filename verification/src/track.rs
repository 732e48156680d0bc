//! The span tracker: a table from span identifier to the instant its `start`
//! event was observed. Its view is a mathematical map from the identifier's
//! characters to that instant in nanoseconds.

use vstd::prelude::*;
use vstd::map::*;
use crate::json::string_eq;

verus! {

/// The map held by an entry list: a later binding of a key wins.
pub open spec fn map_of(es: Seq<(String, i64)>) -> Map<Seq<char>, i64>
    decreases es.len(),
{
    if es.len() == 0 {
        Map::empty()
    } else {
        map_of(es.drop_last()).insert(es.last().0@, es.last().1)
    }
}

pub open spec fn distinct_keys(es: Seq<(String, i64)>) -> bool {
    forall|i: int, j: int| 0 <= i < j < es.len() ==> es[i].0@ != es[j].0@
}

proof fn lemma_map_of(es: Seq<(String, i64)>)
    requires
        distinct_keys(es),
    ensures
        forall|i: int|
            0 <= i < es.len() ==> map_of(es).contains_key(#[trigger] es[i].0@) && map_of(es)[es[i].0@]
                == es[i].1,
        forall|k: Seq<char>|
            map_of(es).contains_key(k) ==> exists|i: int|
                0 <= i < es.len() && (#[trigger] es[i].0@) == k,
        map_of(es).dom().finite(),
        map_of(es).dom().len() == es.len(),
    decreases es.len(),
{
    if es.len() > 0 {
        let head = es.drop_last();
        assert(forall|i: int| 0 <= i < head.len() ==> head[i] == es[i]);
        lemma_map_of(head);
        assert(forall|i: int| 0 <= i < es.len() - 1 ==> es[i].0@ != es.last().0@);
        assert(!map_of(head).contains_key(es.last().0@));
        assert(forall|i: int|
            0 <= i < es.len() - 1 ==> map_of(es).contains_key(#[trigger] es[i].0@) && map_of(
                es,
            )[es[i].0@] == es[i].1);
    }
}

proof fn lemma_map_of_remove(es: Seq<(String, i64)>, i: int)
    requires
        distinct_keys(es),
        0 <= i < es.len(),
    ensures
        map_of(es.remove(i)) == map_of(es).remove(es[i].0@),
    decreases es.len(),
{
    lemma_map_of(es);
    let k = es[i].0@;
    if i == es.len() - 1 {
        assert(es.remove(i) =~= es.drop_last());
        lemma_map_of(es.drop_last());
        assert(forall|j: int| 0 <= j < es.len() - 1 ==> es.drop_last()[j] == es[j]);
        assert(!map_of(es.drop_last()).contains_key(k));
        assert_maps_equal!(map_of(es.drop_last()), map_of(es).remove(k));
    } else {
        let head = es.drop_last();
        assert(forall|j: int| 0 <= j < head.len() ==> head[j] == es[j]);
        lemma_map_of_remove(head, i);
        assert(es.remove(i).drop_last() =~= head.remove(i));
        assert(es.remove(i).last() == es.last());
        assert(map_of(es.remove(i)) == map_of(head.remove(i)).insert(es.last().0@, es.last().1));
        assert(k != es.last().0@);
        assert_maps_equal!(
            map_of(head).remove(k).insert(es.last().0@, es.last().1),
            map_of(head).insert(es.last().0@, es.last().1).remove(k)
        );
    }
}

/// The table of open spans, keyed by span identifier. Each key is bound at
/// most once, and every recorded instant is non-negative.
pub struct SpanTable {
    entries: Vec<(String, i64)>,
}

impl SpanTable {
    pub closed spec fn wf(self) -> bool {
        distinct_keys(self.entries@) && forall|i: int|
            0 <= i < self.entries@.len() ==> self.entries@[i].1 >= 0
    }

    pub closed spec fn view(self) -> Map<Seq<char>, i64> {
        map_of(self.entries@)
    }

    /// An empty table: no span is open.
    pub fn new() -> (r: SpanTable)
        ensures
            r.wf(),
            r@ == Map::<Seq<char>, i64>::empty(),
    {
        SpanTable { entries: Vec::new() }
    }

    /// Every instant the table holds is non-negative.
    pub proof fn lemma_times_nonneg(self)
        requires
            self.wf(),
        ensures
            forall|k: Seq<char>| self@.contains_key(k) ==> self@[k] >= 0,
    {
        lemma_map_of(self.entries@);
    }

    /// The number of open spans.
    pub fn open_count(&self) -> (r: usize)
        requires
            self.wf(),
        ensures
            r == self@.dom().len(),
    {
        proof {
            lemma_map_of(self.entries@);
        }
        self.entries.len()
    }

    /// The recorded start instant of an open span, `None` where none is open
    /// under this identifier.
    pub fn get(&self, id: &String) -> (r: Option<i64>)
        requires
            self.wf(),
        ensures
            r == if self@.contains_key(id@) {
                Some(self@[id@])
            } else {
                None::<i64>
            },
    {
        proof {
            lemma_map_of(self.entries@);
        }
        let mut i: usize = 0;
        while i < self.entries.len()
            invariant
                self.wf(),
                0 <= i <= self.entries@.len(),
                forall|j: int| 0 <= j < i ==> self.entries@[j].0@ != id@,
            decreases self.entries@.len() - i,
        {
            if string_eq(&self.entries[i].0, id) {
                proof {
                    lemma_map_of(self.entries@);
                }
                return Some(self.entries[i].1);
            }
            i += 1;
        }
        proof {
            lemma_map_of(self.entries@);
            if self@.contains_key(id@) {
                let j = choose|j: int|
                    0 <= j < self.entries@.len() && (#[trigger] self.entries@[j].0@) == id@;
                assert(false);
            }
        }
        None
    }

    /// Record a `start`: bind the identifier to `t`, overwriting any earlier
    /// start under the same identifier (the last start wins).
    pub fn set(&mut self, id: String, t: i64)
        requires
            old(self).wf(),
            t >= 0,
        ensures
            final(self).wf(),
            final(self)@ == old(self)@.insert(id@, t),
    {
        proof {
            lemma_map_of(self.entries@);
        }
        let ghost es0 = self.entries@;
        let mut i: usize = 0;
        while i < self.entries.len()
            invariant
                self.entries@ == es0,
                es0 == old(self).entries@,
                distinct_keys(es0),
                forall|j: int| 0 <= j < es0.len() ==> es0[j].1 >= 0,
                t >= 0,
                0 <= i <= es0.len(),
                forall|j: int| 0 <= j < i ==> es0[j].0@ != id@,
            decreases es0.len() - i,
        {
            if string_eq(&self.entries[i].0, &id) {
                let ghost k = id@;
                self.entries.remove(i);
                self.entries.push((id, t));
                proof {
                    lemma_map_of_remove(es0, i as int);
                    let es1 = es0.remove(i as int);
                    let es2 = self.entries@;
                    assert(es2.drop_last() =~= es1);
                    assert(map_of(es2) == map_of(es0).remove(k).insert(k, t));
                    assert_maps_equal!(map_of(es0).remove(k).insert(k, t), map_of(es0).insert(k, t));
                    assert(forall|j: int|
                        0 <= j < es1.len() ==> #[trigger] es1[j] == if j < i {
                            es0[j]
                        } else {
                            es0[j + 1]
                        });
                    assert(es2.last().0@ == k);
                    assert forall|a: int, b: int| 0 <= a < b < es2.len() implies es2[a].0@
                        != es2[b].0@ by {
                        assert(es2[a] == es1[a]);
                        if b < es2.len() - 1 {
                            assert(es2[b] == es1[b]);
                        }
                    }
                    assert forall|j: int| 0 <= j < es2.len() implies es2[j].1 >= 0 by {
                        if j < es2.len() - 1 {
                            assert(es2[j] == es1[j]);
                            assert(es1[j] == if j < i {
                                es0[j]
                            } else {
                                es0[j + 1]
                            });
                            assert(es2[j].1 >= 0);
                        } else {
                            assert(es2[j] == es2.last());
                            assert(t >= 0);
                            assert(es2[j].1 == t);
                            assert(es2[j].1 >= 0);
                        }
                    }
                    assert(self.wf());
                }
                return;
            }
            i += 1;
        }
        let ghost k = id@;
        self.entries.push((id, t));
        proof {
            assert(self.entries@.drop_last() =~= es0);
            assert(map_of(self.entries@) == map_of(es0).insert(k, t));
        }
    }

    /// Consume a `start`: remove the identifier's binding and return the
    /// recorded instant, `None` where no span is open under this identifier.
    pub fn take(&mut self, id: &String) -> (r: Option<i64>)
        requires
            old(self).wf(),
        ensures
            final(self).wf(),
            r == if old(self)@.contains_key(id@) {
                Some(old(self)@[id@])
            } else {
                None::<i64>
            },
            final(self)@ == old(self)@.remove(id@),
            r is Some ==> r->0 >= 0,
    {
        proof {
            lemma_map_of(self.entries@);
        }
        let ghost es0 = self.entries@;
        let mut i: usize = 0;
        while i < self.entries.len()
            invariant
                self.entries@ == es0,
                es0 == old(self).entries@,
                distinct_keys(es0),
                forall|j: int| 0 <= j < es0.len() ==> es0[j].1 >= 0,
                0 <= i <= es0.len(),
                forall|j: int| 0 <= j < i ==> es0[j].0@ != id@,
            decreases es0.len() - i,
        {
            if string_eq(&self.entries[i].0, id) {
                let e = self.entries.remove(i);
                proof {
                    lemma_map_of(es0);
                    lemma_map_of_remove(es0, i as int);
                    assert(forall|j: int|
                        0 <= j < es0.remove(i as int).len() ==> #[trigger] es0.remove(i as int)[j]
                            == if j < i { es0[j] } else { es0[j + 1] });
                    assert(self.wf());
                }
                return Some(e.1);
            }
            i += 1;
        }
        proof {
            lemma_map_of(es0);
            if old(self)@.contains_key(id@) {
                let j = choose|j: int| 0 <= j < es0.len() && (#[trigger] es0[j].0@) == id@;
                assert(false);
            }
            assert_maps_equal!(map_of(es0).remove(id@), map_of(es0));
        }
        None
    }
}

} // verus!
