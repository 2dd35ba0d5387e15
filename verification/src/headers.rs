//! A small name-to-value mapping for HTTP headers with last-write-wins
//! insertion, kept as an association list with distinct keys and modelled as a
//! `Map<Seq<char>, Seq<char>>`.

use vstd::prelude::*;
use crate::text::str_equal;

verus! {

/// The character-level view of an entry list.
pub open spec fn pairs_view(es: Seq<(String, String)>) -> Seq<(Seq<char>, Seq<char>)> {
    es.map_values(|p: (String, String)| (p.0@, p.1@))
}

/// The map induced by an association list; later entries override earlier.
pub open spec fn seq_to_map(ps: Seq<(Seq<char>, Seq<char>)>) -> Map<Seq<char>, Seq<char>>
    decreases ps.len(),
{
    if ps.len() == 0 {
        Map::empty()
    } else {
        seq_to_map(ps.drop_last()).insert(ps.last().0, ps.last().1)
    }
}

/// No two entries share a key.
pub open spec fn distinct_keys(ps: Seq<(Seq<char>, Seq<char>)>) -> bool {
    forall|i: int, j: int| 0 <= i < j < ps.len() ==> ps[i].0 != ps[j].0
}

/// How many entries carry the key `k`.
pub open spec fn count_key(ps: Seq<(Seq<char>, Seq<char>)>, k: Seq<char>) -> nat
    decreases ps.len(),
{
    if ps.len() == 0 {
        0
    } else {
        count_key(ps.drop_last(), k) + if ps.last().0 == k { 1nat } else { 0nat }
    }
}

/// A key is in the induced map exactly when some entry carries it, and with
/// distinct keys each entry gives its key's value.
pub proof fn lemma_seq_to_map_props(ps: Seq<(Seq<char>, Seq<char>)>)
    ensures
        forall|k: Seq<char>| #[trigger] seq_to_map(ps).contains_key(k) <==> exists|i: int|
            0 <= i < ps.len() && ps[i].0 == k,
        distinct_keys(ps) ==> forall|i: int| 0 <= i < ps.len() ==> seq_to_map(ps)[ps[i].0]
            == #[trigger] ps[i].1,
    decreases ps.len(),
{
    if ps.len() > 0 {
        lemma_seq_to_map_props(ps.drop_last());
        let q = ps.drop_last();
        assert forall|k: Seq<char>| #[trigger] seq_to_map(ps).contains_key(k) implies exists|i: int|
            0 <= i < ps.len() && ps[i].0 == k by {
            if k == ps.last().0 {
                assert(ps[ps.len() - 1].0 == k);
            } else {
                assert(seq_to_map(q).contains_key(k));
                let i = choose|i: int| 0 <= i < q.len() && q[i].0 == k;
                assert(q[i] == ps[i]);
                assert(ps[i].0 == k);
            }
        }
        assert forall|k: Seq<char>| (exists|i: int| 0 <= i < ps.len() && ps[i].0 == k)
            implies #[trigger] seq_to_map(ps).contains_key(k) by {
            let i = choose|i: int| 0 <= i < ps.len() && ps[i].0 == k;
            if i < ps.len() - 1 {
                assert(q[i] == ps[i]);
                assert(q[i].0 == k);
                assert(seq_to_map(q).contains_key(k));
            }
        }
        if distinct_keys(ps) {
            assert(distinct_keys(q));
            assert forall|i: int| 0 <= i < ps.len() implies seq_to_map(ps)[ps[i].0]
                == #[trigger] ps[i].1 by {
                if i < ps.len() - 1 {
                    assert(ps[i].0 != ps.last().0);
                    assert(q[i] == ps[i]);
                }
            }
        }
    }
}

/// Updating the unique entry that carries `k` is a map-level insert.
pub proof fn lemma_seq_to_map_update(ps: Seq<(Seq<char>, Seq<char>)>, m: int, k: Seq<char>, v: Seq<char>)
    requires
        0 <= m < ps.len(),
        ps[m].0 == k,
        forall|j: int| 0 <= j < ps.len() && j != m ==> ps[j].0 != k,
    ensures
        seq_to_map(ps.update(m, (k, v))) == seq_to_map(ps).insert(k, v),
    decreases ps.len(),
{
    let q = ps.update(m, (k, v));
    if m == ps.len() - 1 {
        assert(q.drop_last() =~= ps.drop_last());
        assert(q.last() == (k, v));
        assert(seq_to_map(q) == seq_to_map(ps.drop_last()).insert(k, v));
        assert(seq_to_map(ps).insert(k, v) =~= seq_to_map(ps.drop_last()).insert(k, v));
    } else {
        assert(q.drop_last() =~= ps.drop_last().update(m, (k, v)));
        assert(ps.drop_last()[m] == ps[m]);
        assert forall|j: int| 0 <= j < ps.drop_last().len() && j != m
            implies ps.drop_last()[j].0 != k by {
            assert(ps.drop_last()[j] == ps[j]);
        }
        lemma_seq_to_map_update(ps.drop_last(), m, k, v);
        assert(q.last() == ps.last());
        assert(seq_to_map(q) == seq_to_map(ps.drop_last()).insert(k, v).insert(
            ps.last().0,
            ps.last().1,
        ));
        assert(ps.last().0 != k);
        assert(seq_to_map(ps.drop_last()).insert(k, v).insert(ps.last().0, ps.last().1)
            =~= seq_to_map(ps.drop_last()).insert(ps.last().0, ps.last().1).insert(k, v));
    }
}

/// With distinct keys, a key that is present is carried by exactly one entry.
pub proof fn lemma_count_key_unique(ps: Seq<(Seq<char>, Seq<char>)>, m: int)
    requires
        distinct_keys(ps),
        0 <= m < ps.len(),
    ensures
        count_key(ps, ps[m].0) == 1,
    decreases ps.len(),
{
    let k = ps[m].0;
    if m == ps.len() - 1 {
        lemma_count_key_absent(ps.drop_last(), k);
    } else {
        assert(ps.drop_last()[m] == ps[m]);
        assert(distinct_keys(ps.drop_last())) by {
            assert forall|i: int, j: int| 0 <= i < j < ps.drop_last().len()
                implies ps.drop_last()[i].0 != ps.drop_last()[j].0 by {
                assert(ps.drop_last()[i] == ps[i]);
                assert(ps.drop_last()[j] == ps[j]);
            }
        }
        lemma_count_key_unique(ps.drop_last(), m);
        assert(ps.last().0 != k);
    }
}

/// A key carried by no entry has count zero.
pub proof fn lemma_count_key_absent(ps: Seq<(Seq<char>, Seq<char>)>, k: Seq<char>)
    requires
        forall|i: int| 0 <= i < ps.len() ==> ps[i].0 != k,
    ensures
        count_key(ps, k) == 0,
    decreases ps.len(),
{
    if ps.len() > 0 {
        assert forall|i: int| 0 <= i < ps.drop_last().len()
            implies ps.drop_last()[i].0 != k by {
            assert(ps.drop_last()[i] == ps[i]);
        }
        lemma_count_key_absent(ps.drop_last(), k);
        assert(ps[ps.len() - 1].0 != k);
    }
}

/// A header mapping: names to values, one entry per name.
#[derive(Debug)]
pub struct HeaderMap {
    entries: Vec<(String, String)>,
}

impl View for HeaderMap {
    type V = Map<Seq<char>, Seq<char>>;

    closed spec fn view(&self) -> Map<Seq<char>, Seq<char>> {
        seq_to_map(pairs_view(self.entries@))
    }
}

impl HeaderMap {
    /// The entries in order, as character sequences.
    pub closed spec fn entries_view(&self) -> Seq<(Seq<char>, Seq<char>)> {
        pairs_view(self.entries@)
    }

    /// Entries carry pairwise distinct names.
    pub open spec fn wf(&self) -> bool {
        distinct_keys(self.entries_view())
    }

    /// The mapping is the one the entries induce.
    pub proof fn lemma_view_is_entries(&self)
        ensures
            self@ == seq_to_map(self.entries_view()),
    {
    }

    /// An empty mapping.
    pub fn new() -> (r: HeaderMap)
        ensures
            r.wf(),
            r@ == Map::<Seq<char>, Seq<char>>::empty(),
            r.entries_view() == Seq::<(Seq<char>, Seq<char>)>::empty(),
    {
        let r = HeaderMap { entries: Vec::new() };
        proof {
            assert(r.entries_view() =~= Seq::<(Seq<char>, Seq<char>)>::empty());
        }
        r
    }

    /// How many entries the mapping holds.
    pub fn entry_count(&self) -> (n: usize)
        ensures
            n == self.entries_view().len(),
    {
        self.entries.len()
    }

    /// The name and value of the entry at `i`.
    pub fn entry_at(&self, i: usize) -> (r: (&String, &String))
        requires
            i < self.entries_view().len(),
        ensures
            r.0@ == self.entries_view()[i as int].0,
            r.1@ == self.entries_view()[i as int].1,
    {
        let p = &self.entries[i];
        (&p.0, &p.1)
    }

    /// Stores `value` under `key`, overwriting any prior value for `key`.
    pub fn insert(&mut self, key: String, value: String)
        requires
            old(self).wf(),
        ensures
            final(self).wf(),
            final(self)@ == old(self)@.insert(key@, value@),
            (forall|j: int| 0 <= j < old(self).entries_view().len()
                ==> old(self).entries_view()[j].0 != key@) ==> final(self).entries_view()
                == old(self).entries_view().push((key@, value@)),
            (exists|j: int| 0 <= j < old(self).entries_view().len()
                && old(self).entries_view()[j].0 == key@) ==> exists|j: int|
                0 <= j < old(self).entries_view().len() && old(self).entries_view()[j].0 == key@
                && final(self).entries_view() == old(self).entries_view().update(
                j,
                (key@, value@),
            ),
    {
        let ghost pv = pairs_view(self.entries@);
        let n = self.entries.len();
        let mut out: Vec<(String, String)> = Vec::new();
        let mut found = false;
        let ghost mut fidx: int = 0;
        let mut i: usize = 0;
        while i < n
            invariant
                i <= n,
                n == self.entries.len(),
                pv == pairs_view(self.entries@),
                distinct_keys(pv),
                out@.len() == i,
                !found ==> pairs_view(out@) =~= pv.subrange(0, i as int) && (forall|j: int|
                    0 <= j < i ==> pv[j].0 != key@),
                found ==> 0 <= fidx < i && pv[fidx].0 == key@ && pairs_view(out@)
                    =~= pv.subrange(0, i as int).update(fidx, (key@, value@)),
            decreases n - i,
        {
            let ghost prev = out@;
            let hit = !found && str_equal(self.entries[i].0.as_str(), key.as_str());
            if hit {
                out.push((key.clone(), value.clone()));
                found = true;
                proof {
                    fidx = i as int;
                    assert(pairs_view(out@) =~~= pairs_view(prev).push((key@, value@)));
                }
            } else {
                out.push((self.entries[i].0.clone(), self.entries[i].1.clone()));
                proof {
                    assert(pairs_view(out@) =~~= pairs_view(prev).push(pv[i as int]));
                }
            }
            i += 1;
            proof {
                if found {
                    assert(pairs_view(out@) =~~= pv.subrange(0, i as int).update(
                        fidx,
                        (key@, value@),
                    ));
                } else {
                    assert(pairs_view(out@) =~~= pv.subrange(0, i as int));
                }
            }
        }
        proof {
            assert(pv.subrange(0, n as int) =~= pv);
        }
        if !found {
            out.push((key, value));
            proof {
                assert(pairs_view(out@) =~= pv.push((key@, value@)));
                assert(pairs_view(out@).drop_last() =~= pv);
            }
        } else {
            proof {
                assert(pairs_view(out@) =~= pv.update(fidx, (key@, value@)));
                assert forall|j: int| 0 <= j < pv.len() && j != fidx
                    implies pv[j].0 != key@ by {
                    if j < fidx {
                        assert(pv[j].0 != pv[fidx].0);
                    }
                }
                lemma_seq_to_map_update(pv, fidx, key@, value@);
            }
        }
        self.entries = out;
    }

    /// Looks a name up, returning its value when one is stored.
    pub fn get(&self, key: &str) -> (r: Option<&String>)
        requires
            self.wf(),
        ensures
            match r {
                Some(v) => self@.contains_key(key@) && self@[key@] == v@,
                None => !self@.contains_key(key@),
            },
    {
        proof {
            lemma_seq_to_map_props(self.entries_view());
        }
        let n = self.entries.len();
        let mut i: usize = 0;
        while i < n
            invariant
                i <= n,
                n == self.entries.len(),
                self.wf(),
                forall|j: int| 0 <= j < i ==> self.entries_view()[j].0 != key@,
            decreases n - i,
        {
            if str_equal(self.entries[i].0.as_str(), key) {
                proof {
                    lemma_seq_to_map_props(self.entries_view());
                    assert(self.entries_view()[i as int].0 == key@);
                    assert(self@.contains_key(key@));
                    assert(self@[self.entries_view()[i as int].0]
                        == self.entries_view()[i as int].1);
                }
                return Some(&self.entries[i].1);
            }
            i += 1;
        }
        proof {
            lemma_seq_to_map_props(self.entries_view());
        }
        None
    }
}

} // verus!
