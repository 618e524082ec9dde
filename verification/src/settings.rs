//! An ordered map from setting names to values, iterated in name order:
//! the shape of the `MYNEWT_VAL_*` configuration the build passes to the C
//! compiler.
use vstd::prelude::*;

use crate::text::{
    lemma_lex_lt_asymmetric, lemma_lex_lt_irreflexive, lemma_lex_lt_total, lemma_lex_lt_transitive,
    lex_lt, str_order,
};

verus! {

/// The entries of a settings map as plain strings, in iteration order.
pub type Entries = Seq<(Seq<char>, Seq<char>)>;

/// Names strictly increase along the entries (so no name occurs twice).
pub open spec fn sorted(e: Entries) -> bool {
    forall|i: int, j: int| 0 <= i < j < e.len() ==> lex_lt(#[trigger] e[i].0, #[trigger] e[j].0)
}

/// The value stored under `k`, if any.
pub open spec fn spec_lookup(e: Entries, k: Seq<char>) -> Option<Seq<char>>
    decreases e.len(),
{
    if e.len() == 0 {
        None
    } else if e[0].0 == k {
        Some(e[0].1)
    } else {
        spec_lookup(e.drop_first(), k)
    }
}

/// Inserting into a map that iterates in name order: a present name has its
/// value replaced in place, a new name goes before the first larger name.
pub open spec fn spec_insert(e: Entries, k: Seq<char>, v: Seq<char>) -> Entries
    decreases e.len(),
{
    if e.len() == 0 {
        seq![(k, v)]
    } else if e[0].0 == k {
        seq![(k, v)] + e.drop_first()
    } else if lex_lt(k, e[0].0) {
        seq![(k, v)] + e
    } else {
        seq![e[0]] + spec_insert(e.drop_first(), k, v)
    }
}

/// Inserts every pair of `pairs`, first to last (a later pair for the same
/// name wins).
pub open spec fn spec_insert_all(e: Entries, pairs: Entries) -> Entries
    decreases pairs.len(),
{
    if pairs.len() == 0 {
        e
    } else {
        spec_insert_all(spec_insert(e, pairs[0].0, pairs[0].1), pairs.drop_first())
    }
}

pub proof fn lemma_insert_sorted(e: Entries, k: Seq<char>, v: Seq<char>)
    requires
        sorted(e),
    ensures
        sorted(spec_insert(e, k, v)),
        forall|i: int|
            0 <= i < spec_insert(e, k, v).len() ==> #[trigger] spec_insert(e, k, v)[i].0 == k
                || exists|j: int| 0 <= j < e.len() && e[j].0 == spec_insert(e, k, v)[i].0,
    decreases e.len(),
{
    let r = spec_insert(e, k, v);
    if e.len() == 0 {
    } else if e[0].0 == k {
        assert forall|i: int, j: int| 0 <= i < j < r.len() implies lex_lt(
            #[trigger] r[i].0,
            #[trigger] r[j].0,
        ) by {
            assert(r[i].0 == e[i].0);
            assert(r[j].0 == e[j].0);
        }
        assert forall|i: int| 0 <= i < r.len() implies #[trigger] r[i].0 == k || exists|j: int|
            0 <= j < e.len() && e[j].0 == r[i].0 by {
            assert(r[i].0 == e[i].0);
        }
    } else if lex_lt(k, e[0].0) {
        assert forall|i: int, j: int| 0 <= i < j < r.len() implies lex_lt(
            #[trigger] r[i].0,
            #[trigger] r[j].0,
        ) by {
            if i == 0 {
                if j > 1 {
                    lemma_lex_lt_transitive(k, e[0].0, e[j - 1].0);
                }
            }
        }
        assert forall|i: int| 0 <= i < r.len() implies #[trigger] r[i].0 == k || exists|j: int|
            0 <= j < e.len() && e[j].0 == r[i].0 by {
            if i > 0 {
                assert(r[i].0 == e[i - 1].0);
            }
        }
    } else {
        let t = e.drop_first();
        lemma_insert_sorted(t, k, v);
        let rt = spec_insert(t, k, v);
        lemma_lex_lt_total(k, e[0].0);
        assert(lex_lt(e[0].0, k));
        assert forall|i: int, j: int| 0 <= i < j < r.len() implies lex_lt(
            #[trigger] r[i].0,
            #[trigger] r[j].0,
        ) by {
            if i == 0 {
                assert(r[j].0 == rt[j - 1].0);
                if rt[j - 1].0 != k {
                    let jj = choose|jj: int| 0 <= jj < t.len() && t[jj].0 == rt[j - 1].0;
                    assert(e[jj + 1].0 == t[jj].0);
                }
            } else {
                assert(r[i].0 == rt[i - 1].0);
                assert(r[j].0 == rt[j - 1].0);
            }
        }
        assert forall|i: int| 0 <= i < r.len() implies #[trigger] r[i].0 == k || exists|j: int|
            0 <= j < e.len() && e[j].0 == r[i].0 by {
            if i > 0 {
                assert(r[i].0 == rt[i - 1].0);
                if rt[i - 1].0 != k {
                    let jj = choose|jj: int| 0 <= jj < t.len() && t[jj].0 == rt[i - 1].0;
                    assert(e[jj + 1].0 == t[jj].0);
                }
            } else {
                assert(r[0].0 == e[0].0);
            }
        }
    }
}

/// Reading a name back after writing it gives the written value, and every
/// other name keeps its value.
pub proof fn law_lookup_after_insert(e: Entries, k: Seq<char>, v: Seq<char>, k2: Seq<char>)
    ensures
        spec_lookup(spec_insert(e, k, v), k2) == (if k2 == k {
            Some(v)
        } else {
            spec_lookup(e, k2)
        }),
    decreases e.len(),
{
    let r = spec_insert(e, k, v);
    assert(r.len() > 0);
    assert(spec_lookup(r, k2) == if r[0].0 == k2 {
        Some(r[0].1)
    } else {
        spec_lookup(r.drop_first(), k2)
    });
    if e.len() == 0 {
        assert(r[0] == (k, v));
        assert(r.drop_first() =~= Seq::<(Seq<char>, Seq<char>)>::empty());
    } else if e[0].0 == k {
        assert(r[0] == (k, v));
        assert(r.drop_first() =~= e.drop_first());
    } else if lex_lt(k, e[0].0) {
        assert(r[0] == (k, v));
        assert(r.drop_first() =~= e);
    } else {
        law_lookup_after_insert(e.drop_first(), k, v, k2);
        assert(r[0] == e[0]);
        assert(r.drop_first() =~= spec_insert(e.drop_first(), k, v));
    }
}

/// In sorted entries, each name reads back its own value.
pub proof fn lemma_lookup_at(e: Entries, i: int)
    requires
        sorted(e),
        0 <= i < e.len(),
    ensures
        spec_lookup(e, e[i].0) == Some(e[i].1),
    decreases e.len(),
{
    if i > 0 {
        assert(lex_lt(e[0].0, e[i].0));
        lemma_lex_lt_irreflexive(e[i].0);
        lemma_lookup_at(e.drop_first(), i - 1);
    }
}

/// A name no entry has reads back nothing.
pub proof fn lemma_lookup_absent(e: Entries, k: Seq<char>)
    requires
        forall|i: int| 0 <= i < e.len() ==> #[trigger] e[i].0 != k,
    ensures
        spec_lookup(e, k) == None::<Seq<char>>,
    decreases e.len(),
{
    if e.len() > 0 {
        assert(e[0].0 != k);
        assert forall|i: int| 0 <= i < e.drop_first().len() implies #[trigger] e.drop_first()[i].0
            != k by {
            assert(e.drop_first()[i] == e[i + 1]);
        }
        lemma_lookup_absent(e.drop_first(), k);
    }
}

/// A name that reads back a value has an entry holding that value.
pub proof fn lemma_lookup_found(e: Entries, k: Seq<char>)
    requires
        spec_lookup(e, k) is Some,
    ensures
        exists|i: int| 0 <= i < e.len() && #[trigger] e[i] == (k, spec_lookup(e, k).unwrap()),
    decreases e.len(),
{
    if e[0].0 == k {
        assert(e[0] == (k, spec_lookup(e, k).unwrap()));
    } else {
        lemma_lookup_found(e.drop_first(), k);
        let i = choose|i: int|
            0 <= i < e.drop_first().len() && #[trigger] e.drop_first()[i] == (
                k,
                spec_lookup(e.drop_first(), k).unwrap(),
            );
        assert(e[i + 1] == e.drop_first()[i]);
    }
}

/// The position of `k` in sorted entries: every earlier name is smaller.
proof fn lemma_insert_at(e: Entries, k: Seq<char>, v: Seq<char>, p: int)
    requires
        sorted(e),
        0 <= p <= e.len(),
        forall|j: int| 0 <= j < p ==> lex_lt(#[trigger] e[j].0, k),
        p < e.len() ==> !lex_lt(e[p].0, k),
    ensures
        spec_insert(e, k, v) == (if p < e.len() && e[p].0 == k {
            e.update(p, (k, v))
        } else {
            e.insert(p, (k, v))
        }),
    decreases p,
{
    if p == 0 {
        if e.len() == 0 {
            assert(e.insert(0, (k, v)) =~= seq![(k, v)]);
        } else if e[0].0 == k {
            assert(e.update(0, (k, v)) =~= seq![(k, v)] + e.drop_first());
        } else {
            lemma_lex_lt_total(k, e[0].0);
            assert(e.insert(0, (k, v)) =~= seq![(k, v)] + e);
        }
    } else {
        let t = e.drop_first();
        assert(lex_lt(e[0].0, k));
        lemma_lex_lt_asymmetric(e[0].0, k);
        lemma_lex_lt_irreflexive(k);
        assert(e[0].0 != k);
        assert(sorted(t)) by {
            assert forall|i: int, j: int| 0 <= i < j < t.len() implies lex_lt(
                #[trigger] t[i].0,
                #[trigger] t[j].0,
            ) by {
                assert(t[i] == e[i + 1]);
                assert(t[j] == e[j + 1]);
            }
        }
        assert forall|j: int| 0 <= j < p - 1 implies lex_lt(#[trigger] t[j].0, k) by {
            assert(t[j] == e[j + 1]);
        }
        lemma_insert_at(t, k, v, p - 1);
        if p < e.len() && e[p].0 == k {
            assert(e.update(p, (k, v)) =~= seq![e[0]] + t.update(p - 1, (k, v)));
        } else {
            assert(e.insert(p, (k, v)) =~= seq![e[0]] + t.insert(p - 1, (k, v)));
        }
    }
}

/// A settings map: name/value pairs kept in strictly increasing name order,
/// iterated in that order as an ordered map is. It is a sorted vector
/// because vstd specifies its ordered maps only for keys whose order it
/// knows, which string names are not.
pub struct Settings {
    entries: Vec<(String, String)>,
}

impl Settings {
    /// The entries in iteration (name) order.
    pub closed spec fn view(&self) -> Entries {
        self.entries@.map_values(|p: (String, String)| (p.0@, p.1@))
    }

    pub closed spec fn wf(&self) -> bool {
        sorted(self@)
    }

    /// An empty map.
    pub fn new() -> (r: Self)
        ensures
            r.wf(),
            r@ == Seq::<(Seq<char>, Seq<char>)>::empty(),
    {
        let r = Settings { entries: Vec::new() };
        assert(r@ =~= Seq::<(Seq<char>, Seq<char>)>::empty());
        r
    }

    /// The number of entries.
    pub fn len(&self) -> (r: usize)
        ensures
            r == self@.len(),
    {
        self.entries.len()
    }

    /// The name of the `i`-th entry in iteration order.
    pub fn name_at(&self, i: usize) -> (r: &String)
        requires
            i < self@.len(),
        ensures
            r@ == self@[i as int].0,
    {
        &self.entries[i].0
    }

    /// The value of the `i`-th entry in iteration order.
    pub fn value_at(&self, i: usize) -> (r: &String)
        requires
            i < self@.len(),
        ensures
            r@ == self@[i as int].1,
    {
        &self.entries[i].1
    }

    /// The position `k` has, or would have, in the map.
    fn position(&self, k: &str) -> (p: usize)
        requires
            self.wf(),
        ensures
            p <= self@.len(),
            forall|j: int| 0 <= j < p ==> lex_lt(#[trigger] self@[j].0, k@),
            p < self@.len() ==> !lex_lt(self@[p as int].0, k@),
    {
        let n = self.entries.len();
        let mut i: usize = 0;
        while i < n
            invariant
                n == self@.len(),
                i <= n,
                forall|j: int| 0 <= j < i ==> lex_lt(#[trigger] self@[j].0, k@),
            decreases n - i,
        {
            let o = str_order(self.entries[i].0.as_str(), k);
            if o >= 0 {
                return i;
            }
            i = i + 1;
        }
        i
    }

    /// The value stored under `k`, if any.
    pub fn get(&self, k: &str) -> (r: Option<&String>)
        requires
            self.wf(),
        ensures
            match r {
                Some(v) => spec_lookup(self@, k@) == Some(v@),
                None => spec_lookup(self@, k@) == None::<Seq<char>>,
            },
    {
        let p = self.position(k);
        if p < self.entries.len() && str_order(self.entries[p].0.as_str(), k) == 0 {
            proof {
                lemma_lookup_at(self@, p as int);
            }
            Some(&self.entries[p].1)
        } else {
            proof {
                assert forall|i: int| 0 <= i < self@.len() implies #[trigger] self@[i].0 != k@ by {
                    if i < p {
                        lemma_lex_lt_irreflexive(k@);
                    } else if i > p {
                        lemma_lex_lt_total(self@[p as int].0, k@);
                        assert(lex_lt(self@[p as int].0, self@[i].0));
                        lemma_lex_lt_transitive(k@, self@[p as int].0, self@[i].0);
                        lemma_lex_lt_irreflexive(k@);
                    }
                }
                lemma_lookup_absent(self@, k@);
            }
            None
        }
    }

    /// Whether `k` has a value.
    pub fn contains_key(&self, k: &str) -> (r: bool)
        requires
            self.wf(),
        ensures
            r == (spec_lookup(self@, k@) is Some),
    {
        self.get(k).is_some()
    }

    /// Sets the value of `k`, replacing any earlier value.
    pub fn insert(&mut self, k: &str, v: String)
        requires
            old(self).wf(),
        ensures
            final(self).wf(),
            final(self)@ == spec_insert(old(self)@, k@, v@),
    {
        let p = self.position(k);
        proof {
            lemma_insert_at(self@, k@, v@, p as int);
            lemma_insert_sorted(self@, k@, v@);
        }
        let key = String::from_str(k);
        if p < self.entries.len() && str_order(self.entries[p].0.as_str(), k) == 0 {
            self.entries.set(p, (key, v));
        } else {
            self.entries.insert(p, (key, v));
        }
        assert(self@ =~= spec_insert(old(self)@, k@, v@));
    }
}

} // verus!
