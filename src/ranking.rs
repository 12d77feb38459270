//! Click weights per query and result id, and the ranking that orders
//! results by descending weight, ties broken by ascending id.

use vstd::prelude::*;
use crate::store::{insert_all, TextMap};
use crate::types::{Album, Playlist, Song};

verus! {

/// Lexicographic order on character sequences from index `k` on, comparing
/// characters by code point (the byte order of their UTF-8 encodings).
pub open spec fn text_lt_from(a: Seq<char>, b: Seq<char>, k: int) -> bool
    decreases a.len() - k,
{
    if k >= b.len() {
        false
    } else if k >= a.len() {
        true
    } else if a[k] != b[k] {
        (a[k] as int) < (b[k] as int)
    } else {
        text_lt_from(a, b, k + 1)
    }
}

/// `a` comes strictly before `b` in lexicographic order.
pub open spec fn text_lt(a: Seq<char>, b: Seq<char>) -> bool {
    text_lt_from(a, b, 0)
}

/// No text comes before itself.
pub proof fn lemma_text_lt_irreflexive(a: Seq<char>, k: int)
    requires
        0 <= k,
    ensures
        !text_lt_from(a, a, k),
    decreases a.len() - k,
{
    if k < a.len() {
        lemma_text_lt_irreflexive(a, k + 1);
    }
}

/// Lexicographic order is transitive.
pub proof fn lemma_text_lt_transitive(a: Seq<char>, b: Seq<char>, c: Seq<char>, k: int)
    requires
        0 <= k,
        text_lt_from(a, b, k),
        text_lt_from(b, c, k),
    ensures
        text_lt_from(a, c, k),
    decreases a.len() - k,
{
    if k < a.len() && k < b.len() && k < c.len() && a[k] == b[k] && b[k] == c[k] {
        lemma_text_lt_transitive(a, b, c, k + 1);
    }
}

/// Of two different texts that agree up to `k`, one comes before the other.
pub proof fn lemma_text_lt_total(a: Seq<char>, b: Seq<char>, k: int)
    requires
        0 <= k <= a.len(),
        k <= b.len(),
        a.subrange(0, k) == b.subrange(0, k),
        a != b,
    ensures
        text_lt_from(a, b, k) || text_lt_from(b, a, k),
    decreases a.len() - k,
{
    if k < a.len() && k < b.len() && a[k] == b[k] {
        assert(a.subrange(0, k + 1) =~= a.subrange(0, k).push(a[k]));
        assert(b.subrange(0, k + 1) =~= b.subrange(0, k).push(b[k]));
        lemma_text_lt_total(a, b, k + 1);
    } else if k == a.len() && k == b.len() {
        assert(a =~= a.subrange(0, k));
        assert(b =~= b.subrange(0, k));
    } else if k < a.len() && k < b.len() {
        assert((a[k] as int) != (b[k] as int));
    }
}

/// Whether `a` comes strictly before `b` in lexicographic order.
pub fn text_less(a: &str, b: &str) -> (r: bool)
    ensures
        r == text_lt(a@, b@),
{
    let alen = a.unicode_len();
    let blen = b.unicode_len();
    let mut k: usize = 0;
    while k < alen && k < blen
        invariant
            alen == a@.len(),
            blen == b@.len(),
            k <= alen,
            k <= blen,
            text_lt_from(a@, b@, 0) == text_lt_from(a@, b@, k as int),
        decreases alen - k,
    {
        let ca = a.get_char(k);
        let cb = b.get_char(k);
        if ca != cb {
            return (ca as u32) < (cb as u32);
        }
        k = k + 1;
    }
    k < blen
}

/// The weight of result `id` in a query's weights: 0 where none is recorded.
pub open spec fn weight_of(w: Map<Seq<char>, u32>, id: Seq<char>) -> u32 {
    if w.contains_key(id) {
        w[id]
    } else {
        0
    }
}

/// Under weights `w`, result `a` ranks strictly before result `b`: a higher
/// weight, or an equal weight and a smaller id.
pub open spec fn ranks_before(w: Map<Seq<char>, u32>, a: Seq<char>, b: Seq<char>) -> bool {
    weight_of(w, a) > weight_of(w, b) || (weight_of(w, a) == weight_of(w, b) && text_lt(a, b))
}

/// Ranking is a strict total order on ids: irreflexive, transitive, and
/// total on distinct ids.
pub proof fn lemma_ranks_before_order(w: Map<Seq<char>, u32>, a: Seq<char>, b: Seq<char>, c: Seq<char>)
    ensures
        !ranks_before(w, a, a),
        ranks_before(w, a, b) && ranks_before(w, b, c) ==> ranks_before(w, a, c),
        a != b ==> ranks_before(w, a, b) || ranks_before(w, b, a),
{
    lemma_text_lt_irreflexive(a, 0);
    if text_lt(a, b) && text_lt(b, c) {
        lemma_text_lt_transitive(a, b, c, 0);
    }
    if a != b {
        assert(a.subrange(0, 0) =~= b.subrange(0, 0));
        lemma_text_lt_total(a, b, 0);
    }
}

/// A result that carries an id.
pub trait Ranked {
    spec fn rank_id(&self) -> Seq<char>;

    fn id_text(&self) -> (r: &str)
        ensures
            r@ == self.rank_id(),
    ;
}

impl Ranked for Song {
    open spec fn rank_id(&self) -> Seq<char> {
        self.id@
    }

    fn id_text(&self) -> (r: &str) {
        self.id.as_str()
    }
}

impl Ranked for Album {
    open spec fn rank_id(&self) -> Seq<char> {
        self.id@
    }

    fn id_text(&self) -> (r: &str) {
        self.id.as_str()
    }
}

impl Ranked for Playlist {
    open spec fn rank_id(&self) -> Seq<char> {
        self.id@
    }

    fn id_text(&self) -> (r: &str) {
        self.id.as_str()
    }
}

/// No result of `s` ranks strictly before one that precedes it.
pub open spec fn is_ranked<T: Ranked>(s: Seq<T>, w: Map<Seq<char>, u32>) -> bool {
    forall|i: int, j: int|
        0 <= i < j < s.len() ==> !ranks_before(w, #[trigger] s[j].rank_id(), #[trigger] s[i].rank_id())
}

/// The results of `s` with id `id`, in their order in `s`.
pub open spec fn with_id<T: Ranked>(s: Seq<T>, id: Seq<char>) -> Seq<T> {
    s.filter(|t: T| t.rank_id() == id)
}

/// `r` holds the results of `s`, and those that share an id stand in `r` in
/// the order they had in `s`.
pub open spec fn same_results_in_order<T: Ranked>(r: Seq<T>, s: Seq<T>) -> bool {
    forall|id: Seq<char>| #[trigger] with_id(r, id) == with_id(s, id)
}

proof fn lemma_with_id_push<T: Ranked>(s: Seq<T>, x: T, id: Seq<char>)
    ensures
        with_id(s.push(x), id) == if x.rank_id() == id {
            with_id(s, id).push(x)
        } else {
            with_id(s, id)
        },
{
    reveal(Seq::filter);
    assert(s.push(x).drop_last() =~= s);
}

proof fn lemma_with_id_none<T: Ranked>(s: Seq<T>, id: Seq<char>)
    requires
        forall|i: int| 0 <= i < s.len() ==> s[i].rank_id() != id,
    ensures
        with_id(s, id) == Seq::<T>::empty(),
    decreases s.len(),
{
    reveal(Seq::filter);
    if s.len() > 0 {
        lemma_with_id_none(s.drop_last(), id);
    }
}

/// The weight recorded for result `id`, or 0.
pub fn weight_for(weights: &TextMap<u32>, id: &str) -> (r: u32)
    requires
        weights.wf(),
    ensures
        r == weight_of(weights@, id@),
{
    match weights.get(id) {
        Some(w) => *w,
        None => 0,
    }
}

/// Whether result `a` ranks strictly before result `b` under `weights`.
fn ranks_before_exec(weights: &TextMap<u32>, a: &str, b: &str) -> (r: bool)
    requires
        weights.wf(),
    ensures
        r == ranks_before(weights@, a@, b@),
{
    let wa = weight_for(weights, a);
    let wb = weight_for(weights, b);
    wa > wb || (wa == wb && text_less(a, b))
}

/// Orders results by descending weight, ties broken by ascending id; results
/// with the same id keep their relative order.
pub fn sort_and_weight<T: Ranked>(items: Vec<T>, weights: &TextMap<u32>) -> (r: Vec<T>)
    requires
        weights.wf(),
    ensures
        is_ranked(r@, weights@),
        same_results_in_order(r@, items@),
{
    let ghost w = weights@;
    let ghost orig = items@;
    let n = items.len();
    let mut rest = items;
    let mut r: Vec<T> = Vec::new();
    assert(orig.subrange(0, 0) =~= r@);
    while rest.len() > 0
        invariant
            weights.wf(),
            w == weights@,
            n == orig.len(),
            rest.len() <= n,
            rest@ == orig.subrange(n - rest.len(), n as int),
            is_ranked(r@, w),
            same_results_in_order(r@, orig.subrange(0, n - rest.len())),
        decreases rest.len(),
    {
        let ghost done = n - rest.len();
        let x = rest.remove(0);
        assert(x == orig[done]);
        assert(rest@ =~= orig.subrange(n - rest.len(), n as int));
        let mut p: usize = 0;
        while p < r.len() && !ranks_before_exec(weights, x.id_text(), r[p].id_text())
            invariant
                weights.wf(),
                w == weights@,
                p <= r.len(),
                forall|q: int| 0 <= q < p ==> !ranks_before(w, x.rank_id(), #[trigger] r@[q].rank_id()),
            decreases r.len() - p,
        {
            p = p + 1;
        }
        let ghost old_r = r@;
        proof {
            // every result from `p` on ranks strictly after `x`
            assert forall|q: int| p <= q < old_r.len() implies ranks_before(
                w,
                x.rank_id(),
                #[trigger] old_r[q].rank_id(),
            ) by {
                lemma_ranks_before_order(w, x.rank_id(), old_r[p as int].rank_id(), old_r[q].rank_id());
                lemma_ranks_before_order(w, old_r[q].rank_id(), x.rank_id(), old_r[p as int].rank_id());
                lemma_ranks_before_order(w, x.rank_id(), old_r[q].rank_id(), old_r[p as int].rank_id());
                lemma_ranks_before_order(w, old_r[p as int].rank_id(), old_r[q].rank_id(), x.rank_id());
                if q > p {
                    assert(!ranks_before(w, old_r[q].rank_id(), old_r[p as int].rank_id()));
                }
            }
        }
        r.insert(p, x);
        proof {
            let new_r = r@;
            let left = old_r.subrange(0, p as int);
            let right = old_r.subrange(p as int, old_r.len() as int);
            assert(new_r =~= left.push(x) + right);
            assert(old_r =~= left + right);
            assert forall|i: int, j: int| 0 <= i < j < new_r.len() implies !ranks_before(
                w,
                #[trigger] new_r[j].rank_id(),
                #[trigger] new_r[i].rank_id(),
            ) by {
                if j < p {
                    assert(new_r[i] == old_r[i] && new_r[j] == old_r[j]);
                } else if j == p {
                    assert(new_r[i] == old_r[i]);
                    assert(!ranks_before(w, x.rank_id(), old_r[i].rank_id()));
                } else if i == p {
                    assert(new_r[j] == old_r[j - 1]);
                    lemma_ranks_before_order(w, x.rank_id(), old_r[j - 1].rank_id(), x.rank_id());
                } else if i < p {
                    assert(new_r[i] == old_r[i] && new_r[j] == old_r[j - 1]);
                } else {
                    assert(new_r[i] == old_r[i - 1] && new_r[j] == old_r[j - 1]);
                }
            }
            let prev = orig.subrange(0, done);
            let next = orig.subrange(0, done + 1);
            assert(next =~= prev.push(x));
            assert forall|id: Seq<char>| #[trigger] with_id(new_r, id) == with_id(next, id) by {
                lemma_with_id_push(prev, x, id);
                lemma_with_id_push(left, x, id);
                Seq::filter_distributes_over_add(left.push(x), right, |t: T| t.rank_id() == id);
                Seq::filter_distributes_over_add(left, right, |t: T| t.rank_id() == id);
                assert(with_id(old_r, id) == with_id(prev, id));
                if x.rank_id() == id {
                    assert forall|q: int| 0 <= q < right.len() implies right[q].rank_id() != id by {
                        assert(right[q] == old_r[p + q]);
                        lemma_ranks_before_order(w, x.rank_id(), x.rank_id(), x.rank_id());
                    }
                    lemma_with_id_none(right, id);
                    assert(with_id(right, id) + Seq::<T>::empty() =~= with_id(right, id));
                    assert(with_id(left, id).push(x) + with_id(right, id) =~= (with_id(left, id)
                        + with_id(right, id)).push(x));
                }
            }
        }
    }
    assert(orig.subrange(0, n as int) =~= orig);
    r
}

/// The click weights of every query: for each query text, the number of
/// times each result id was selected.
pub struct WeightTable {
    table: TextMap<TextMap<u32>>,
}

impl View for WeightTable {
    type V = Map<Seq<char>, Map<Seq<char>, u32>>;

    closed spec fn view(&self) -> Map<Seq<char>, Map<Seq<char>, u32>> {
        self.table@.map_values(|m: TextMap<u32>| m@)
    }
}

impl WeightTable {
    /// Each key once, in the table and in each query's weights.
    pub closed spec fn wf(&self) -> bool {
        &&& self.table.wf()
        &&& forall|q: Seq<char>| #[trigger] self.table@.contains_key(q) ==> self.table@[q].wf()
    }

    /// A table with no weights.
    pub fn new() -> (r: WeightTable)
        ensures
            r.wf(),
            r@ == Map::<Seq<char>, Map<Seq<char>, u32>>::empty(),
    {
        let r = WeightTable { table: TextMap::new() };
        assert(r@ =~= Map::<Seq<char>, Map<Seq<char>, u32>>::empty());
        r
    }

    /// The weights recorded for `query`, if any.
    pub fn query_weights(&self, query: &str) -> (r: Option<&TextMap<u32>>)
        requires
            self.wf(),
        ensures
            match r {
                Some(m) => m.wf() && self@.contains_key(query@) && m@ == self@[query@],
                None => !self@.contains_key(query@),
            },
    {
        self.table.get(query)
    }

    /// Records that the user selected result `id` for `query`: its weight
    /// grows by one (it stays at `u32::MAX` once there).
    pub fn record_selection(&mut self, query: String, id: String)
        requires
            old(self).wf(),
        ensures
            final(self).wf(),
            ({
                let before = if old(self)@.contains_key(query@) {
                    old(self)@[query@]
                } else {
                    Map::empty()
                };
                final(self)@ == old(self)@.insert(
                    query@,
                    before.insert(id@, if weight_of(before, id@) == u32::MAX {
                        u32::MAX
                    } else {
                        (weight_of(before, id@) + 1) as u32
                    }),
                )
            }),
    {
        let ghost old_table = self.table@;
        let mut inner = match self.table.remove(query.as_str()) {
            Some(m) => m,
            None => TextMap::new(),
        };
        let w = weight_for(&inner, id.as_str());
        let next = w.saturating_add(1);
        inner.insert(id, next);
        self.table.insert(query, inner);
        proof {
            assert forall|q: Seq<char>| #[trigger] self.table@.contains_key(q) implies self.table@[q].wf() by {
                if q != query@ {
                    assert(old_table.contains_key(q));
                }
            }
            assert(self@ =~= old(self)@.insert(query@, inner@));
        }
    }

    /// The weights of all queries, for persisting the table.
    pub fn table(&self) -> (r: &TextMap<TextMap<u32>>)
        requires
            self.wf(),
        ensures
            r.wf(),
            forall|q: Seq<char>| #[trigger] r@.contains_key(q) ==> r@[q].wf(),
            r@.map_values(|m: TextMap<u32>| m@) == self@,
    {
        &self.table
    }

    /// A table made from persisted weights; later entries for the same
    /// query and id replace earlier ones.
    pub fn from_entries(entries: Vec<(String, Vec<(String, u32)>)>) -> (r: WeightTable)
        ensures
            r.wf(),
            r@ == loaded_weights(entries@),
    {
        let ghost all = entries@;
        let n = entries.len();
        let mut t = WeightTable::new();
        let mut rest = entries;
        assert(all.subrange(0, 0) =~= Seq::<(String, Vec<(String, u32)>)>::empty());
        while rest.len() > 0
            invariant
                t.wf(),
                n == all.len(),
                rest.len() <= n,
                rest@ == all.subrange(n - rest.len(), n as int),
                t@ == loaded_weights(all.subrange(0, n - rest.len())),
            decreases rest.len(),
        {
            let ghost done = n - rest.len();
            let ghost before = t@;
            let ghost before_table = t.table@;
            let (query, ids) = rest.remove(0);
            assert((query, ids) == all[done]);
            assert(rest@ =~= all.subrange(n - rest.len(), n as int));
            assert(all.subrange(0, done + 1).drop_last() =~= all.subrange(0, done));
            let mut inner = match t.table.remove(query.as_str()) {
                Some(m) => m,
                None => TextMap::new(),
            };
            inner.insert_all(ids);
            t.table.insert(query, inner);
            proof {
                assert forall|q: Seq<char>| #[trigger] t.table@.contains_key(q) implies t.table@[q].wf() by {
                    if q != query@ {
                        assert(before_table.contains_key(q));
                    }
                }
                assert(t@ =~= before.insert(query@, inner@));
            }
        }
        assert(all.subrange(0, n as int) =~= all);
        t
    }
}

/// The weights that persisted entries load to: each query's ids inserted in
/// turn into what earlier entries gave that query.
pub open spec fn loaded_weights(es: Seq<(String, Vec<(String, u32)>)>) -> Map<Seq<char>, Map<Seq<char>, u32>>
    decreases es.len(),
{
    if es.len() == 0 {
        Map::empty()
    } else {
        let prev = loaded_weights(es.drop_last());
        let q = es.last().0@;
        let base = if prev.contains_key(q) {
            prev[q]
        } else {
            Map::empty()
        };
        prev.insert(q, insert_all(base, es.last().1@))
    }
}

} // verus!
