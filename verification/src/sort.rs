//! Stable sorting.

use vstd::prelude::*;

verus! {

/// What decides the place of a value: the larger `first` comes first, and for
/// one `first` the larger `second`.
#[derive(Debug, Clone, Copy, PartialEq, Eq, Structural)]
pub struct Rank {
    pub first: u128,
    pub second: u64,
}

impl Rank {
    /// Whether this rank comes strictly before the other.
    pub open spec fn ahead(self, other: Rank) -> bool {
        self.first > other.first || (self.first == other.first && self.second > other.second)
    }

    fn is_ahead(self, other: Rank) -> (r: bool)
        ensures
            r == self.ahead(other),
    {
        self.first > other.first || (self.first == other.first && self.second > other.second)
    }
}

/// `ranked` with `x` put in: behind all that `x` is not ahead of.
pub open spec fn put_in<V>(ranked: Seq<(Rank, V)>, x: (Rank, V)) -> Seq<(Rank, V)>
    decreases ranked.len(),
{
    if ranked.len() > 0 && x.0.ahead(ranked.last().0) {
        put_in(ranked.drop_last(), x).push(ranked.last())
    } else {
        ranked.push(x)
    }
}

/// The values in their ranks; values of one rank keep their order.
pub open spec fn in_ranks<V>(values: Seq<(Rank, V)>) -> Seq<(Rank, V)>
    decreases values.len(),
{
    if values.len() == 0 {
        Seq::empty()
    } else {
        put_in(in_ranks(values.drop_last()), values.last())
    }
}

/// Whether no value stands before one that is ahead of it.
pub open spec fn is_ranked<V>(values: Seq<(Rank, V)>) -> bool {
    forall|i: int, j: int|
        0 <= i < j < values.len() ==> !(#[trigger] values[j]).0.ahead((#[trigger] values[i]).0)
}

proof fn lemma_put_in_ranked<V>(ranked: Seq<(Rank, V)>, x: (Rank, V))
    requires
        is_ranked(ranked),
    ensures
        is_ranked(put_in(ranked, x)),
        put_in(ranked, x).len() == ranked.len() + 1,
        forall|i: int|
            0 <= i < put_in(ranked, x).len() ==> (#[trigger] put_in(ranked, x)[i]) == x
                || ranked.contains(put_in(ranked, x)[i]),
    decreases ranked.len(),
{
    let result = put_in(ranked, x);
    if ranked.len() > 0 && x.0.ahead(ranked.last().0) {
        let rest = ranked.drop_last();
        lemma_put_in_ranked(rest, x);
        let inner = put_in(rest, x);
        let last = ranked.last();
        assert forall|i: int| 0 <= i < inner.len() implies !last.0.ahead((#[trigger] inner[i]).0) by {
            if inner[i] != x {
                let k = choose|k: int| 0 <= k < rest.len() && rest[k] == inner[i];
                assert(rest[k] == ranked[k]);
                assert(ranked[ranked.len() - 1] == last);
            }
        }
        assert forall|i: int, j: int| 0 <= i < j < result.len() implies !(
        #[trigger] result[j]).0.ahead((#[trigger] result[i]).0) by {
            if j < inner.len() {
                assert(result[j] == inner[j] && result[i] == inner[i]);
            } else {
                assert(result[j] == last && result[i] == inner[i]);
            }
        }
        assert forall|i: int| 0 <= i < result.len() implies (#[trigger] result[i]) == x
            || ranked.contains(result[i]) by {
            if i < inner.len() {
                assert(result[i] == inner[i]);
                if inner[i] != x {
                    let k = choose|k: int| 0 <= k < rest.len() && rest[k] == inner[i];
                    assert(ranked[k] == inner[i]);
                }
            } else {
                assert(ranked[ranked.len() - 1] == last);
            }
        }
    } else {
        assert forall|i: int, j: int| 0 <= i < j < result.len() implies !(
        #[trigger] result[j]).0.ahead((#[trigger] result[i]).0) by {
            if j == ranked.len() {
                if i < ranked.len() - 1 {
                    let last = ranked.last();
                    assert(ranked[ranked.len() - 1] == last);
                    assert(!last.0.ahead(ranked[i].0));
                }
            }
        }
        assert forall|i: int| 0 <= i < result.len() implies (#[trigger] result[i]) == x
            || ranked.contains(result[i]) by {
            if i < ranked.len() {
                assert(ranked[i] == result[i]);
            }
        }
    }
}

/// The values in their ranks are ranked, and are as many.
pub proof fn lemma_in_ranks<V>(values: Seq<(Rank, V)>)
    ensures
        is_ranked(in_ranks(values)),
        in_ranks(values).len() == values.len(),
    decreases values.len(),
{
    if values.len() > 0 {
        lemma_in_ranks(values.drop_last());
        lemma_put_in_ranked(in_ranks(values.drop_last()), values.last());
    }
}

proof fn lemma_put_in_multiset<V>(ranked: Seq<(Rank, V)>, x: (Rank, V))
    ensures
        put_in(ranked, x).to_multiset() == ranked.to_multiset().insert(x),
    decreases ranked.len(),
{
    broadcast use vstd::seq_lib::group_to_multiset_ensures;
    if ranked.len() > 0 && x.0.ahead(ranked.last().0) {
        let rest = ranked.drop_last();
        lemma_put_in_multiset(rest, x);
        assert(ranked =~= rest.push(ranked.last()));
        assert(put_in(ranked, x).to_multiset() =~= ranked.to_multiset().insert(x));
    }
}

/// The values in their ranks are the same values.
pub proof fn lemma_in_ranks_same<V>(values: Seq<(Rank, V)>)
    ensures
        in_ranks(values).to_multiset() == values.to_multiset(),
    decreases values.len(),
{
    broadcast use vstd::seq_lib::group_to_multiset_ensures;
    if values.len() > 0 {
        let rest = values.drop_last();
        lemma_in_ranks_same(rest);
        lemma_put_in_multiset(in_ranks(rest), values.last());
        assert(values =~= rest.push(values.last()));
    } else {
        assert(in_ranks(values) =~= values);
    }
}

proof fn lemma_put_in_at<V>(ranked: Seq<(Rank, V)>, x: (Rank, V), at: int)
    requires
        0 <= at <= ranked.len(),
        at > 0 ==> !x.0.ahead(ranked[at - 1].0),
        forall|k: int| at <= k < ranked.len() ==> x.0.ahead((#[trigger] ranked[k]).0),
    ensures
        put_in(ranked, x) == ranked.insert(at, x),
    decreases ranked.len(),
{
    if at < ranked.len() {
        let rest = ranked.drop_last();
        assert(ranked.last() == ranked[ranked.len() - 1]);
        assert(forall|k: int| at <= k < rest.len() ==> (#[trigger] rest[k]) == ranked[k]);
        lemma_put_in_at(rest, x, at);
        assert(put_in(ranked, x) =~= ranked.insert(at, x));
    } else {
        if ranked.len() > 0 {
            assert(ranked.last() == ranked[at - 1]);
        }
        assert(put_in(ranked, x) =~= ranked.insert(at, x));
    }
}

/// Whether of two values the one at `a` comes before the one at `b`: it is ahead, or it has
/// the same rank and stood before it.
pub open spec fn leads<V>(values: Seq<(Rank, V)>, a: int, b: int) -> bool {
    values[a].0.ahead(values[b].0) || (!values[b].0.ahead(values[a].0) && a < b)
}

/// Where `x` is put in.
spec fn spot<V>(ranked: Seq<(Rank, V)>, x: (Rank, V)) -> int
    decreases ranked.len(),
{
    if ranked.len() > 0 && x.0.ahead(ranked.last().0) {
        spot(ranked.drop_last(), x)
    } else {
        ranked.len() as int
    }
}

proof fn lemma_spot<V>(ranked: Seq<(Rank, V)>, x: (Rank, V))
    requires
        is_ranked(ranked),
    ensures
        0 <= spot(ranked, x) <= ranked.len(),
        forall|k: int| 0 <= k < spot(ranked, x) ==> !x.0.ahead((#[trigger] ranked[k]).0),
        forall|k: int| spot(ranked, x) <= k < ranked.len() ==> x.0.ahead((#[trigger] ranked[k]).0),
    decreases ranked.len(),
{
    if ranked.len() > 0 {
        let last = ranked[ranked.len() - 1];
        if x.0.ahead(last.0) {
            let rest = ranked.drop_last();
            assert(forall|k: int| 0 <= k < rest.len() ==> #[trigger] rest[k] == ranked[k]);
            lemma_spot(rest, x);
            assert forall|k: int| 0 <= k < spot(ranked, x) implies !x.0.ahead(
                (#[trigger] ranked[k]).0,
            ) by {
                assert(rest[k] == ranked[k]);
            }
            assert forall|k: int| spot(ranked, x) <= k < ranked.len() implies x.0.ahead(
                (#[trigger] ranked[k]).0,
            ) by {
                if k < rest.len() {
                    assert(rest[k] == ranked[k]);
                }
            }
        } else {
            assert forall|k: int| 0 <= k < ranked.len() implies !x.0.ahead(
                (#[trigger] ranked[k]).0,
            ) by {
                if k < ranked.len() - 1 {
                    assert(!last.0.ahead(ranked[k].0));
                }
            }
        }
    }
}

/// Where the values in their ranks stood: each place once, and of two values the one that
/// leads stands first.
pub proof fn lemma_places<V>(values: Seq<(Rank, V)>) -> (places: Seq<int>)
    ensures
        places.len() == values.len() == in_ranks(values).len(),
        forall|k: int|
            0 <= k < places.len() ==> 0 <= #[trigger] places[k] < values.len() && in_ranks(
                values,
            )[k] == values[places[k]],
        forall|r: int| 0 <= r < values.len() ==> #[trigger] places.contains(r),
        forall|i: int, j: int|
            0 <= i < j < places.len() ==> leads(values, #[trigger] places[i], #[trigger] places[j]),
    decreases values.len(),
{
    if values.len() == 0 {
        Seq::empty()
    } else {
        let rest = values.drop_last();
        let x = values.last();
        let n = rest.len() as int;
        let known = lemma_places(rest);
        lemma_in_ranks(rest);
        let ranked = in_ranks(rest);
        lemma_spot(ranked, x);
        let at = spot(ranked, x);
        if at > 0 {
            assert(!x.0.ahead(ranked[at - 1].0));
        }
        lemma_put_in_at(ranked, x, at);
        let places = known.insert(at, n);
        assert forall|k: int| 0 <= k < places.len() implies 0 <= #[trigger] places[k] < values.len()
            && in_ranks(values)[k] == values[places[k]] by {
            if k < at {
                assert(places[k] == known[k]);
            } else if k > at {
                assert(places[k] == known[k - 1]);
            }
        }
        assert forall|r: int| 0 <= r < values.len() implies #[trigger] places.contains(r) by {
            if r == n {
                assert(places[at] == r);
            } else {
                assert(known.contains(r));
                let k = choose|k: int| 0 <= k < known.len() && known[k] == r;
                if k < at {
                    assert(places[k] == r);
                } else {
                    assert(places[k + 1] == r);
                }
            }
        }
        assert forall|i: int, j: int| 0 <= i < j < places.len() implies leads(
            values,
            #[trigger] places[i],
            #[trigger] places[j],
        ) by {
            let before_i = if i < at { i } else { i - 1 };
            let before_j = if j < at { j } else { j - 1 };
            if i == at {
                assert(places[j] == known[j - 1]);
                assert(x.0.ahead(ranked[j - 1].0));
            } else if j == at {
                assert(places[i] == known[i]);
                assert(!x.0.ahead(ranked[i].0));
            } else {
                assert(places[i] == known[before_i]);
                assert(places[j] == known[before_j]);
                assert(leads(rest, known[before_i], known[before_j]));
            }
        }
        places
    }
}

/// The values with their ranks.
pub open spec fn seen<T: View>(values: Seq<(Rank, T)>) -> Seq<(Rank, T::V)> {
    Seq::new(values.len(), |i: int| (values[i].0, values[i].1@))
}

/// The values without their ranks.
pub open spec fn bare<V>(values: Seq<(Rank, V)>) -> Seq<V> {
    Seq::new(values.len(), |i: int| values[i].1)
}

/// Sorts by rank; values of one rank keep their order.
pub fn sort_ranked<T: View>(values: Vec<(Rank, T)>) -> (sorted: Vec<(Rank, T)>)
    ensures
        seen(sorted@) == in_ranks(seen(values@)),
        is_ranked(seen(sorted@)),
        sorted.len() == values.len(),
{
    let mut sorted: Vec<(Rank, T)> = Vec::new();
    let ghost all = values@;
    let ghost every = seen(all);
    let mut left = values;
    // Turned round first, so that each value is moved from the end.
    let mut waiting: Vec<(Rank, T)> = Vec::new();
    while left.len() > 0
        invariant
            left@ + waiting@.reverse() == all,
        decreases left.len(),
    {
        let ghost before = left@;
        let ghost waited = waiting@;
        match left.pop() {
            Some(x) => {
                waiting.push(x);
                assert(before =~= left@.push(x));
                assert(waited.push(x).reverse() =~= seq![x] + waited.reverse());
                assert(left@.push(x) + waited.reverse() =~= left@ + (seq![x] + waited.reverse()));
            },
            None => {},
        }
    }
    assert(left@ + waiting@.reverse() =~= waiting@.reverse());
    let ghost total = all.len();
    assert(every.take(0) =~= Seq::<(Rank, T::V)>::empty());
    assert(seen(sorted@) =~= Seq::<(Rank, T::V)>::empty());
    while waiting.len() > 0
        invariant
            total == all.len(),
            every == seen(all),
            waiting.len() <= total,
            all.skip(total - waiting@.len()) =~= waiting@.reverse(),
            sorted.len() == total - waiting.len(),
            seen(sorted@) == in_ranks(every.take(total - waiting@.len())),
        decreases waiting.len(),
    {
        let ghost done = total - waiting@.len();
        let ghost waited = waiting@;
        match waiting.pop() {
            Some(x) => {
                assert(waited.reverse()[0] == x);
                assert(all.skip(done)[0] == x);
                assert(all[done] == x);
                assert(every.take(done + 1).drop_last() =~= every.take(done));
                assert(every.take(done + 1).last() == (x.0, x.1@));
                assert(all.skip(done + 1) =~= waiting@.reverse()) by {
                    assert(all.skip(done).drop_first() =~= all.skip(done + 1));
                    assert(waited.reverse().drop_first() =~= waiting@.reverse());
                }
                let mut at: usize = sorted.len();
                while at > 0 && x.0.is_ahead(sorted[at - 1].0)
                    invariant
                        at <= sorted.len(),
                        forall|k: int|
                            at <= k < sorted.len() ==> x.0.ahead((#[trigger] seen(sorted@)[k]).0),
                    decreases at,
                {
                    at -= 1;
                }
                let ghost before = sorted@;
                let ghost seen_x = (x.0, x.1@);
                proof {
                    lemma_put_in_at(seen(sorted@), seen_x, at as int);
                }
                sorted.insert(at, x);
                assert(seen(sorted@) =~= seen(before).insert(at as int, seen_x));
            },
            None => {},
        }
    }
    assert(every.take(total as int) =~= every);
    proof {
        lemma_in_ranks(every);
    }
    sorted
}

/// The values in their ranks without the ranks, `limit` of them at most.
pub open spec fn top<V>(values: Seq<(Rank, V)>, limit: nat) -> Seq<V> {
    let sorted = bare(in_ranks(values));
    if sorted.len() <= limit {
        sorted
    } else {
        sorted.take(limit as int)
    }
}

/// The best values are some of the values, in their ranks, and as many as asked
/// for where there are so many.
pub proof fn lemma_top<V>(values: Seq<(Rank, V)>, limit: nat)
    ensures
        top(values, limit).len() == (if values.len() <= limit {
            values.len()
        } else {
            limit
        }),
        forall|k: int|
            0 <= k < top(values, limit).len() ==> (#[trigger] top(values, limit)[k]) == in_ranks(
                values,
            )[k].1 && values.contains(in_ranks(values)[k]),
{
    lemma_in_ranks(values);
    lemma_in_ranks_same(values);
    broadcast use vstd::seq_lib::group_to_multiset_ensures;
    assert forall|k: int| 0 <= k < top(values, limit).len() implies (
    #[trigger] top(values, limit)[k]) == in_ranks(values)[k].1 && values.contains(
        in_ranks(values)[k],
    ) by {
        let x = in_ranks(values)[k];
        assert(in_ranks(values).contains(x));
        assert(in_ranks(values).to_multiset().count(x) > 0);
        assert(values.to_multiset().count(x) > 0);
    }
}

/// Sorts by rank and gives the first `limit` values.
pub fn take_top<T: View>(values: Vec<(Rank, T)>, limit: usize) -> (result: Vec<T>)
    ensures
        Seq::new(result@.len(), |i: int| result@[i]@) == top(seen(values@), limit as nat),
{
    let mut sorted = sort_ranked(values);
    let ghost full = bare(seen(sorted@));
    sorted.truncate(limit);
    let ghost wanted = top(seen(values@), limit as nat);
    assert(bare(seen(sorted@)) =~= wanted);
    let ghost n = sorted@.len();
    let ghost kept = sorted@;
    let mut waiting: Vec<T> = Vec::new();
    while sorted.len() > 0
        invariant
            sorted@ == kept.take(sorted@.len() as int),
            sorted@.len() + waiting@.len() == kept.len(),
            forall|k: int|
                0 <= k < waiting@.len() ==> (#[trigger] waiting@[k]) == kept[kept.len() - 1 - k].1,
        decreases sorted.len(),
    {
        let ghost before = sorted@;
        match sorted.pop() {
            Some((rank, item)) => {
                waiting.push(item);
                assert(before.drop_last() =~= kept.take(before.len() - 1));
            },
            None => {},
        }
    }
    let mut result: Vec<T> = Vec::new();
    while waiting.len() > 0
        invariant
            result@.len() + waiting@.len() == kept.len(),
            forall|k: int|
                0 <= k < waiting@.len() ==> (#[trigger] waiting@[k]) == kept[kept.len() - 1 - k].1,
            forall|k: int| 0 <= k < result@.len() ==> (#[trigger] result@[k]) == kept[k].1,
        decreases waiting.len(),
    {
        match waiting.pop() {
            Some(item) => {
                result.push(item);
            },
            None => {},
        }
    }
    assert(Seq::new(result@.len(), |i: int| result@[i]@) =~= bare(seen(kept)));
    result
}

} // verus!
