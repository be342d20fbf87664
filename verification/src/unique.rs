//! Unique-value sampling: a weighted-index lookup that skips items whose
//! value has already been emitted, and the bulk take built on it that
//! returns each distinct value at most once.

use vstd::prelude::*;

use crate::model::{lemma_sum_remove, lemma_sum_update, nonneg_weights, sum_weights, value_views};
use crate::rng::draw_below;
use crate::weighted_item::WeightedItem;
use crate::weighted_list::WeightedList;

verus! {

/// The set of value readings among a sequence of already-seen values.
pub open spec fn seen_views(seen: Seq<String>) -> Set<Seq<char>> {
    Set::new(|v: Seq<char>| exists|j: int| 0 <= j < seen.len() && seen[j]@ == v)
}

/// The live total: the weight of the items whose value has not been seen.
pub open spec fn sum_unseen(s: Seq<WeightedItem>, vs: Set<Seq<char>>) -> int
    decreases s.len(),
{
    if s.len() == 0 {
        0
    } else {
        (if vs.contains(s[0].value@) {
            0
        } else {
            s[0].weight as int
        }) + sum_unseen(s.drop_first(), vs)
    }
}

/// How many items carry a value that has not been seen.
pub open spec fn count_unseen(s: Seq<WeightedItem>, vs: Set<Seq<char>>) -> int
    decreases s.len(),
{
    if s.len() == 0 {
        0
    } else {
        (if vs.contains(s[0].value@) {
            0int
        } else {
            1int
        }) + count_unseen(s.drop_first(), vs)
    }
}

/// The physical position addressed by weighted index `wi` when items with
/// seen values are skipped: seen items contribute nothing to the running
/// total, and the first position where the total of unseen weights exceeds
/// `wi` is the answer (`s.len()` when none does).
pub open spec fn lookup_pos_skipping(s: Seq<WeightedItem>, wi: int, vs: Set<Seq<char>>) -> int
    decreases s.len(),
{
    if s.len() == 0 {
        0
    } else if vs.contains(s[0].value@) {
        1 + lookup_pos_skipping(s.drop_first(), wi, vs)
    } else if s[0].weight > wi {
        0
    } else {
        1 + lookup_pos_skipping(s.drop_first(), wi - s[0].weight, vs)
    }
}

proof fn lemma_sum_unseen_push(s: Seq<WeightedItem>, vs: Set<Seq<char>>, it: WeightedItem)
    ensures
        sum_unseen(s.push(it), vs) == sum_unseen(s, vs) + (if vs.contains(it.value@) {
            0
        } else {
            it.weight as int
        }),
    decreases s.len(),
{
    if s.len() == 0 {
        assert(s.push(it).drop_first() =~= Seq::<WeightedItem>::empty());
        assert(sum_unseen(s.push(it).drop_first(), vs) == 0);
        assert(s.push(it)[0] == it);
    } else {
        assert(s.push(it).drop_first() =~= s.drop_first().push(it));
        assert(s.push(it)[0] == s[0]);
        lemma_sum_unseen_push(s.drop_first(), vs, it);
    }
}

/// Extending a prefix by one item adds its live contribution.
pub proof fn lemma_sum_unseen_take_succ(s: Seq<WeightedItem>, vs: Set<Seq<char>>, k: int)
    requires
        0 <= k < s.len(),
    ensures
        sum_unseen(s.take(k + 1), vs) == sum_unseen(s.take(k), vs) + (if vs.contains(s[k].value@) {
            0
        } else {
            s[k].weight as int
        }),
{
    assert(s.take(k + 1) =~= s.take(k).push(s[k]));
    lemma_sum_unseen_push(s.take(k), vs, s[k]);
}

/// The live total over `n` items lies within `n` copies of the `i64` range.
pub proof fn lemma_sum_unseen_bounds(s: Seq<WeightedItem>, vs: Set<Seq<char>>)
    ensures
        s.len() * (i64::MIN as int) <= sum_unseen(s, vs) <= s.len() * (i64::MAX as int),
    decreases s.len(),
{
    if s.len() == 0 {
    } else {
        lemma_sum_unseen_bounds(s.drop_first(), vs);
        assert(s.len() * (i64::MIN as int) == (s.len() - 1) * (i64::MIN as int) + i64::MIN)
            by (nonlinear_arith);
        assert(s.len() * (i64::MAX as int) == (s.len() - 1) * (i64::MAX as int) + i64::MAX)
            by (nonlinear_arith);
    }
}

/// The whole sequence is its own prefix.
pub proof fn lemma_sum_unseen_take_all(s: Seq<WeightedItem>, vs: Set<Seq<char>>)
    ensures
        sum_unseen(s.take(s.len() as int), vs) == sum_unseen(s, vs),
{
    assert(s.take(s.len() as int) =~= s);
}

/// The first unseen position whose live running total exceeds the weighted
/// index is the skipping-lookup position.
pub proof fn lemma_skip_first(s: Seq<WeightedItem>, wi: int, vs: Set<Seq<char>>, k: int)
    requires
        0 <= k < s.len(),
        !vs.contains(s[k].value@),
        sum_unseen(s.take(k + 1), vs) > wi,
        forall|j: int|
            0 <= j < k ==> vs.contains(s[j].value@) || sum_unseen(#[trigger] s.take(j + 1), vs)
                <= wi,
    ensures
        lookup_pos_skipping(s, wi, vs) == k,
    decreases s.len(),
{
    assert(s.take(1) =~= seq![s[0]]);
    assert(sum_unseen(seq![s[0]].drop_first(), vs) == 0);
    let d = s.drop_first();
    assert forall|j: int| 0 <= j < d.len() implies #[trigger] d.take(j + 1) =~= s.take(
        (j + 1) + 1,
    ).drop_first() && s.take((j + 1) + 1)[0] == s[0] by {
        assert(s.take(j + 2).drop_first() =~= d.take(j + 1));
    }
    if vs.contains(s[0].value@) {
        assert(k >= 1);
        assert(sum_unseen(d.take((k - 1) + 1), vs) == sum_unseen(s.take(k + 1), vs));
        assert forall|j: int|
            0 <= j < k - 1 implies vs.contains(d[j].value@) || sum_unseen(
            #[trigger] d.take(j + 1),
            vs,
        ) <= wi by {
            assert(d[j] == s[j + 1]);
            assert(vs.contains(s[j + 1].value@) || sum_unseen(s.take((j + 1) + 1), vs) <= wi);
            assert(sum_unseen(d.take(j + 1), vs) == sum_unseen(s.take((j + 1) + 1), vs));
        }
        lemma_skip_first(d, wi, vs, k - 1);
    } else if k == 0 {
        assert(sum_unseen(s.take(1), vs) == s[0].weight);
    } else {
        assert(sum_unseen(s.take(0int + 1), vs) <= wi);
        assert(s[0].weight <= wi);
        let wid = wi - s[0].weight;
        assert(sum_unseen(d.take((k - 1) + 1), vs) == sum_unseen(s.take(k + 1), vs)
            - s[0].weight);
        assert forall|j: int|
            0 <= j < k - 1 implies vs.contains(d[j].value@) || sum_unseen(
            #[trigger] d.take(j + 1),
            vs,
        ) <= wid by {
            assert(d[j] == s[j + 1]);
            assert(vs.contains(s[j + 1].value@) || sum_unseen(s.take((j + 1) + 1), vs) <= wi);
            assert(sum_unseen(d.take(j + 1), vs) == sum_unseen(s.take((j + 1) + 1), vs)
                - s[0].weight);
        }
        lemma_skip_first(d, wid, vs, k - 1);
    }
}

/// When no live running total exceeds the weighted index, the skipping
/// lookup runs off the end.
pub proof fn lemma_skip_none(s: Seq<WeightedItem>, wi: int, vs: Set<Seq<char>>)
    requires
        forall|j: int|
            0 <= j < s.len() ==> vs.contains(s[j].value@) || sum_unseen(
                #[trigger] s.take(j + 1),
                vs,
            ) <= wi,
    ensures
        lookup_pos_skipping(s, wi, vs) == s.len(),
    decreases s.len(),
{
    if s.len() > 0 {
        assert(s.take(1) =~= seq![s[0]]);
        assert(sum_unseen(seq![s[0]].drop_first(), vs) == 0);
        let d = s.drop_first();
        assert forall|j: int| 0 <= j < d.len() implies sum_unseen(#[trigger] d.take(j + 1), vs)
            == sum_unseen(s.take((j + 1) + 1), vs) - (if vs.contains(s[0].value@) {
            0int
        } else {
            s[0].weight as int
        }) by {
            assert(s.take(j + 2).drop_first() =~= d.take(j + 1));
            assert(s.take(j + 2)[0] == s[0]);
        }
        if vs.contains(s[0].value@) {
            assert forall|j: int|
                0 <= j < d.len() implies vs.contains(d[j].value@) || sum_unseen(
                #[trigger] d.take(j + 1),
                vs,
            ) <= wi by {
                assert(d[j] == s[j + 1]);
                assert(vs.contains(s[j + 1].value@) || sum_unseen(s.take((j + 1) + 1), vs) <= wi);
            }
            lemma_skip_none(d, wi, vs);
        } else {
            assert(sum_unseen(s.take(0int + 1), vs) <= wi);
            assert(s[0].weight <= wi);
            let wid = wi - s[0].weight;
            assert forall|j: int|
                0 <= j < d.len() implies vs.contains(d[j].value@) || sum_unseen(
                #[trigger] d.take(j + 1),
                vs,
            ) <= wid by {
                assert(d[j] == s[j + 1]);
                assert(vs.contains(s[j + 1].value@) || sum_unseen(s.take((j + 1) + 1), vs) <= wi);
            }
            lemma_skip_none(d, wid, vs);
        }
    }
}

/// With non-negative weights, the live total never exceeds the full total
/// and is itself non-negative.
pub proof fn lemma_sum_unseen_le_sum(s: Seq<WeightedItem>, vs: Set<Seq<char>>)
    requires
        nonneg_weights(s),
    ensures
        0 <= sum_unseen(s, vs) <= sum_weights(s),
    decreases s.len(),
{
    if s.len() > 0 {
        lemma_sum_unseen_le_sum(s.drop_first(), vs);
    }
}

/// With strictly positive weights, every unseen item contributes at least
/// one unit to the live total.
pub proof fn lemma_count_le_sum_unseen(s: Seq<WeightedItem>, vs: Set<Seq<char>>)
    requires
        forall|k: int| 0 <= k < s.len() ==> (#[trigger] s[k]).weight > 0,
    ensures
        0 <= count_unseen(s, vs) <= sum_unseen(s, vs),
    decreases s.len(),
{
    if s.len() > 0 {
        lemma_count_le_sum_unseen(s.drop_first(), vs);
    }
}

/// A sequence with no unseen item has every value seen.
pub proof fn lemma_count_unseen_zero(s: Seq<WeightedItem>, vs: Set<Seq<char>>)
    requires
        count_unseen(s, vs) <= 0,
    ensures
        forall|k: int| 0 <= k < s.len() ==> vs.contains((#[trigger] s[k]).value@),
    decreases s.len(),
{
    if s.len() > 0 {
        lemma_count_nonneg(s.drop_first(), vs);
        lemma_count_unseen_zero(s.drop_first(), vs);
        assert forall|k: int| 0 <= k < s.len() implies vs.contains((#[trigger] s[k]).value@) by {
            if k > 0 {
                assert(s[k] == s.drop_first()[k - 1]);
            }
        }
    }
}

proof fn lemma_count_nonneg(s: Seq<WeightedItem>, vs: Set<Seq<char>>)
    ensures
        count_unseen(s, vs) >= 0,
    decreases s.len(),
{
    if s.len() > 0 {
        lemma_count_nonneg(s.drop_first(), vs);
    }
}

/// The unseen count is never negative.
pub proof fn lemma_count_nonneg_pub(s: Seq<WeightedItem>, vs: Set<Seq<char>>)
    ensures
        count_unseen(s, vs) >= 0,
{
    lemma_count_nonneg(s, vs);
}

/// Seeing more values leaves no more items unseen.
pub proof fn lemma_count_unseen_mono(
    s: Seq<WeightedItem>,
    vs: Set<Seq<char>>,
    vs2: Set<Seq<char>>,
)
    requires
        forall|v: Seq<char>| vs.contains(v) ==> vs2.contains(v),
    ensures
        count_unseen(s, vs2) <= count_unseen(s, vs),
    decreases s.len(),
{
    if s.len() > 0 {
        lemma_count_unseen_mono(s.drop_first(), vs, vs2);
    }
}

/// Removing an item leaves no more items unseen.
pub proof fn lemma_count_unseen_remove(s: Seq<WeightedItem>, vs: Set<Seq<char>>, p: int)
    requires
        0 <= p < s.len(),
    ensures
        count_unseen(s.remove(p), vs) <= count_unseen(s, vs),
    decreases s.len(),
{
    if p == 0 {
        assert(s.remove(0) =~= s.drop_first());
    } else {
        assert(s.remove(p).drop_first() =~= s.drop_first().remove(p - 1));
        assert(s.remove(p)[0] == s[0]);
        lemma_count_unseen_remove(s.drop_first(), vs, p - 1);
    }
}

/// Updating an item to one with the same value changes nothing about which
/// items are unseen.
pub proof fn lemma_count_unseen_update(
    s: Seq<WeightedItem>,
    vs: Set<Seq<char>>,
    p: int,
    it: WeightedItem,
)
    requires
        0 <= p < s.len(),
        it.value@ == s[p].value@,
    ensures
        count_unseen(s.update(p, it), vs) == count_unseen(s, vs),
    decreases s.len(),
{
    if p == 0 {
        assert(s.update(0, it).drop_first() =~= s.drop_first());
        assert(s.update(0, it)[0] == it);
    } else {
        assert(s.update(p, it).drop_first() =~= s.drop_first().update(p - 1, it));
        assert(s.update(p, it)[0] == s[0]);
        lemma_count_unseen_update(s.drop_first(), vs, p - 1, it);
    }
}

/// Marking an unseen item's value as seen strictly shrinks the number of
/// unseen items.
pub proof fn lemma_count_unseen_after_seeing(
    s: Seq<WeightedItem>,
    vs: Set<Seq<char>>,
    vs2: Set<Seq<char>>,
    p: int,
)
    requires
        0 <= p < s.len(),
        !vs.contains(s[p].value@),
        vs2.contains(s[p].value@),
        forall|v: Seq<char>| vs.contains(v) ==> vs2.contains(v),
    ensures
        count_unseen(s, vs2) <= count_unseen(s, vs) - 1,
    decreases s.len(),
{
    if p == 0 {
        lemma_count_unseen_mono(s.drop_first(), vs, vs2);
    } else {
        lemma_count_unseen_after_seeing(s.drop_first(), vs, vs2, p - 1);
    }
}

/// Once a removed item's value is seen, every value reading of the longer
/// list is either seen or still present in the shorter one.
pub proof fn lemma_cover_after_remove(s: Seq<WeightedItem>, p: int, vs2: Set<Seq<char>>)
    requires
        0 <= p < s.len(),
        vs2.contains(s[p].value@),
    ensures
        forall|v: Seq<char>|
            #[trigger] value_views(s).contains(v) ==> vs2.contains(v) || value_views(
                s.remove(p),
            ).contains(v),
{
    assert forall|v: Seq<char>|
        #[trigger] value_views(s).contains(v) implies vs2.contains(v) || value_views(
        s.remove(p),
    ).contains(v) by {
        let k = choose|k: int| 0 <= k < s.len() && s[k].value@ == v;
        if k == p {
        } else if k < p {
            assert(s.remove(p)[k].value@ == v);
        } else {
            assert(s.remove(p)[k - 1].value@ == v);
        }
    }
}

/// Every weight in the sequence is strictly positive.
pub open spec fn all_positive(s: Seq<WeightedItem>) -> bool {
    forall|k: int| 0 <= k < s.len() ==> (#[trigger] s[k]).weight > 0
}

/// How many distinct value readings of `s` lie outside `vs`: walking left to
/// right, a value counts at its first occurrence only.
pub open spec fn distinct_unseen(s: Seq<WeightedItem>, vs: Set<Seq<char>>) -> int
    decreases s.len(),
{
    if s.len() == 0 {
        0
    } else {
        (if vs.contains(s[0].value@) {
            0int
        } else {
            1int
        }) + distinct_unseen(s.drop_first(), vs.insert(s[0].value@))
    }
}

/// How many distinct value readings a list holds.
pub open spec fn distinct_values(s: Seq<WeightedItem>) -> int {
    distinct_unseen(s, Set::<Seq<char>>::empty())
}

/// Seeing one present-but-unseen value shrinks the distinct-unseen count by
/// exactly one.
pub proof fn lemma_distinct_insert(s: Seq<WeightedItem>, vs: Set<Seq<char>>, v: Seq<char>)
    requires
        value_views(s).contains(v),
        !vs.contains(v),
    ensures
        distinct_unseen(s, vs.insert(v)) == distinct_unseen(s, vs) - 1,
    decreases s.len(),
{
    let d = s.drop_first();
    let u = s[0].value@;
    if u == v {
        assert(vs.insert(v).insert(u) =~= vs.insert(v));
        assert(vs.insert(u) =~= vs.insert(v));
    } else {
        assert(vs.insert(v).insert(u) =~= vs.insert(u).insert(v));
        let k = choose|k: int| 0 <= k < s.len() && s[k].value@ == v;
        assert(k > 0);
        assert(d[k - 1].value@ == v);
        assert(value_views(d).contains(v));
        assert(!vs.insert(u).contains(v));
        lemma_distinct_insert(d, vs.insert(u), v);
    }
}

/// With every value reading of `s` already seen, nothing distinct remains.
pub proof fn lemma_distinct_covered(s: Seq<WeightedItem>, vs: Set<Seq<char>>)
    requires
        forall|v: Seq<char>| #[trigger] value_views(s).contains(v) ==> vs.contains(v),
    ensures
        distinct_unseen(s, vs) == 0,
    decreases s.len(),
{
    if s.len() > 0 {
        assert(value_views(s).contains(s[0].value@));
        let d = s.drop_first();
        assert forall|v: Seq<char>| #[trigger] value_views(d).contains(v) implies vs.insert(
            s[0].value@,
        ).contains(v) by {
            let k = choose|k: int| 0 <= k < d.len() && d[k].value@ == v;
            assert(s[k + 1].value@ == v);
            assert(value_views(s).contains(v));
        }
        lemma_distinct_covered(d, vs.insert(s[0].value@));
    }
}

/// The distinct-unseen count is never negative.
pub proof fn lemma_distinct_nonneg(s: Seq<WeightedItem>, vs: Set<Seq<char>>)
    ensures
        distinct_unseen(s, vs) >= 0,
    decreases s.len(),
{
    if s.len() > 0 {
        lemma_distinct_nonneg(s.drop_first(), vs.insert(s[0].value@));
    }
}

/// A non-negative weighted index below the live total always addresses an
/// unseen item.
pub proof fn lemma_skip_found(s: Seq<WeightedItem>, wi: int, vs: Set<Seq<char>>)
    requires
        0 <= wi < sum_unseen(s, vs),
    ensures
        lookup_pos_skipping(s, wi, vs) < s.len(),
    decreases s.len(),
{
    if s.len() == 0 {
    } else if vs.contains(s[0].value@) {
        lemma_skip_found(s.drop_first(), wi, vs);
    } else if s[0].weight > wi {
    } else {
        lemma_skip_found(s.drop_first(), wi - s[0].weight, vs);
    }
}

/// No more items are unseen than there are items.
pub proof fn lemma_count_le_len(s: Seq<WeightedItem>, vs: Set<Seq<char>>)
    ensures
        count_unseen(s, vs) <= s.len(),
    decreases s.len(),
{
    if s.len() > 0 {
        lemma_count_le_len(s.drop_first(), vs);
    }
}

/// An unseen item makes the unseen count strictly positive.
pub proof fn lemma_count_unseen_at_least_one(s: Seq<WeightedItem>, vs: Set<Seq<char>>, p: int)
    requires
        0 <= p < s.len(),
        !vs.contains(s[p].value@),
    ensures
        count_unseen(s, vs) >= 1,
    decreases s.len(),
{
    lemma_count_nonneg(s.drop_first(), vs);
    if p > 0 {
        lemma_count_unseen_at_least_one(s.drop_first(), vs, p - 1);
    }
}

/// The live total of at most `2^64` items fits in an `i128`.
pub proof fn lemma_sum_unseen_fits_i128(s: Seq<WeightedItem>, vs: Set<Seq<char>>)
    requires
        s.len() <= 0x1_0000_0000_0000_0000,
    ensures
        i128::MIN <= sum_unseen(s, vs) <= i128::MAX,
{
    lemma_sum_unseen_bounds(s, vs);
    assert(s.len() * (i64::MIN as int) >= 0x1_0000_0000_0000_0000 * (i64::MIN as int))
        by (nonlinear_arith)
        requires
            s.len() <= 0x1_0000_0000_0000_0000,
    ;
    assert(s.len() * (i64::MAX as int) <= 0x1_0000_0000_0000_0000 * (i64::MAX as int))
        by (nonlinear_arith)
        requires
            s.len() <= 0x1_0000_0000_0000_0000,
    ;
}

/// Updating an item to one with the same value keeps the value readings.
pub proof fn lemma_cover_after_update(s: Seq<WeightedItem>, p: int, it: WeightedItem)
    requires
        0 <= p < s.len(),
        it.value@ == s[p].value@,
    ensures
        forall|v: Seq<char>|
            #[trigger] value_views(s).contains(v) ==> value_views(s.update(p, it)).contains(v),
{
    assert forall|v: Seq<char>|
        #[trigger] value_views(s).contains(v) implies value_views(s.update(p, it)).contains(
        v,
    ) by {
        let k = choose|k: int| 0 <= k < s.len() && s[k].value@ == v;
        assert(s.update(p, it)[k].value@ == v);
    }
}

/// Is `v` among the already-seen values? (a linear scan)
fn contains_value(seen: &Vec<String>, v: &String) -> (r: bool)
    ensures
        r <==> seen_views(seen@).contains(v@),
{
    let mut j: usize = 0;
    while j < seen.len()
        invariant
            j <= seen@.len(),
            forall|k: int| 0 <= k < j ==> seen@[k]@ != v@,
        decreases seen@.len() - j,
    {
        if seen[j] == *v {
            proof {
                assert(seen@[j as int]@ == v@);
            }
            return true;
        }
        j += 1;
    }
    proof {
        if seen_views(seen@).contains(v@) {
            let k = choose|k: int| 0 <= k < seen@.len() && seen@[k]@ == v@;
            assert(seen@[k]@ != v@);
        }
    }
    false
}

impl WeightedList {
    /// The live total: the summed weight of the items whose value is not in
    /// `seen`, on a wide accumulator.
    fn sum_unseen_wide(&self, seen: &Vec<String>) -> (t: i128)
        ensures
            t == sum_unseen(self@, seen_views(seen@)),
    {
        let ghost s = self@;
        let ghost vs = seen_views(seen@);
        let n = self.total_values();
        let mut t: i128 = 0;
        let mut i: usize = 0;
        while i < n
            invariant
                s == self@,
                vs == seen_views(seen@),
                n == s.len(),
                i <= n,
                t == sum_unseen(s.take(i as int), vs),
            decreases n - i,
        {
            proof {
                lemma_sum_unseen_take_succ(s, vs, i as int);
                assert(s.take(i + 1).len() == i + 1);
                lemma_sum_unseen_fits_i128(s.take(i + 1), vs);
            }
            if !contains_value(seen, &self.items()[i].value) {
                t = t + (self.items()[i].weight as i128);
            }
            i += 1;
        }
        proof {
            lemma_sum_unseen_take_all(s, vs);
        }
        t
    }

    /// The loop shared by the unique bulk-sampling operations: draw a
    /// weighted index over the live (unseen) weight, resolve it with the
    /// skipping lookup, emit the value, mark it seen, and either remove the
    /// item outright (`take_entire`) or decrement its weight, removing it
    /// when the weight is no longer positive. Runs for at most `count`
    /// draws, stopping early once nothing live remains.
    ///
    /// Returns distinct values, each drawn from the list. When `count`
    /// covers the whole list and every weight is positive, every distinct
    /// value of the list is returned exactly once.
    pub(crate) fn take_unique_loop(
        &mut self,
        rng: &mut rand::rngs::StdRng,
        count: usize,
        decrement: i64,
        take_entire: bool,
    ) -> (r: Vec<String>)
        requires
            nonneg_weights(old(self)@),
            decrement >= 0,
        ensures
            r@.len() <= count,
            forall|a: int, b: int| 0 <= a < b < r@.len() ==> r@[a]@ != r@[b]@,
            forall|j: int| 0 <= j < r@.len() ==> value_views(old(self)@).contains(#[trigger] r@[j]@),
            (count >= old(self)@.len() && all_positive(old(self)@) && sum_weights(old(self)@)
                <= i64::MAX) ==> (forall|v: Seq<char>|
                #[trigger] value_views(old(self)@).contains(v) ==> exists|j: int|
                    0 <= j < r@.len() && r@[j]@ == v),
            (all_positive(old(self)@) && sum_weights(old(self)@) <= i64::MAX) ==> r@.len() == (
            if count <= distinct_values(old(self)@) {
                count as int
            } else {
                distinct_values(old(self)@)
            }),
            nonneg_weights(final(self)@),
            forall|v: Seq<char>|
                #[trigger] value_views(final(self)@).contains(v) ==> value_views(old(self)@).contains(
                    v,
                ),
    {
        let ghost s0 = old(self)@;
        let mut seen: Vec<String> = Vec::new();
        let mut out: Vec<String> = Vec::new();
        let mut n: usize = 0;
        let mut stop: bool = false;
        proof {
            lemma_count_le_len(s0, seen_views(seen@));
            assert(seen_views(seen@) =~= Set::<Seq<char>>::empty());
        }
        while n < count && !stop
            invariant
                s0 == old(self)@,
                nonneg_weights(s0),
                decrement >= 0,
                nonneg_weights(self@),
                sum_weights(self@) <= sum_weights(s0),
                n <= count,
                out@.len() == n,
                seen@.len() == out@.len(),
                distinct_unseen(s0, seen_views(seen@)) == distinct_values(s0) - n,
                forall|j: int| 0 <= j < out@.len() ==> (#[trigger] seen@[j])@ == out@[j]@,
                forall|a: int, b: int| 0 <= a < b < out@.len() ==> out@[a]@ != out@[b]@,
                forall|j: int|
                    0 <= j < out@.len() ==> value_views(s0).contains(#[trigger] out@[j]@),
                forall|v: Seq<char>|
                    #[trigger] value_views(self@).contains(v) ==> value_views(s0).contains(v),
                forall|v: Seq<char>|
                    #[trigger] value_views(s0).contains(v) ==> seen_views(seen@).contains(v)
                        || value_views(self@).contains(v),
                count_unseen(self@, seen_views(seen@)) <= s0.len() - n || count_unseen(
                    self@,
                    seen_views(seen@),
                ) == 0,
                all_positive(s0) ==> all_positive(self@),
                stop ==> ((all_positive(s0) && sum_weights(s0) <= i64::MAX) ==> forall|v: Seq<char>|
                    #[trigger] value_views(s0).contains(v) ==> seen_views(seen@).contains(v)),
            decreases count - n, (if stop {
                0int
            } else {
                1int
            }),
        {
            let ghost s = self@;
            let ghost seen0 = seen@;
            let ghost out0 = out@;
            let ghost vs = seen_views(seen@);
            let live = self.sum_unseen_wide(&seen);
            if live <= 0 || live > (i64::MAX as i128) {
                proof {
                    if all_positive(s0) && sum_weights(s0) <= i64::MAX {
                        lemma_sum_unseen_le_sum(s, vs);
                        // the live total cannot exceed the full total, so
                        // only exhaustion remains
                        lemma_count_le_sum_unseen(s, vs);
                        lemma_count_unseen_zero(s, vs);
                        assert forall|v: Seq<char>|
                            #[trigger] value_views(s0).contains(v) implies seen_views(
                            seen@,
                        ).contains(v) by {
                            if value_views(s).contains(v) {
                                let k = choose|k: int| 0 <= k < s.len() && s[k].value@ == v;
                                assert(vs.contains(s[k].value@));
                            }
                        }
                    }
                }
                stop = true;
            } else {
                let wi = draw_below(rng, live as i64);
                match self._unweight_index_skipping_(wi, &seen) {
                    None => {
                        proof {
                            lemma_skip_found(s, wi as int, vs);
                        }
                        stop = true;
                    },
                    Some(idx) => {
                        let ghost pos = idx as int;
                        let value = self.items()[idx].value.clone();
                        if take_entire {
                            self.remove_phys(idx);
                            proof {
                                lemma_sum_remove(s, pos);
                            }
                        } else {
                            let w = self.items()[idx].weight;
                            let w2 = w - decrement;
                            if w2 <= 0 {
                                self.remove_phys(idx);
                                proof {
                                    lemma_sum_remove(s, pos);
                                }
                            } else {
                                let updated = WeightedItem { weight: w2, value: value.clone() };
                                self.set_item(idx, updated);
                                proof {
                                    lemma_sum_update(
                                        s,
                                        pos,
                                        WeightedItem { weight: w2, value: s[pos].value },
                                    );
                                }
                            }
                        }
                        seen.push(value.clone());
                        out.push(value);
                        proof {
                            let vs2 = seen_views(seen@);
                            let v = s[pos].value@;
                            assert(seen@ == seen0.push(value));
                            assert(out@ == out0.push(value));
                            // the freshly seen set is the old one plus the
                            // drawn value
                            assert(seen@[seen@.len() - 1]@ == v);
                            assert(vs2.contains(v));
                            assert forall|u: Seq<char>| vs.contains(u) implies vs2.contains(u) by {
                                let j = choose|j: int| 0 <= j < seen0.len() && seen0[j]@ == u;
                                assert(seen@[j]@ == u);
                            }
                            // one more item is covered
                            if count_unseen(s, vs) == 0 {
                                lemma_count_unseen_at_least_one(s, vs, pos);
                            }
                            lemma_count_unseen_after_seeing(s, vs, vs2, pos);
                            if take_entire || s[pos].weight - decrement <= 0 {
                                lemma_count_unseen_remove(s, vs2, pos);
                                lemma_cover_after_remove(s, pos, vs2);
                                crate::model::lemma_views_remove(s, pos);
                            } else {
                                let it = WeightedItem {
                                    weight: (s[pos].weight - decrement) as i64,
                                    value: s[pos].value,
                                };
                                lemma_count_unseen_update(s, vs2, pos, it);
                                lemma_cover_after_update(s, pos, it);
                                crate::model::lemma_views_update_same_value(s, pos, it);
                            }
                            // the emitted value is a value of the original
                            // list, and was never emitted before
                            assert(value_views(s).contains(v));
                            assert(!vs.contains(v));
                            assert(value_views(s0).contains(v));
                            assert(vs2 =~= vs.insert(v));
                            lemma_distinct_insert(s0, vs, v);
                            assert forall|a: int, b: int|
                                0 <= a < b < out@.len() implies out@[a]@ != out@[b]@ by {
                                if b == out@.len() - 1 {
                                    assert(out@[a]@ == out0[a]@);
                                    assert(seen0[a]@ == out0[a]@);
                                    assert(vs.contains(seen0[a]@));
                                }
                            }
                        }
                        n += 1;
                    },
                }
            }
        }
        proof {
            if all_positive(s0) && sum_weights(s0) <= i64::MAX {
                let vsf = seen_views(seen@);
                if stop {
                    lemma_distinct_covered(s0, vsf);
                } else {
                    lemma_distinct_nonneg(s0, vsf);
                }
            }
            if count >= s0.len() && all_positive(s0) && sum_weights(s0) <= i64::MAX {
                let vsf = seen_views(seen@);
                if !stop {
                    // the loop ran its full course: every item's value has
                    // been seen
                    lemma_count_nonneg_pub(self@, vsf);
                    lemma_count_unseen_zero(self@, vsf);
                }
                assert forall|v: Seq<char>|
                    #[trigger] value_views(s0).contains(v) implies exists|j: int|
                    0 <= j < out@.len() && out@[j]@ == v by {
                    if value_views(self@).contains(v) && !vsf.contains(v) {
                        let k = choose|k: int| 0 <= k < self@.len() && self@[k].value@ == v;
                        assert(vsf.contains(self@[k].value@));
                    }
                    assert(vsf.contains(v));
                    let j = choose|j: int| 0 <= j < seen@.len() && seen@[j]@ == v;
                    assert(out@[j]@ == v);
                }
            }
        }
        out
    }

    /// Translate `weighted_index` to a physical position while skipping
    /// items whose value is in `seen`: only unseen items contribute to the
    /// running weight total. `None` when no live running total exceeds the
    /// weighted index.
    #[allow(non_snake_case)]
    pub fn _unweight_index_skipping_(&self, weighted_index: i64, seen: &Vec<String>) -> (r: Option<
        usize,
    >)
        ensures
            ({
                let pos = lookup_pos_skipping(self@, weighted_index as int, seen_views(seen@));
                match r {
                    Some(i) => i == pos && pos < self@.len() && !seen_views(seen@).contains(
                        self@[pos].value@,
                    ),
                    None => pos == self@.len(),
                }
            }),
    {
        let ghost s = self@;
        let ghost vs = seen_views(seen@);
        let ghost wi = weighted_index as int;
        let n = self.total_values();
        let mut t: i128 = 0;
        let mut i: usize = 0;
        while i < n
            invariant
                s == self@,
                vs == seen_views(seen@),
                wi == weighted_index as int,
                n == s.len(),
                i <= n,
                t == sum_unseen(s.take(i as int), vs),
                forall|j: int|
                    0 <= j < i ==> vs.contains(s[j].value@) || sum_unseen(
                        #[trigger] s.take(j + 1),
                        vs,
                    ) <= wi,
            decreases n - i,
        {
            proof {
                lemma_sum_unseen_take_succ(s, vs, i as int);
                assert(s.take(i + 1).len() == i + 1);
                lemma_sum_unseen_fits_i128(s.take(i + 1), vs);
            }
            if !contains_value(seen, &self.items()[i].value) {
                t = t + (self.items()[i].weight as i128);
                if t > (weighted_index as i128) {
                    proof {
                        lemma_skip_first(s, wi, vs, i as int);
                    }
                    return Some(i);
                }
            }
            i += 1;
        }
        proof {
            lemma_skip_none(s, wi, vs);
        }
        None
    }
}

} // verus!
