//! How many bots of each kind a mix comes to.
use vstd::arithmetic::div_mod::{lemma_fundamental_div_mod, lemma_mod_bound};
use vstd::prelude::*;
use vstd::set_lib::lemma_len_subset;

use crate::bot::ratio::{BotType, RatioSpec};

verus! {

// ------------------------------------------------------------ specification

/// The sum of all ratios.
pub open spec fn ratio_sum(entries: Seq<(BotType, u32)>) -> nat
    decreases entries.len(),
{
    if entries.len() == 0 {
        0
    } else {
        ratio_sum(entries.drop_last()) + entries.last().1 as nat
    }
}

/// The whole bots that a ratio comes to, out of `total`.
pub open spec fn floor_share(total: nat, ratio: u32, sum: nat) -> nat {
    total * (ratio as nat) / sum
}

/// The sum of the whole bots of all entries.
pub open spec fn floor_sum(total: nat, entries: Seq<(BotType, u32)>, sum: nat) -> nat
    decreases entries.len(),
{
    if entries.len() == 0 {
        0
    } else {
        floor_sum(total, entries.drop_last(), sum) + floor_share(total, entries.last().1, sum)
    }
}

/// The bots that are left when every kind has its whole ones.
pub open spec fn left_over(total: nat, entries: Seq<(BotType, u32)>) -> int {
    total - floor_sum(total, entries, ratio_sum(entries))
}

/// Entry `j` is served before entry `i`: its ratio is higher, or it is the same
/// and `j` was named first.
pub open spec fn precedes(entries: Seq<(BotType, u32)>, j: int, i: int) -> bool {
    entries[j].1 > entries[i].1 || (entries[j].1 == entries[i].1 && j < i)
}

/// The entries that are served before entry `i`.
pub open spec fn ahead_of(entries: Seq<(BotType, u32)>, i: int) -> Set<int> {
    Set::new(|j: int| 0 <= j < entries.len() && precedes(entries, j, i))
}

/// Whether entry `i` gets one of the bots that are left: there are more of them
/// than there are entries to be served before it.
pub open spec fn gets_extra(total: nat, entries: Seq<(BotType, u32)>, i: int) -> bool {
    ahead_of(entries, i).len() < left_over(total, entries)
}

/// The bots of entry `i`.
pub open spec fn allocated(total: nat, entries: Seq<(BotType, u32)>, i: int) -> nat {
    floor_share(total, entries[i].1, ratio_sum(entries)) + if gets_extra(total, entries, i) {
        1nat
    } else {
        0nat
    }
}

/// The bots of all kinds together.
pub open spec fn bot_sum(allocation: Seq<(BotType, usize)>) -> nat
    decreases allocation.len(),
{
    if allocation.len() == 0 {
        0
    } else {
        bot_sum(allocation.drop_last()) + allocation.last().1 as nat
    }
}

/// The numbers stay in range: some ratio is not zero, the ratios can be summed
/// up in a `u32`, and each of them can be multiplied by `total` in a `u64`.
pub open spec fn in_range(total: nat, entries: Seq<(BotType, u32)>) -> bool {
    entries.len() > 0 ==> {
        &&& 0 < ratio_sum(entries) <= u32::MAX
        &&& forall|i: int|
            0 <= i < entries.len() ==> total * ((#[trigger] entries[i]).1 as nat) <= u64::MAX
    }
}

// ------------------------------------------------------------------- lemmas

/// Rounding down loses less than one bot for each entry.
proof fn lemma_floor_sum_bounds(total: nat, entries: Seq<(BotType, u32)>, sum: nat)
    requires
        sum > 0,
    ensures
        sum * floor_sum(total, entries, sum) <= total * ratio_sum(entries),
        entries.len() > 0 ==> total * ratio_sum(entries) < sum * floor_sum(total, entries, sum)
            + sum * entries.len(),
    decreases entries.len(),
{
    if entries.len() > 0 {
        let front = entries.drop_last();
        let ratio = entries.last().1 as nat;
        lemma_floor_sum_bounds(total, front, sum);
        let x = total * ratio;
        let q = floor_share(total, entries.last().1, sum);
        lemma_fundamental_div_mod(x as int, sum as int);
        lemma_mod_bound(x as int, sum as int);
        assert(sum * q <= x < sum * q + sum);
        let f = floor_sum(total, front, sum);
        let r = ratio_sum(front);
        assert(sum * (f + q) == sum * f + sum * q) by (nonlinear_arith);
        assert(total * (r + ratio) == total * r + x) by (nonlinear_arith)
            requires
                x == total * ratio,
        ;
        let n = front.len();
        assert(sum * (n + 1) == sum * n + sum) by (nonlinear_arith);
        if front.len() == 0 {
            assert(sum * f == 0) by (nonlinear_arith)
                requires
                    f == 0,
            ;
            assert(total * r == 0) by (nonlinear_arith)
                requires
                    r == 0,
            ;
            assert(sum * n == 0) by (nonlinear_arith)
                requires
                    n == 0,
            ;
        }
    } else {
        assert(sum * floor_sum(total, entries, sum) == 0) by (nonlinear_arith)
            requires
                floor_sum(total, entries, sum) == 0,
        ;
        assert(total * ratio_sum(entries) >= 0) by (nonlinear_arith);
    }
}

/// Fewer bots are left over than there are entries.
proof fn lemma_left_over(total: nat, entries: Seq<(BotType, u32)>)
    requires
        entries.len() > 0,
        ratio_sum(entries) > 0,
    ensures
        0 <= left_over(total, entries) < entries.len(),
{
    let sum = ratio_sum(entries);
    let f = floor_sum(total, entries, sum);
    let n = entries.len();
    lemma_floor_sum_bounds(total, entries, sum);
    assert(f <= total) by (nonlinear_arith)
        requires
            sum > 0,
            sum * f <= total * sum,
    ;
    assert(total < f + n) by (nonlinear_arith)
        requires
            sum > 0,
            total * sum < sum * f + sum * n,
    ;
}

/// No ratio is more than the sum of all, so no entry gets more than all bots.
proof fn lemma_floor_share_bound(total: nat, entries: Seq<(BotType, u32)>, i: int)
    requires
        0 <= i < entries.len(),
        ratio_sum(entries) > 0,
    ensures
        floor_share(total, entries[i].1, ratio_sum(entries)) <= total,
{
    lemma_ratio_bound(entries, i);
    let sum = ratio_sum(entries);
    let ratio = entries[i].1 as nat;
    let x = total * ratio;
    let q = floor_share(total, entries[i].1, sum);
    lemma_fundamental_div_mod(x as int, sum as int);
    lemma_mod_bound(x as int, sum as int);
    assert(q <= total) by (nonlinear_arith)
        requires
            sum * q <= x,
            x == total * ratio,
            ratio <= sum,
            sum > 0,
    ;
}

proof fn lemma_ratio_bound(entries: Seq<(BotType, u32)>, i: int)
    requires
        0 <= i < entries.len(),
    ensures
        entries[i].1 <= ratio_sum(entries),
    decreases entries.len(),
{
    if i < entries.len() - 1 {
        lemma_ratio_bound(entries.drop_last(), i);
    }
}

proof fn lemma_ratio_sum_monotone(entries: Seq<(BotType, u32)>, k: int)
    requires
        0 <= k <= entries.len(),
    ensures
        ratio_sum(entries.take(k)) <= ratio_sum(entries),
    decreases entries.len() - k,
{
    if k < entries.len() {
        lemma_ratio_sum_monotone(entries, k + 1);
        assert(entries.take(k + 1).drop_last() == entries.take(k));
    } else {
        assert(entries.take(k) == entries);
    }
}

proof fn lemma_floor_sum_monotone(total: nat, entries: Seq<(BotType, u32)>, sum: nat, k: int)
    requires
        0 <= k <= entries.len(),
    ensures
        floor_sum(total, entries.take(k), sum) <= floor_sum(total, entries, sum),
    decreases entries.len() - k,
{
    if k < entries.len() {
        lemma_floor_sum_monotone(total, entries, sum, k + 1);
        assert(entries.take(k + 1).drop_last() == entries.take(k));
    } else {
        assert(entries.take(k) == entries);
    }
}

/// One more bot for one kind is one more bot in all.
proof fn lemma_bot_sum_update(allocation: Seq<(BotType, usize)>, i: int, n: usize)
    requires
        0 <= i < allocation.len(),
    ensures
        bot_sum(allocation.update(i, (allocation[i].0, n))) + allocation[i].1 == bot_sum(allocation)
            + n,
    decreases allocation.len(),
{
    let changed = allocation.update(i, (allocation[i].0, n));
    if i == allocation.len() - 1 {
        assert(changed.drop_last() == allocation.drop_last());
    } else {
        assert(changed.drop_last() == allocation.drop_last().update(i, (allocation[i].0, n)));
        lemma_bot_sum_update(allocation.drop_last(), i, n);
    }
}

/// All entries, in the order in which they are served.
pub open spec fn is_serving_order(entries: Seq<(BotType, u32)>, order: Seq<usize>) -> bool {
    &&& order.len() <= entries.len()
    &&& forall|a: int| 0 <= a < order.len() ==> 0 <= #[trigger] order[a] < order.len()
    &&& forall|a: int, b: int|
        0 <= a < b < order.len() ==> precedes(
            entries,
            (#[trigger] order[a]) as int,
            (#[trigger] order[b]) as int,
        )
    &&& forall|j: int| 0 <= j < order.len() ==> order.contains(#[trigger] (j as usize))
}

/// In the serving order, those ahead of an entry are those in front of it.
proof fn lemma_place_in_order(entries: Seq<(BotType, u32)>, order: Seq<usize>, k: int)
    requires
        is_serving_order(entries, order),
        order.len() == entries.len(),
        entries.len() <= usize::MAX,
        0 <= k < order.len(),
    ensures
        ahead_of(entries, order[k] as int).len() == k,
{
    let places = Seq::new(k as nat, |a: int| order[a] as int);
    assert(places.no_duplicates()) by {
        assert forall|a: int, b: int|
            0 <= a < places.len() && 0 <= b < places.len() && a != b implies places[a]
            != places[b] by {
            if a < b {
                assert(precedes(entries, order[a] as int, order[b] as int));
            } else {
                assert(precedes(entries, order[b] as int, order[a] as int));
            }
        }
    }
    places.unique_seq_to_set();
    let ahead = ahead_of(entries, order[k] as int);
    assert forall|j: int| places.to_set().contains(j) <==> #[trigger] ahead.contains(j) by {
        if places.contains(j) {
            let a = choose|a: int| 0 <= a < places.len() && places[a] == j;
            assert(precedes(entries, order[a] as int, order[k] as int));
        }
        if ahead.contains(j) {
            assert(order.contains(j as usize));
            let a = choose|a: int| 0 <= a < order.len() && order[a] == j as usize;
            if a > k {
                assert(precedes(entries, order[k] as int, order[a] as int));
            }
            assert(a < k);
            assert(places[a] == j);
        }
    }
    assert(places.to_set() =~= ahead);
}

// ---------------------------------------------------------------- functions

/// The order in which the entries of a mix are served: those with the higher
/// ratio first, and those with the same ratio as they were named.
fn serving_order(entries: &Vec<(BotType, u32)>) -> (order: Vec<usize>)
    ensures
        order@.len() == entries@.len(),
        is_serving_order(entries@, order@),
{
    let mut order: Vec<usize> = Vec::new();
    let mut i: usize = 0;
    while i < entries.len()
        invariant
            i <= entries@.len(),
            order@.len() == i,
            is_serving_order(entries@, order@),
        decreases entries@.len() - i,
    {
        let ratio: u32 = entries[i].1;
        let mut p: usize = 0;
        while p < order.len() && entries[order[p]].1 >= ratio
            invariant
                i < entries@.len(),
                p <= order@.len(),
                order@.len() == i,
                is_serving_order(entries@, order@),
                ratio == entries@[i as int].1,
                forall|a: int| 0 <= a < p ==> entries@[(#[trigger] order@[a]) as int].1 >= ratio,
            decreases order@.len() - p,
        {
            p = p + 1;
        }
        let ghost before = order@;
        order.insert(p, i);
        proof {
            let after = order@;
            assert forall|a: int, b: int| 0 <= a < b < after.len() implies precedes(
                entries@,
                (#[trigger] after[a]) as int,
                (#[trigger] after[b]) as int,
            ) by {
                if a < p && b < p {
                    assert(after[a] == before[a] && after[b] == before[b]);
                } else if a < p && b == p {
                    assert(after[a] == before[a]);
                } else if a < p {
                    assert(after[a] == before[a] && after[b] == before[b - 1]);
                } else if a == p {
                    assert(after[b] == before[b - 1]);
                    if b - 1 > p {
                        assert(precedes(entries@, before[p as int] as int, before[b - 1] as int));
                    }
                } else {
                    assert(after[a] == before[a - 1] && after[b] == before[b - 1]);
                }
            }
            assert forall|j: int| 0 <= j < after.len() implies after.contains(
                #[trigger] (j as usize),
            ) by {
                if j == i {
                    assert(after[p as int] == j);
                } else {
                    assert(before.contains(j as usize));
                    let a = choose|a: int| 0 <= a < before.len() && before[a] == j as usize;
                    assert(after[if a < p { a } else { a + 1 }] == j as usize);
                }
            }
            assert forall|a: int| 0 <= a < after.len() implies 0 <= #[trigger] after[a]
                < after.len() by {
                if a < p {
                    assert(after[a] == before[a]);
                } else if a > p {
                    assert(after[a] == before[a - 1]);
                }
            }
        }
        i = i + 1;
    }
    order
}

/// Whether `allocate` can work with these numbers.
pub fn allocatable(total: usize, spec: &RatioSpec) -> (r: bool)
    ensures
        r == in_range(total as nat, spec.entries@),
{
    if spec.entries.len() == 0 {
        return true;
    }
    let mut sum: u32 = 0;
    let mut i: usize = 0;
    while i < spec.entries.len()
        invariant
            i <= spec.entries@.len(),
            spec.entries@.len() > 0,
            sum == ratio_sum(spec.entries@.take(i as int)),
            forall|k: int|
                0 <= k < i ==> (total as nat) * ((#[trigger] spec.entries@[k]).1 as nat)
                    <= u64::MAX,
        decreases spec.entries@.len() - i,
    {
        let ratio: u32 = spec.entries[i].1;
        proof {
            assert(spec.entries@.take(i + 1).drop_last() == spec.entries@.take(i as int));
            lemma_ratio_sum_monotone(spec.entries@, i + 1);
        }
        match (total as u64).checked_mul(ratio as u64) {
            Some(product) => {
                assert((total as nat) * (ratio as nat) == product);
            },
            None => {
                assert((total as nat) * (spec.entries@[i as int].1 as nat) > u64::MAX);
                return false;
            },
        }
        match sum.checked_add(ratio) {
            Some(next) => {
                sum = next;
            },
            None => {
                return false;
            },
        }
        i = i + 1;
    }
    assert(spec.entries@.take(spec.entries@.len() as int) == spec.entries@);
    sum > 0
}

/// Shares `total` bots out among the kinds of a mix. Every kind gets the whole
/// bots that its ratio comes to; those that are left go, one each, to the kinds
/// with the highest ratios, and among equals to the one that was named first.
pub fn allocate(total: usize, spec: &RatioSpec) -> (r: Vec<(BotType, usize)>)
    requires
        in_range(total as nat, spec.entries@),
    ensures
        r@.len() == spec.entries@.len(),
        forall|i: int|
            0 <= i < r@.len() ==> (#[trigger] r@[i]).0 == spec.entries@[i].0 && r@[i].1
                == allocated(total as nat, spec.entries@, i),
        spec.entries@.len() > 0 ==> bot_sum(r@) == total,
{
    let ghost entries = spec.entries@;
    if spec.entries.len() == 0 {
        return Vec::new();
    }
    let n: usize = spec.entries.len();
    let mut sum: u32 = 0;
    let mut i: usize = 0;
    while i < n
        invariant
            i <= n == entries.len(),
            entries == spec.entries@,
            sum == ratio_sum(entries.take(i as int)),
            ratio_sum(entries) <= u32::MAX,
        decreases n - i,
    {
        proof {
            assert(entries.take(i + 1).drop_last() == entries.take(i as int));
            lemma_ratio_sum_monotone(entries, i + 1);
        }
        sum = sum + spec.entries[i].1;
        i = i + 1;
    }
    assert(entries.take(n as int) == entries);
    proof {
        lemma_left_over(total as nat, entries);
    }

    let mut result: Vec<(BotType, usize)> = Vec::new();
    let mut whole: usize = 0;
    let mut i: usize = 0;
    while i < n
        invariant
            i <= n == entries.len(),
            entries == spec.entries@,
            sum == ratio_sum(entries) > 0,
            in_range(total as nat, entries),
            floor_sum(total as nat, entries, sum as nat) <= total,
            result@.len() == i,
            forall|k: int|
                0 <= k < i ==> (#[trigger] result@[k]).0 == entries[k].0 && result@[k].1
                    == floor_share(total as nat, entries[k].1, sum as nat),
            whole == floor_sum(total as nat, entries.take(i as int), sum as nat),
            bot_sum(result@) == whole,
        decreases n - i,
    {
        let (bot, ratio) = spec.entries[i];
        proof {
            lemma_floor_share_bound(total as nat, entries, i as int);
            assert((total as nat) * (entries[i as int].1 as nat) <= u64::MAX);
            assert(entries.take(i + 1).drop_last() == entries.take(i as int));
            lemma_floor_sum_monotone(total as nat, entries, sum as nat, i + 1);
        }
        let share: usize = (total as u64 * ratio as u64 / sum as u64) as usize;
        assert(share == floor_share(total as nat, ratio, sum as nat));
        let ghost before = result@;
        result.push((bot, share));
        assert(result@.drop_last() == before);
        whole = whole + share;
        i = i + 1;
    }

    let mut remainder: usize = total - whole;
    let order = serving_order(&spec.entries);
    let ghost floors = result@;
    let ghost extra = remainder;
    assert(extra == left_over(total as nat, entries));
    let mut idx: usize = 0;
    while remainder > 0
        invariant
            n == entries.len(),
            entries == spec.entries@,
            order@.len() == n,
            is_serving_order(entries, order@),
            idx + remainder == extra < n,
            result@.len() == n,
            floors.len() == n,
            forall|k: int|
                0 <= k < n ==> (#[trigger] floors[k]).0 == entries[k].0 && floors[k].1
                    == floor_share(total as nat, entries[k].1, sum as nat),
            forall|k: int| 0 <= k < n ==> (#[trigger] result@[k]).0 == floors[k].0,
            forall|a: int|
                0 <= a < n ==> result@[(#[trigger] order@[a]) as int].1 == floors[order@[a] as int].1
                    + if a < idx {
                    1int
                } else {
                    0int
                },
            bot_sum(result@) + remainder == total,
        decreases remainder,
    {
        let at: usize = order[idx];
        let (bot, count) = result[at];
        assert(count == floors[at as int].1);
        proof {
            lemma_bot_bound(result@, at as int);
        }
        let ghost before = result@;
        result.set(at, (bot, count + 1));
        proof {
            lemma_bot_sum_update(before, at as int, (count + 1) as usize);
            assert forall|a: int| 0 <= a < n implies result@[(#[trigger] order@[a]) as int].1
                == floors[order@[a] as int].1 + if a < idx + 1 {
                1int
            } else {
                0int
            } by {
                if a < idx {
                    assert(precedes(entries, order@[a] as int, order@[idx as int] as int));
                } else if a > idx {
                    assert(precedes(entries, order@[idx as int] as int, order@[a] as int));
                }
            }
        }
        remainder = remainder - 1;
        idx = idx + 1;
    }
    proof {
        assert forall|i: int| 0 <= i < result@.len() implies (#[trigger] result@[i]).0
            == entries[i].0 && result@[i].1 == allocated(total as nat, entries, i) by {
            assert(order@.contains(i as usize));
            let a = choose|a: int| 0 <= a < order@.len() && order@[a] == i as usize;
            lemma_place_in_order(entries, order@, a);
            assert(result@[order@[a] as int].1 == floors[i].1 + if a < idx { 1int } else { 0int });
        }
    }
    result
}

proof fn lemma_bot_bound(allocation: Seq<(BotType, usize)>, i: int)
    requires
        0 <= i < allocation.len(),
    ensures
        allocation[i].1 <= bot_sum(allocation),
    decreases allocation.len(),
{
    if i < allocation.len() - 1 {
        lemma_bot_bound(allocation.drop_last(), i);
    }
}

// --------------------------------------------------------------------- laws

/// An entry with another ahead of it has more entries ahead of it than that
/// other one.
proof fn lemma_ahead_grows(entries: Seq<(BotType, u32)>, j: int, i: int)
    requires
        0 <= j < entries.len(),
        0 <= i < entries.len(),
        precedes(entries, j, i),
    ensures
        ahead_of(entries, j).len() < ahead_of(entries, i).len(),
{
    let all = vstd::set_lib::set_int_range(0, entries.len() as int);
    vstd::set_lib::lemma_int_range(0, entries.len() as int);
    let ahead = ahead_of(entries, i);
    assert(ahead.subset_of(all));
    lemma_len_subset(ahead, all);
    assert(ahead.contains(j));
    assert(ahead_of(entries, j).subset_of(ahead.remove(j)));
    lemma_len_subset(ahead_of(entries, j), ahead.remove(j));
}

/// Every kind gets at least the whole bots that its ratio comes to, and at most
/// one more.
pub proof fn law_allocation_is_proportional(total: nat, entries: Seq<(BotType, u32)>, i: int)
    requires
        0 <= i < entries.len(),
        ratio_sum(entries) > 0,
    ensures
        ({
            let floor = total * (entries[i].1 as nat) / ratio_sum(entries);
            floor <= allocated(total, entries, i) <= floor + 1
        }),
{
}

/// A kind that gets a bot out of those that are left has at least the ratio of
/// any kind that gets none of them.
pub proof fn law_higher_ratios_are_served_first(
    total: nat,
    entries: Seq<(BotType, u32)>,
    got: int,
    not_got: int,
)
    requires
        0 <= got < entries.len(),
        0 <= not_got < entries.len(),
        gets_extra(total, entries, got),
        !gets_extra(total, entries, not_got),
    ensures
        entries[got].1 >= entries[not_got].1,
        entries[got].1 == entries[not_got].1 ==> got < not_got,
{
    if precedes(entries, not_got, got) {
        lemma_ahead_grows(entries, not_got, got);
    }
}

/// After the whole bots were shared out, fewer are left than there are kinds: one
/// round of extra bots is enough.
pub proof fn law_fewer_are_left_than_kinds(total: nat, entries: Seq<(BotType, u32)>)
    requires
        entries.len() > 0,
        ratio_sum(entries) > 0,
    ensures
        0 <= left_over(total, entries) < entries.len(),
{
    lemma_left_over(total, entries);
}

/// Where one kind gets a bot beyond its whole ones and another does not, the first
/// has the higher ratio, or the same and was named first.
pub proof fn law_extra_bots_go_to_the_higher_ratio(
    total: nat,
    entries: Seq<(BotType, u32)>,
    got: int,
    not_got: int,
)
    requires
        0 <= got < entries.len(),
        0 <= not_got < entries.len(),
        ratio_sum(entries) > 0,
        allocated(total, entries, got) > total * (entries[got].1 as nat) / ratio_sum(entries),
        allocated(total, entries, not_got) == total * (entries[not_got].1 as nat) / ratio_sum(
            entries,
        ),
    ensures
        entries[got].1 > entries[not_got].1 || (entries[got].1 == entries[not_got].1 && got
            < not_got),
{
    law_higher_ratios_are_served_first(total, entries, got, not_got);
}

/// Ratios are summed up entry by entry, and so are bots.
pub proof fn law_sums_are_sums(
    entries: Seq<(BotType, u32)>,
    entry: (BotType, u32),
    allocation: Seq<(BotType, usize)>,
    group: (BotType, usize),
)
    ensures
        ratio_sum(Seq::empty()) == 0,
        ratio_sum(entries.push(entry)) == ratio_sum(entries) + entry.1,
        bot_sum(Seq::empty()) == 0,
        bot_sum(allocation.push(group)) == bot_sum(allocation) + group.1,
{
    assert(entries.push(entry).drop_last() == entries);
    assert(allocation.push(group).drop_last() == allocation);
}

/// Ordinary runs are in range: where the ratios do not come to more than a `u32`
/// holds, and are not all zero, four billion bots can be shared out.
pub proof fn law_ordinary_runs_are_in_range(total: nat, entries: Seq<(BotType, u32)>)
    requires
        total <= u32::MAX,
        entries.len() == 0 || 0 < ratio_sum(entries) <= u32::MAX,
    ensures
        in_range(total, entries),
{
    assert forall|i: int| 0 <= i < entries.len() implies total * ((#[trigger] entries[i]).1 as nat)
        <= u64::MAX by {
        let r = entries[i].1 as nat;
        assert(total * r <= 0xffff_ffff * 0xffff_ffff) by (nonlinear_arith)
            requires
                total <= 0xffff_ffff,
                r <= 0xffff_ffff,
        ;
    }
}

} // verus!
