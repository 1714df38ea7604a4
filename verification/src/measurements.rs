//! How evenly a connector's conductors share their load.
use vstd::prelude::*;

verus! {

/// The sum of some currents.
pub open spec fn total(currents: Seq<i64>) -> int
    decreases currents.len(),
{
    if currents.len() == 0 {
        0
    } else {
        total(currents.drop_last()) + currents.last()
    }
}

/// The greatest of some currents.
pub open spec fn greatest(currents: Seq<i64>) -> int
    decreases currents.len(),
{
    if currents.len() <= 1 {
        currents[0] as int
    } else if currents.last() > greatest(currents.drop_last()) {
        currents.last() as int
    } else {
        greatest(currents.drop_last())
    }
}

/// The least of some currents.
pub open spec fn least(currents: Seq<i64>) -> int
    decreases currents.len(),
{
    if currents.len() <= 1 {
        currents[0] as int
    } else if currents.last() < least(currents.drop_last()) {
        currents.last() as int
    } else {
        least(currents.drop_last())
    }
}

/// Six times the distance of a current from the mean of six that add up to `sum`.
pub open spec fn distance(current: i64, sum: int) -> int {
    let d = current * 6 - sum;
    if d < 0 {
        -d
    } else {
        d
    }
}

/// The greatest distance from the mean among some currents.
pub open spec fn farthest(currents: Seq<i64>, sum: int) -> int
    decreases currents.len(),
{
    if currents.len() <= 1 {
        distance(currents[0], sum)
    } else if distance(currents.last(), sum) > farthest(currents.drop_last(), sum) {
        distance(currents.last(), sum)
    } else {
        farthest(currents.drop_last(), sum)
    }
}

/// The spread between the conductors: nothing where no load is observed.
pub open spec fn spread(currents: Seq<i64>) -> int {
    if total(currents) <= 0 {
        0
    } else {
        greatest(currents) - least(currents)
    }
}

/// The greatest deviation from the mean in percent of it, kept in thirty-two bits.
pub open spec fn deviation(currents: Seq<i64>) -> int {
    if total(currents) <= 0 {
        0
    } else {
        farthest(currents, total(currents)) * 100 / total(currents) % 0x1_0000_0000
    }
}

/// Nothing on the way to the spread and the deviation leaves sixty-four bits.
pub open spec fn measurable(currents: Seq<i64>) -> bool {
    &&& forall|n: int|
        0 <= n <= currents.len() ==> i64::MIN <= #[trigger] total(currents.take(n)) <= i64::MAX
    &&& total(currents) > 0 ==> {
        &&& greatest(currents) - least(currents) <= i64::MAX
        &&& farthest(currents, total(currents)) * 100 <= i64::MAX
        &&& forall|i: int|
            0 <= i < currents.len() ==> i64::MIN <= (#[trigger] currents[i]) * 6 <= i64::MAX
    }
}

/// The farthest distance bounds the distance of every prefix.
proof fn farthest_grows(currents: Seq<i64>, sum: int, n: int)
    requires
        1 <= n <= currents.len(),
    ensures
        0 <= farthest(currents.take(n), sum) <= farthest(currents, sum),
    decreases currents.len(),
{
    if n == currents.len() {
        assert(currents.take(n) =~= currents);
        if n > 1 {
            farthest_grows(currents.drop_last(), sum, n - 1);
        }
    } else {
        farthest_grows(currents.drop_last(), sum, n);
        assert(currents.drop_last().take(n) =~= currents.take(n));
    }
}

/// The load of the six conductors together.
pub fn load(currents: &[i64; 6]) -> (sum: i64)
    requires
        measurable(currents@),
    ensures
        sum == total(currents@),
{
    let ghost all = currents@;
    let mut sum: i64 = 0;
    let mut i: usize = 0;
    assert(all.take(0) =~= Seq::<i64>::empty());
    while i < 6
        invariant
            i <= 6,
            all == currents@,
            all.len() == 6,
            measurable(all),
            sum == total(all.take(i as int)),
        decreases 6 - i,
    {
        assert(all.take(i + 1).drop_last() =~= all.take(i as int));
        assert(i64::MIN <= total(all.take(i + 1)) <= i64::MAX);
        sum = sum + currents[i];
        i = i + 1;
    }
    assert(all.take(6) =~= all);
    sum
}

/// The spread of the six conductors and their greatest deviation from the mean in percent.
pub fn imbalance(currents: &[i64; 6]) -> (r: (i64, u32))
    requires
        measurable(currents@),
    ensures
        r.0 == spread(currents@),
        r.1 == deviation(currents@),
{
    let ghost all = currents@;
    let sum: i64 = load(currents);
    if sum <= 0 {
        return (0, 0);
    }
    let mut high: i64 = currents[0];
    let mut low: i64 = currents[0];
    proof {
        farthest_grows(all, sum as int, 1);
        assert(all.take(1)[0] == all[0]);
        assert(i64::MIN <= all[0] * 6 <= i64::MAX);
    }
    let first: i128 = currents[0] as i128 * 6 - sum as i128;
    let mut far: i64 = if first < 0 { (-first) as i64 } else { first as i64 };
    let mut k: usize = 1;
    while k < 6
        invariant
            1 <= k <= 6,
            all == currents@,
            all.len() == 6,
            measurable(all),
            sum == total(all),
            sum > 0,
            high == greatest(all.take(k as int)),
            low == least(all.take(k as int)),
            far == farthest(all.take(k as int), sum as int),
        decreases 6 - k,
    {
        assert(all.take(k + 1).drop_last() =~= all.take(k as int));
        assert(all.take(k + 1).last() == all[k as int]);
        proof {
            farthest_grows(all, sum as int, k + 1);
            assert(i64::MIN <= all[k as int] * 6 <= i64::MAX);
        }
        let c: i64 = currents[k];
        if c > high {
            high = c;
        }
        if c < low {
            low = c;
        }
        let off: i128 = c as i128 * 6 - sum as i128;
        let size: i128 = if off < 0 { -off } else { off };
        if size > far as i128 {
            far = size as i64;
        }
        k = k + 1;
    }
    assert(all.take(6) =~= all);
    let percent: i64 = far * 100 / sum;
    (high - low, (percent % 0x1_0000_0000) as u32)
}

/// Whether the imbalance of these currents can be computed in sixty-four bits.
pub fn is_measurable(currents: &[i64; 6]) -> (r: bool)
    ensures
        r == measurable(currents@),
{
    let ghost all = currents@;
    let low_limit: i128 = i64::MIN as i128;
    let high_limit: i128 = i64::MAX as i128;
    let mut sum: i128 = 0;
    let mut i: usize = 0;
    assert(all.take(0) =~= Seq::<i64>::empty());
    while i < 6
        invariant
            i <= 6,
            all == currents@,
            all.len() == 6,
            low_limit == i64::MIN,
            high_limit == i64::MAX,
            sum == total(all.take(i as int)),
            forall|n: int|
                0 <= n <= i ==> i64::MIN <= #[trigger] total(all.take(n)) <= i64::MAX,
        decreases 6 - i,
    {
        assert(all.take(i + 1).drop_last() =~= all.take(i as int));
        assert(i64::MIN <= total(all.take(i as int)) <= i64::MAX);
        sum = sum + currents[i] as i128;
        i = i + 1;
        assert(sum == total(all.take(i as int)));
        if sum < low_limit || sum > high_limit {
            return false;
        }
    }
    assert(all.take(6) =~= all);
    if sum <= 0 {
        return true;
    }
    let mut high: i128 = currents[0] as i128;
    let mut low: i128 = currents[0] as i128;
    let first: i128 = currents[0] as i128 * 6 - sum;
    let mut far: i128 = if first < 0 { -first } else { first };
    let mut k: usize = 1;
    assert(all.take(1)[0] == all[0]);
    if currents[0] as i128 * 6 < low_limit || currents[0] as i128 * 6 > high_limit {
        assert(!(i64::MIN <= all[0] * 6 <= i64::MAX));
        return false;
    }
    while k < 6
        invariant
            1 <= k <= 6,
            all == currents@,
            all.len() == 6,
            low_limit == i64::MIN,
            high_limit == i64::MAX,
            sum == total(all),
            0 < sum <= high_limit,
            low_limit <= high <= high_limit,
            low_limit <= low <= high_limit,
            0 <= far <= 8 * 0x8000_0000_0000_0000,
            high == greatest(all.take(k as int)),
            low == least(all.take(k as int)),
            far == farthest(all.take(k as int), sum as int),
            forall|j: int| 0 <= j < k ==> i64::MIN <= (#[trigger] all[j]) * 6 <= i64::MAX,
        decreases 6 - k,
    {
        assert(all.take(k + 1).drop_last() =~= all.take(k as int));
        assert(all.take(k + 1).last() == all[k as int]);
        let c: i128 = currents[k] as i128;
        if c * 6 < low_limit || c * 6 > high_limit {
            assert(!(i64::MIN <= all[k as int] * 6 <= i64::MAX));
            return false;
        }
        if c > high {
            high = c;
        }
        if c < low {
            low = c;
        }
        let off: i128 = c * 6 - sum;
        let size: i128 = if off < 0 { -off } else { off };
        if size > far {
            far = size;
        }
        k = k + 1;
    }
    high - low <= high_limit && far * 100 <= high_limit
}

/// Currents that a supply can report are always measurable.
pub proof fn reported_currents_are_measurable(currents: Seq<i64>)
    requires
        currents.len() == 6,
        forall|i: int| 0 <= i < 6 ==> 0 <= #[trigger] currents[i] <= 50_000,
    ensures
        measurable(currents),
        0 <= total(currents) <= 300_000,
        0 <= spread(currents) <= 50_000,
{
    assert forall|n: int| 0 <= n <= 6 implies 0 <= #[trigger] total(currents.take(n)) <= n
        * 50_000 by {
        total_is_bounded(currents, n);
    }
    assert(currents.take(6) =~= currents);
    extremes_are_bounded(currents, 6);
    farthest_is_bounded(currents, total(currents), 6);
}

/// A prefix of bounded currents adds up to at most its length times the bound.
proof fn total_is_bounded(currents: Seq<i64>, n: int)
    requires
        0 <= n <= currents.len(),
        forall|i: int| 0 <= i < currents.len() ==> 0 <= #[trigger] currents[i] <= 50_000,
    ensures
        0 <= total(currents.take(n)) <= n * 50_000,
    decreases n,
{
    if n > 0 {
        total_is_bounded(currents, n - 1);
        assert(currents.take(n).drop_last() =~= currents.take(n - 1));
    }
}

/// The extremes of bounded currents are bounded.
proof fn extremes_are_bounded(currents: Seq<i64>, n: int)
    requires
        1 <= n <= currents.len(),
        forall|i: int| 0 <= i < currents.len() ==> 0 <= #[trigger] currents[i] <= 50_000,
    ensures
        0 <= least(currents.take(n)) <= greatest(currents.take(n)) <= 50_000,
    decreases n,
{
    if n > 1 {
        extremes_are_bounded(currents, n - 1);
        assert(currents.take(n).drop_last() =~= currents.take(n - 1));
    }
    assert(currents.take(n).last() == currents[n - 1]);
}

/// The distances of bounded currents from a bounded mean are bounded.
proof fn farthest_is_bounded(currents: Seq<i64>, sum: int, n: int)
    requires
        1 <= n <= currents.len(),
        0 <= sum <= 300_000,
        forall|i: int| 0 <= i < currents.len() ==> 0 <= #[trigger] currents[i] <= 50_000,
    ensures
        0 <= farthest(currents.take(n), sum) <= 300_000,
    decreases n,
{
    if n > 1 {
        farthest_is_bounded(currents, sum, n - 1);
        assert(currents.take(n).drop_last() =~= currents.take(n - 1));
    }
    assert(currents.take(n).last() == currents[n - 1]);
}

/// A connector without load has no imbalance.
pub proof fn no_load_is_balanced(currents: Seq<i64>)
    requires
        total(currents) <= 0,
    ensures
        spread(currents) == 0,
        deviation(currents) == 0,
{
}

/// A sum may begin with any of its currents.
proof fn total_without(currents: Seq<i64>, i: int)
    requires
        0 <= i < currents.len(),
    ensures
        total(currents) == total(currents.remove(i)) + currents[i],
    decreases currents.len(),
{
    let rest = currents.remove(i);
    if i == currents.len() - 1 {
        assert(rest =~= currents.drop_last());
    } else {
        total_without(currents.drop_last(), i);
        assert(rest.drop_last() =~= currents.drop_last().remove(i));
        assert(rest.last() == currents.last());
    }
}

/// The order of currents does not change their sum.
proof fn total_of_reordered(one: Seq<i64>, other: Seq<i64>)
    requires
        one.to_multiset() == other.to_multiset(),
    ensures
        total(one) == total(other),
    decreases one.len(),
{
    broadcast use vstd::seq_lib::group_to_multiset_ensures;

    assert(one.len() == one.to_multiset().len() && other.len() == other.to_multiset().len());
    if one.len() > 0 {
        let last = other.last();
        assert(other[other.len() - 1] == last);
        assert(other.contains(last));
        assert(one.to_multiset().count(last) > 0);
        assert(one.contains(last));
        let i = choose|i: int| 0 <= i < one.len() && one[i] == last;
        assert(other.drop_last() =~= other.remove(other.len() - 1));
        total_without(one, i);
        total_of_reordered(one.remove(i), other.drop_last());
    }
}

/// The greatest, the least and the farthest of some currents are among them, and bound them all.
proof fn extremes_bound(currents: Seq<i64>, sum: int)
    requires
        currents.len() > 0,
    ensures
        exists|i: int| 0 <= i < currents.len() && #[trigger] currents[i] == greatest(currents),
        exists|i: int| 0 <= i < currents.len() && #[trigger] currents[i] == least(currents),
        exists|i: int|
            0 <= i < currents.len() && distance(#[trigger] currents[i], sum) == farthest(
                currents,
                sum,
            ),
        forall|i: int|
            0 <= i < currents.len() ==> {
                &&& least(currents) <= (#[trigger] currents[i]) <= greatest(currents)
                &&& distance(currents[i], sum) <= farthest(currents, sum)
            },
    decreases currents.len(),
{
    if currents.len() > 1 {
        let rest = currents.drop_last();
        extremes_bound(rest, sum);
        let a = choose|i: int| 0 <= i < rest.len() && #[trigger] rest[i] == greatest(rest);
        let b = choose|i: int| 0 <= i < rest.len() && #[trigger] rest[i] == least(rest);
        let c = choose|i: int|
            0 <= i < rest.len() && distance(#[trigger] rest[i], sum) == farthest(rest, sum);
        let last = currents.len() - 1;
        assert(currents[a] == rest[a] && currents[b] == rest[b] && currents[c] == rest[c]);
        assert(currents[last] == currents.last());
        assert forall|i: int| 0 <= i < currents.len() implies {
            &&& least(currents) <= (#[trigger] currents[i]) <= greatest(currents)
            &&& distance(currents[i], sum) <= farthest(currents, sum)
        } by {
            if i < last {
                assert(currents[i] == rest[i]);
            }
        }
    } else {
        assert(currents[0] == greatest(currents));
    }
}

/// Currents that are all among others have no greater extremes.
proof fn extremes_within(some: Seq<i64>, all: Seq<i64>, sum: int)
    requires
        some.len() > 0,
        all.len() > 0,
        forall|i: int| 0 <= i < some.len() ==> all.contains(#[trigger] some[i]),
    ensures
        greatest(some) <= greatest(all),
        least(some) >= least(all),
        farthest(some, sum) <= farthest(all, sum),
{
    extremes_bound(some, sum);
    extremes_bound(all, sum);
    let a = choose|i: int| 0 <= i < some.len() && #[trigger] some[i] == greatest(some);
    let b = choose|i: int| 0 <= i < some.len() && #[trigger] some[i] == least(some);
    let c = choose|i: int|
        0 <= i < some.len() && distance(#[trigger] some[i], sum) == farthest(some, sum);
    assert(all.contains(some[a]) && all.contains(some[b]) && all.contains(some[c]));
    let x = choose|i: int| 0 <= i < all.len() && all[i] == some[a];
    let y = choose|i: int| 0 <= i < all.len() && all[i] == some[b];
    let z = choose|i: int| 0 <= i < all.len() && all[i] == some[c];
    assert(all[x] <= greatest(all) && all[y] >= least(all));
    assert(distance(all[z], sum) <= farthest(all, sum));
}

/// The order of the conductors does not matter to the imbalance.
pub proof fn order_does_not_matter(one: Seq<i64>, other: Seq<i64>)
    requires
        one.len() > 0,
        one.to_multiset() == other.to_multiset(),
    ensures
        total(one) == total(other),
        spread(one) == spread(other),
        deviation(one) == deviation(other),
{
    broadcast use vstd::seq_lib::group_to_multiset_ensures;

    assert(one.len() == one.to_multiset().len() && other.len() == other.to_multiset().len());
    total_of_reordered(one, other);
    assert forall|i: int| 0 <= i < one.len() implies other.contains(#[trigger] one[i]) by {
        assert(one.contains(one[i]));
        assert(other.to_multiset().count(one[i]) > 0);
    }
    assert forall|i: int| 0 <= i < other.len() implies one.contains(#[trigger] other[i]) by {
        assert(other.contains(other[i]));
        assert(one.to_multiset().count(other[i]) > 0);
    }
    extremes_within(one, other, total(one));
    extremes_within(other, one, total(one));
}

/// Currents that are each `k` times as high.
pub open spec fn scaled(currents: Seq<i64>, k: int) -> Seq<i64> {
    Seq::new(currents.len(), |i: int| (k * currents[i]) as i64)
}

/// All sums and extremes grow with the currents.
proof fn extremes_scale(currents: Seq<i64>, k: int, sum: int)
    requires
        currents.len() > 0,
        k >= 1,
        forall|i: int|
            0 <= i < currents.len() ==> i64::MIN <= k * (#[trigger] currents[i]) <= i64::MAX,
    ensures
        total(scaled(currents, k)) == k * total(currents),
        greatest(scaled(currents, k)) == k * greatest(currents),
        least(scaled(currents, k)) == k * least(currents),
        farthest(scaled(currents, k), k * sum) == k * farthest(currents, sum),
    decreases currents.len(),
{
    let all = scaled(currents, k);
    let last = currents.last();
    assert(all.last() == k * currents[currents.len() - 1]);
    let d = last * 6 - sum;
    assert((k * last) * 6 - k * sum == k * d) by (nonlinear_arith)
        requires
            d == last * 6 - sum,
    ;
    assert(k * d >= 0 <==> d >= 0) by (nonlinear_arith)
        requires
            k >= 1,
    ;
    assert(-(k * d) == k * (-d)) by (nonlinear_arith);
    assert(distance(all.last(), k * sum) == k * distance(last, sum));
    if currents.len() > 1 {
        let rest = currents.drop_last();
        assert(all.drop_last() =~= scaled(rest, k));
        assert forall|i: int| 0 <= i < rest.len() implies i64::MIN <= k * (#[trigger] rest[i])
            <= i64::MAX by {
            assert(rest[i] == currents[i]);
        }
        extremes_scale(rest, k, sum);
        scaling_keeps_order(k, last as int, greatest(rest));
        scaling_keeps_order(k, least(rest), last as int);
        scaling_keeps_order(k, distance(last, sum), farthest(rest, sum));
        assert(k * (total(rest) + last) == k * total(rest) + k * last) by (nonlinear_arith);
    } else {
        assert(all.drop_last() =~= Seq::<i64>::empty());
        assert(currents.drop_last() =~= Seq::<i64>::empty());
        assert(total(all.drop_last()) == 0 && total(currents.drop_last()) == 0);
    }
}

/// Scaling keeps the order of two numbers.
proof fn scaling_keeps_order(k: int, a: int, b: int)
    requires
        k >= 1,
    ensures
        k * a > k * b <==> a > b,
{
    assert(k * a > k * b <==> a > b) by (nonlinear_arith)
        requires
            k >= 1,
    ;
}

/// Currents that are each `k` times as high have `k` times the spread and the same deviation: the
/// percentage does not depend on the level of the load.
pub proof fn deviation_does_not_depend_on_the_level(currents: Seq<i64>, k: int)
    requires
        currents.len() > 0,
        k >= 1,
        forall|i: int|
            0 <= i < currents.len() ==> i64::MIN <= k * (#[trigger] currents[i]) <= i64::MAX,
    ensures
        total(scaled(currents, k)) == k * total(currents),
        spread(scaled(currents, k)) == k * spread(currents),
        deviation(scaled(currents, k)) == deviation(currents),
{
    let sum = total(currents);
    extremes_scale(currents, k, sum);
    scaling_keeps_order(k, sum, 0);
    let high = greatest(currents);
    let low = least(currents);
    assert(k * (high - low) == k * high - k * low) by (nonlinear_arith);
    if sum > 0 {
        let far = farthest(currents, sum);
        farthest_grows(currents, sum, currents.len() as int);
        assert(currents.take(currents.len() as int) =~= currents);
        vstd::arithmetic::div_mod::lemma_div_multiples_vanish_quotient(k, far * 100, sum);
        assert(k * (far * 100) == (k * far) * 100) by (nonlinear_arith);
    }
}

/// The load of a connector is the sum of its six currents.
pub proof fn total_is_the_sum(currents: Seq<i64>)
    requires
        currents.len() == 6,
    ensures
        total(currents) == currents[0] + currents[1] + currents[2] + currents[3] + currents[4]
            + currents[5],
{
    let five = currents.drop_last();
    let four = five.drop_last();
    let three = four.drop_last();
    let two = three.drop_last();
    let one = two.drop_last();
    reveal_with_fuel(total, 7);
    assert(total(one.drop_last()) == 0);
    assert(total(one) == currents[0]);
    assert(total(two) == total(one) + currents[1]);
    assert(total(three) == total(two) + currents[2]);
    assert(total(four) == total(three) + currents[3]);
    assert(total(five) == total(four) + currents[4]);
}

/// The load of a connector is what its six conductors carry together. Where there is a load, the
/// spread is the greatest difference between two conductors.
pub proof fn spread_is_the_greatest_difference(currents: Seq<i64>)
    requires
        currents.len() == 6,
    ensures
        ({
            let load = currents[0] + currents[1] + currents[2] + currents[3] + currents[4]
                + currents[5];
            &&& total(currents) == load
            &&& load <= 0 ==> spread(currents) == 0 && deviation(currents) == 0
            &&& load > 0 ==> {
                &&& forall|i: int, j: int|
                    0 <= i < 6 && 0 <= j < 6 ==> (#[trigger] currents[i]) - (
                    #[trigger] currents[j]) <= spread(currents)
                &&& exists|i: int, j: int|
                    0 <= i < 6 && 0 <= j < 6 && (#[trigger] currents[i]) - (
                    #[trigger] currents[j]) == spread(currents)
            }
        }),
{
    total_is_the_sum(currents);
    extremes_bound(currents, total(currents));
    let a = choose|i: int| 0 <= i < currents.len() && #[trigger] currents[i] == greatest(currents);
    let b = choose|i: int| 0 <= i < currents.len() && #[trigger] currents[i] == least(currents);
    if total(currents) > 0 {
        assert(currents[a] - currents[b] == spread(currents));
    }
}

/// The deviation is that of the conductor that is farthest from the mean, above it or below it, in
/// whole percent of the mean: where `percent` is that number, it is what is measured.
///
/// A number beyond 32 bits is kept in its low 32 bits.
pub proof fn deviation_is_that_of_the_farthest(currents: Seq<i64>, percent: int, far: int)
    requires
        currents.len() == 6,
        0 <= far < 6,
        ({
            let load = currents[0] + currents[1] + currents[2] + currents[3] + currents[4]
                + currents[5];
            let gap = if 6 * currents[far] >= load {
                6 * currents[far] - load
            } else {
                load - 6 * currents[far]
            };
            &&& load > 0
            &&& percent * load <= 100 * gap < (percent + 1) * load
            &&& forall|i: int|
                0 <= i < 6 ==> {
                    &&& 6 * (#[trigger] currents[i]) - load <= gap
                    &&& load - 6 * currents[i] <= gap
                }
        }),
    ensures
        deviation(currents) == percent % 0x1_0000_0000,
        0 <= percent < 0x1_0000_0000 ==> deviation(currents) == percent,
{
    let load = total(currents);
    total_is_the_sum(currents);
    extremes_bound(currents, load);
    let c = choose|i: int|
        0 <= i < currents.len() && distance(#[trigger] currents[i], load) == farthest(
            currents,
            load,
        );
    let most = farthest(currents, load);
    assert(distance(currents[far], load) <= most);
    assert(6 * currents[c] - load <= most);
    vstd::arithmetic::div_mod::lemma_fundamental_div_mod(most * 100, load);
    vstd::arithmetic::div_mod::lemma_mod_bound(most * 100, load);
    let q = most * 100 / load;
    assert(q == percent) by (nonlinear_arith)
        requires
            load > 0,
            most * 100 == load * q + most * 100 % load,
            0 <= most * 100 % load < load,
            percent * load <= 100 * most < (percent + 1) * load,
    ;
}

/// What the deviation is compared with, without a division: a limit in percent is reached if and only
/// if some conductor differs from the mean by that much, above it or below it.
pub proof fn deviation_reaches_a_limit(currents: Seq<i64>, percent: int)
    requires
        currents.len() == 6,
        percent >= 0,
        ({
            let load = currents[0] + currents[1] + currents[2] + currents[3] + currents[4]
                + currents[5];
            &&& load > 0
            &&& forall|i: int|
                0 <= i < 6 ==> {
                    &&& 100 * (6 * (#[trigger] currents[i]) - load) < 0x1_0000_0000 * load
                    &&& 100 * (load - 6 * currents[i]) < 0x1_0000_0000 * load
                }
        }),
    ensures
        ({
            let load = currents[0] + currents[1] + currents[2] + currents[3] + currents[4]
                + currents[5];
            deviation(currents) >= percent <==> exists|i: int|
                0 <= i < 6 && (100 * (6 * (#[trigger] currents[i]) - load) >= percent * load || 100
                    * (load - 6 * currents[i]) >= percent * load)
        }),
{
    let load = total(currents);
    total_is_the_sum(currents);
    extremes_bound(currents, load);
    let most = farthest(currents, load);
    let c = choose|i: int|
        0 <= i < currents.len() && distance(#[trigger] currents[i], load) == most;
    assert(100 * (6 * currents[c] - load) < 0x1_0000_0000 * load);
    vstd::arithmetic::div_mod::lemma_fundamental_div_mod(most * 100, load);
    vstd::arithmetic::div_mod::lemma_mod_bound(most * 100, load);
    let q = most * 100 / load;
    assert(most >= 0);
    assert(0 <= q < 0x1_0000_0000) by (nonlinear_arith)
        requires
            load > 0,
            most >= 0,
            most * 100 == load * q + most * 100 % load,
            0 <= most * 100 % load < load,
            100 * most < 0x1_0000_0000 * load,
    ;
    assert(q >= percent <==> 100 * most >= percent * load) by (nonlinear_arith)
        requires
            load > 0,
            most * 100 == load * q + most * 100 % load,
            0 <= most * 100 % load < load,
    ;
    if deviation(currents) >= percent {
        assert(100 * (6 * currents[c] - load) >= percent * load || 100 * (load - 6 * currents[c])
            >= percent * load);
    }
    if exists|i: int|
        0 <= i < 6 && (100 * (6 * (#[trigger] currents[i]) - load) >= percent * load || 100 * (load
            - 6 * currents[i]) >= percent * load) {
        let i = choose|i: int|
            0 <= i < 6 && (100 * (6 * (#[trigger] currents[i]) - load) >= percent * load || 100 * (
            load - 6 * currents[i]) >= percent * load);
        assert(distance(currents[i], load) <= most);
    }
}

/// Currents of up to a trillion amperes in either direction can be measured.
pub proof fn ordinary_currents_are_measurable(currents: Seq<i64>)
    requires
        currents.len() == 6,
        forall|i: int|
            0 <= i < 6 ==> -1_000_000_000_000_000 <= #[trigger] currents[i]
                <= 1_000_000_000_000_000,
    ensures
        measurable(currents),
{
    assert forall|n: int| 0 <= n <= currents.len() implies i64::MIN <= #[trigger] total(
        currents.take(n),
    ) <= i64::MAX by {
        totals_stay_small(currents, n);
    }
    assert(currents.take(6) =~= currents);
    totals_stay_small(currents, 6);
    extremes_bound(currents, total(currents));
}

/// The sum of a few small currents is small.
proof fn totals_stay_small(currents: Seq<i64>, n: int)
    requires
        0 <= n <= currents.len(),
        forall|i: int|
            0 <= i < currents.len() ==> -1_000_000_000_000_000 <= #[trigger] currents[i]
                <= 1_000_000_000_000_000,
    ensures
        -n * 1_000_000_000_000_000 <= total(currents.take(n)) <= n * 1_000_000_000_000_000,
    decreases n,
{
    if n > 0 {
        totals_stay_small(currents, n - 1);
        assert(currents.take(n).drop_last() =~= currents.take(n - 1));
        assert(currents.take(n).last() == currents[n - 1]);
    }
}

} // verus!
