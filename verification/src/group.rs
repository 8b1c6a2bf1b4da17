//! How the output streams of one execution are split among parallel requests.
//!
//! The `b` bucket streams are cut into contiguous groups, one per request, in the order of the
//! requests' indices. The last request absorbs whatever a whole division leaves over.

use vstd::arithmetic::div_mod::lemma_fundamental_div_mod;
use vstd::prelude::*;

verus! {

/// The number of requests that share the streams; a count of zero is read as one.
pub open spec fn sharers(count: nat) -> nat {
    if count == 0 {
        1
    } else {
        count
    }
}

/// The number of buckets of every group but the last one.
pub open spec fn group_width(b: nat, count: nat) -> nat {
    if b < sharers(count) {
        1
    } else {
        b / sharers(count)
    }
}

/// The first bucket of group `index`.
pub open spec fn group_lo(b: nat, index: nat, count: nat) -> nat {
    if index * group_width(b, count) <= b {
        index * group_width(b, count)
    } else {
        b
    }
}

/// One past the last bucket of group `index`.
pub open spec fn group_hi(b: nat, index: nat, count: nat) -> nat {
    if index + 1 >= sharers(count) {
        b
    } else {
        group_lo(b, index + 1, count)
    }
}

/// Bucket `k` belongs to group `index`.
pub open spec fn owns(b: nat, index: nat, count: nat, k: nat) -> bool {
    group_lo(b, index, count) <= k < group_hi(b, index, count)
}

/// The positions that `group_range` computes with fit a machine word. Every index below the
/// number of sharers does; see `law_requested_groups_fit`.
pub open spec fn group_fits(b: nat, index: nat, count: nat) -> bool {
    &&& index + 1 <= usize::MAX
    &&& index * group_width(b, count) <= usize::MAX
}

/// The contiguous slice of the `b` bucket streams that request `doget_index` of `doget_count`
/// owns, as a half-open range.
pub fn group_range(b: usize, doget_index: usize, doget_count: usize) -> (r: (usize, usize))
    requires
        group_fits(b as nat, doget_index as nat, doget_count as nat),
    ensures
        r.0 == group_lo(b as nat, doget_index as nat, doget_count as nat),
        r.1 == group_hi(b as nat, doget_index as nat, doget_count as nat),
        doget_index == 0 ==> r.0 == 0,
        doget_index + 1 >= doget_count ==> r.1 == b,
        r.0 <= r.1 <= b,
{
    let count: usize = if doget_count > 1 { doget_count } else { 1 };
    let m: usize = if b / count > 1 { b / count } else { 1 };
    proof {
        lemma_width(b as nat, doget_count as nat);
    }
    let reach: usize = doget_index * m;
    assert(doget_index == 0 ==> reach == 0) by (nonlinear_arith)
        requires
            reach == doget_index * m,
    ;
    let lo: usize = if reach < b { reach } else { b };
    let hi: usize = if doget_index + 1 >= count {
        b
    } else {
        proof {
            lemma_inner_groups_end_inside(b as nat, doget_index as nat + 1, doget_count as nat);
            lemma_steps_grow(doget_index as nat, doget_index as nat + 1, m as nat);
        }
        let end: usize = (doget_index + 1) * m;
        if end < b { end } else { b }
    };
    (lo, hi)
}

/// Whether `group_range` may be asked for this group.
pub fn group_range_fits(b: usize, doget_index: usize, doget_count: usize) -> (r: bool)
    ensures
        r == group_fits(b as nat, doget_index as nat, doget_count as nat),
{
    let count: usize = if doget_count > 1 { doget_count } else { 1 };
    let m: usize = if b / count > 1 { b / count } else { 1 };
    proof {
        lemma_width(b as nat, doget_count as nat);
    }
    doget_index < usize::MAX && doget_index.checked_mul(m).is_some()
}

/// The width is the whole division, but never less than one bucket.
proof fn lemma_width(b: nat, count: nat)
    ensures
        group_width(b, count) == (if b / sharers(count) > 1 { b / sharers(count) } else { 1 }),
        group_width(b, count) >= 1,
        b >= sharers(count) ==> sharers(count) * group_width(b, count) <= b,
{
    let c = sharers(count);
    if b < c {
        assert(b / c == 0) by (nonlinear_arith)
            requires
                b < c,
        ;
    } else {
        assert(b / c >= 1) by (nonlinear_arith)
            requires
                b >= c,
                c >= 1,
        ;
        lemma_fundamental_div_mod(b as int, c as int);
    }
}

/// More steps of the same width reach at least as far.
proof fn lemma_steps_grow(i: nat, j: nat, m: nat)
    requires
        i <= j,
    ensures
        i * m <= j * m,
{
    assert(i * m <= j * m) by (nonlinear_arith)
        requires
            i <= j,
    ;
}

/// Up to the number of sharers, the group boundaries stay within the buckets or, where there are
/// fewer buckets than sharers, within the number of sharers.
proof fn lemma_inner_groups_end_inside(b: nat, index: nat, count: nat)
    requires
        index <= sharers(count),
    ensures
        b >= sharers(count) ==> index * group_width(b, count) <= b,
        b < sharers(count) ==> index * group_width(b, count) == index,
{
    lemma_width(b, count);
    lemma_steps_grow(index, sharers(count), group_width(b, count));
}

/// The request that owns bucket `k`: the groups are `group_width` wide, and the last request takes
/// everything from its own start on.
pub open spec fn owner(b: nat, count: nat, k: nat) -> nat {
    if k / group_width(b, count) < sharers(count) {
        k / group_width(b, count)
    } else {
        (sharers(count) - 1) as nat
    }
}

/// Law: whatever the machine-sized bucket count, every request that the leader can number asks for
/// a group that `group_range` can compute.
pub proof fn law_requested_groups_fit(b: nat, index: nat, count: nat)
    requires
        b <= usize::MAX,
        count <= usize::MAX,
        index < sharers(count),
    ensures
        group_fits(b, index, count),
{
    lemma_inner_groups_end_inside(b, index, count);
}

/// Law: every group, also one that no request of the fan-out is numbered for, lies within the
/// buckets.
pub proof fn law_groups_lie_within_the_buckets(b: nat, index: nat, count: nat)
    ensures
        group_lo(b, index, count) <= group_hi(b, index, count) <= b,
{
    lemma_steps_grow(index, index + 1, group_width(b, count));
}

/// Law: the groups cut `[0, b)` into consecutive ranges. The first starts at zero, each ends where
/// the next one starts, and the last ends at `b`, so no bucket is left out between two groups.
pub proof fn law_groups_are_consecutive(b: nat, index: nat, count: nat)
    requires
        index < sharers(count),
    ensures
        group_lo(b, 0, count) == 0,
        group_lo(b, index, count) <= group_hi(b, index, count) <= b,
        index + 1 < sharers(count) ==> group_hi(b, index, count) == group_lo(b, index + 1, count),
        index + 1 == sharers(count) ==> group_hi(b, index, count) == b,
{
    lemma_steps_grow(index, index + 1, group_width(b, count));
}

/// Law: every bucket belongs to exactly one request. Of all requests, the owner of the bucket has
/// it in its group, and no other has.
pub proof fn law_every_bucket_has_one_owner(b: nat, count: nat, k: nat)
    requires
        k < b,
    ensures
        owner(b, count, k) < sharers(count),
        forall|index: nat|
            index < sharers(count) ==> (#[trigger] owns(b, index, count, k) <==> index == owner(
                b,
                count,
                k,
            )),
{
    let w = group_width(b, count);
    let c = sharers(count);
    let o = owner(b, count, k);
    lemma_width(b, count);
    lemma_fundamental_div_mod(k as int, w as int);
    let q = k / w;
    assert(q * w <= k < (q + 1) * w) by (nonlinear_arith)
        requires
            k == w * q + k % w,
            0 <= k % w < w,
    ;
    assert forall|index: nat| index < c implies (#[trigger] owns(b, index, count, k) <==> index
        == o) by {
        if index < o {
            lemma_steps_grow(index + 1, q, w);
        } else if index > o {
            lemma_steps_grow(q + 1, index, w);
        } else {
            lemma_steps_grow(index, q, w);
            if index + 1 < c {
                assert(index == q);
            }
        }
    }
}

/// Law: where there is a bucket for every request, all groups are equally wide, but for the last
/// one, which has the remainder of the division on top.
pub proof fn law_last_group_absorbs_the_remainder(b: nat, index: nat, count: nat)
    requires
        index < sharers(count),
        sharers(count) <= b,
    ensures
        group_hi(b, index, count) - group_lo(b, index, count) == b / sharers(count) + (if index + 1
            == sharers(count) {
            b % sharers(count)
        } else {
            0
        }),
{
    let w = group_width(b, count);
    let c = sharers(count);
    lemma_width(b, count);
    lemma_inner_groups_end_inside(b, index, count);
    lemma_inner_groups_end_inside(b, index + 1, count);
    lemma_fundamental_div_mod(b as int, c as int);
    assert((index + 1) * w == index * w + w) by (nonlinear_arith);
    if index + 1 == c {
        assert(c * w == w * c) by (nonlinear_arith);
        assert(c * (b / c) == (index + 1) * w);
    }
}

/// Law: a request comes away empty-handed by design exactly where there are fewer buckets than
/// requests and its index is past the last bucket.
pub proof fn law_empty_groups(b: nat, index: nat, count: nat)
    requires
        index < sharers(count),
    ensures
        group_lo(b, index, count) == group_hi(b, index, count) <==> b < sharers(count) && b
            <= index,
{
    let w = group_width(b, count);
    let c = sharers(count);
    lemma_width(b, count);
    lemma_inner_groups_end_inside(b, index, count);
    lemma_inner_groups_end_inside(b, index + 1, count);
    assert((index + 1) * w == index * w + w) by (nonlinear_arith);
}

/// The quotient of two numbers, found by how often the divisor fits.
proof fn lemma_quotient(b: nat, c: nat, m: nat)
    requires
        c >= 1,
        m * c <= b < (m + 1) * c,
    ensures
        b / c == m,
{
    lemma_fundamental_div_mod(b as int, c as int);
    let q = b / c;
    assert(q == m) by (nonlinear_arith)
        requires
            b == c * q + b % c,
            0 <= b % c < c,
            m * c <= b < (m + 1) * c,
    ;
}

/// Law: the ranges of a fan-out partition the buckets. Over the requests `0 .. count`, as many as
/// the leader says there are, the first range starts at zero, each starts where the one before
/// ends, and the last ends with the last bucket.
pub proof fn law_ranges_partition_the_buckets(b: usize, count: usize, ranges: Seq<(usize, usize)>)
    requires
        count >= 1,
        ranges.len() == count,
        forall|i: int|
            0 <= i < count ==> call_ensures(
                group_range,
                (b, i as usize, count),
                #[trigger] ranges[i],
            ),
    ensures
        ranges[0].0 == 0,
        ranges[count - 1].1 == b,
        forall|i: int| 0 <= i < count ==> (#[trigger] ranges[i]).0 <= ranges[i].1,
        forall|i: int, j: int|
            0 <= i && j == i + 1 && j < count ==> (#[trigger] ranges[i]).1 == (
            #[trigger] ranges[j]).0,
{
    assert forall|i: int, j: int| 0 <= i && j == i + 1 && j < count implies (
    #[trigger] ranges[i]).1 == (#[trigger] ranges[j]).0 by {
        law_groups_are_consecutive(b as nat, i as nat, count as nat);
    }
    law_groups_are_consecutive(b as nat, 0, count as nat);
    law_groups_are_consecutive(b as nat, (count - 1) as nat, count as nat);
}

/// Law: every bucket is in the range of exactly one of the requests `0 .. count`.
pub proof fn law_one_range_has_the_bucket(
    b: usize,
    count: usize,
    ranges: Seq<(usize, usize)>,
    k: usize,
)
    requires
        count >= 1,
        k < b,
        ranges.len() == count,
        forall|i: int|
            0 <= i < count ==> call_ensures(
                group_range,
                (b, i as usize, count),
                #[trigger] ranges[i],
            ),
    ensures
        exists|i: int| 0 <= i < count && (#[trigger] ranges[i]).0 <= k < ranges[i].1,
        forall|i: int, j: int|
            0 <= i < count && 0 <= j < count && (#[trigger] ranges[i]).0 <= k < ranges[i].1 && (
            #[trigger] ranges[j]).0 <= k < ranges[j].1 ==> i == j,
{
    law_every_bucket_has_one_owner(b as nat, count as nat, k as nat);
    let o = owner(b as nat, count as nat, k as nat) as int;
    assert(owns(b as nat, o as nat, count as nat, k as nat));
    assert(ranges[o].0 <= k < ranges[o].1);
    assert forall|i: int|
        0 <= i < count && (#[trigger] ranges[i]).0 <= k < ranges[i].1 implies i == o by {
        assert(owns(b as nat, i as nat, count as nat, k as nat));
    }
}

/// Law: the buckets are shared out evenly. Where every request can have `m` buckets and not every
/// one can have one more, each has `m`, but for the last one, which has all from its start on. An
/// index past the requests reaches to the end as well.
pub proof fn law_ranges_are_even(
    b: usize,
    index: usize,
    count: usize,
    m: nat,
    r: (usize, usize),
)
    requires
        call_ensures(group_range, (b, index, count), r),
        1 <= count <= b,
        m * count <= b < (m + 1) * count,
    ensures
        index < count ==> r.0 == index * m,
        index + 1 < count ==> r.1 == r.0 + m,
        index + 1 >= count ==> r.1 == b,
        index >= count ==> r.0 == (if index * m < b { index * m } else { b as int }),
{
    let c = count as nat;
    lemma_quotient(b as nat, c, m);
    lemma_inner_groups_end_inside(b as nat, if index < count { index as nat } else { 0 }, c);
    if index < count {
        lemma_inner_groups_end_inside(b as nat, index as nat + 1, c);
    }
    assert((index + 1) * m == index * m + m) by (nonlinear_arith);
}

/// Law: with fewer buckets than requests, request `i` has bucket `i`, and the requests past the last
/// bucket have none.
pub proof fn law_scarce_buckets_go_one_each(
    b: usize,
    index: usize,
    count: usize,
    r: (usize, usize),
)
    requires
        call_ensures(group_range, (b, index, count), r),
        b < count,
    ensures
        index < b ==> r.0 == index && r.1 == index + 1,
        index >= b ==> r.0 == b && r.1 == b,
{
    assert(index * 1 == index && (index + 1) * 1 == index + 1) by (nonlinear_arith);
}

/// Law: a fan-out of no requests is one of a single request, which has every bucket.
pub proof fn law_unsplit_job_has_every_bucket(
    b: usize,
    index: usize,
    count: usize,
    r: (usize, usize),
)
    requires
        call_ensures(group_range, (b, index, count), r),
        count <= 1,
    ensures
        r.0 == (if index == 0 { 0 } else { b as int }),
        r.1 == b,
{
    lemma_fundamental_div_mod(b as int, 1);
    if index > 0 {
        lemma_steps_grow(1, index as nat, group_width(b as nat, count as nat));
    }
}

/// Law: a group can be computed for every request of a fan-out, and for any other index whose
/// start, counted in groups of `m` buckets, fits a machine word.
pub proof fn law_computable_groups(b: usize, index: usize, count: usize, m: nat, fits: bool)
    requires
        call_ensures(group_range_fits, (b, index, count), fits),
        1 <= count <= b,
        m * count <= b < (m + 1) * count,
    ensures
        index < count ==> fits,
        fits <==> index + 1 <= usize::MAX && index * m <= usize::MAX,
        fits ==> call_requires(group_range, (b, index, count)),
{
    lemma_quotient(b as nat, count as nat, m);
    if index < count {
        law_requested_groups_fit(b as nat, index as nat, count as nat);
    }
}

/// Law: with fewer buckets than requests, or without a split, every index but the very last number
/// has a group; the start of a single group is a multiple of all buckets.
pub proof fn law_computable_groups_of_scarce_buckets(
    b: usize,
    index: usize,
    count: usize,
    fits: bool,
)
    requires
        call_ensures(group_range_fits, (b, index, count), fits),
        b < count || count == 0,
    ensures
        b < count || b == 0 ==> (fits <==> index < usize::MAX),
        count == 0 && b > 0 ==> (fits <==> index < usize::MAX && index * b <= usize::MAX),
        fits ==> call_requires(group_range, (b, index, count)),
{
    assert(index * 1 == index) by (nonlinear_arith);
    if count == 0 {
        lemma_fundamental_div_mod(b as int, 1);
    }
}

} // verus!
