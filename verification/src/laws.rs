use vstd::prelude::*;
use crate::record::Counter;
use crate::record::ErrorCode;
use crate::record::Principal;
use crate::transition::all_succeed;
use crate::transition::apply_op;
use crate::transition::apply_ops;
use crate::transition::decrement_spec;
use crate::transition::decrements_in;
use crate::transition::increment_spec;
use crate::transition::increments_in;
use crate::transition::initialize_spec;
use crate::transition::Op;

verus! {

/// Only the creator may mutate: after a record is created by `r1`, a
/// mutation requested by any `r2 != r1` fails with `Unauthorized` and leaves
/// the store — in particular the record's count — unchanged.
pub proof fn lemma_other_requester_rejected(
    m: Map<u64, Counter>,
    tag: u64,
    r1: Principal,
    bump: u8,
    r2: Principal,
    op: Op,
)
    requires
        !m.dom().contains(tag),
        r2 != r1,
    ensures
        ({
            let m1 = initialize_spec(m, tag, r1, bump).0;
            apply_op(m1, tag, r2, op) == (m1, Err::<Counter, ErrorCode>(ErrorCode::Unauthorized))
        }),
{
}

/// Bookkeeping is exact: over any sequence of mutation requests that all
/// succeed, the final count equals the starting count plus the number of
/// increments minus the number of decrements, and the record's authority and
/// derivation parameter never change.
pub proof fn lemma_count_tracks_requests(
    m: Map<u64, Counter>,
    tag: u64,
    requester: Principal,
    ops: Seq<Op>,
)
    requires
        m.dom().contains(tag),
        all_succeed(m, tag, requester, ops),
    ensures
        apply_ops(m, tag, requester, ops).dom().contains(tag),
        apply_ops(m, tag, requester, ops)[tag].count == m[tag].count + increments_in(ops)
            - decrements_in(ops),
        apply_ops(m, tag, requester, ops)[tag].authority == m[tag].authority,
        apply_ops(m, tag, requester, ops)[tag].bump == m[tag].bump,
    decreases ops.len(),
{
    if ops.len() > 0 {
        lemma_count_tracks_requests(m, tag, requester, ops.drop_last());
    }
}

/// Starting from creation, over any sequence of mutation requests by the
/// creating requester that all succeed, the final count equals exactly the
/// number of increments minus the number of decrements.
pub proof fn lemma_count_after_creation(
    m: Map<u64, Counter>,
    tag: u64,
    requester: Principal,
    bump: u8,
    ops: Seq<Op>,
)
    requires
        !m.dom().contains(tag),
        all_succeed(initialize_spec(m, tag, requester, bump).0, tag, requester, ops),
    ensures
        apply_ops(initialize_spec(m, tag, requester, bump).0, tag, requester, ops)[tag].count
            == increments_in(ops) - decrements_in(ops),
{
    lemma_count_tracks_requests(initialize_spec(m, tag, requester, bump).0, tag, requester, ops);
}

/// A sequence whose requests all succeed has that property of each of its
/// prefixes as well.
pub proof fn lemma_all_succeed_prefix(
    m: Map<u64, Counter>,
    tag: u64,
    requester: Principal,
    ops: Seq<Op>,
    n: int,
)
    requires
        all_succeed(m, tag, requester, ops),
        0 <= n <= ops.len(),
    ensures
        all_succeed(m, tag, requester, ops.take(n)),
    decreases ops.len(),
{
    if n == ops.len() {
        assert(ops.take(n) =~= ops);
    } else {
        assert(ops.drop_last() =~= ops.take(ops.len() - 1));
        lemma_all_succeed_prefix(m, tag, requester, ops.drop_last(), n);
        assert(ops.drop_last().take(n) =~= ops.take(n));
    }
}

/// The running count never goes below zero: after every prefix of a sequence
/// of successful requests, the starting count plus the increments so far
/// minus the decrements so far is nonnegative — a decrement at count zero is
/// rejected, never applied.
pub proof fn lemma_intermediate_counts_nonnegative(
    m: Map<u64, Counter>,
    tag: u64,
    requester: Principal,
    ops: Seq<Op>,
    n: int,
)
    requires
        m.dom().contains(tag),
        all_succeed(m, tag, requester, ops),
        0 <= n <= ops.len(),
    ensures
        m[tag].count + increments_in(ops.take(n)) - decrements_in(ops.take(n)) >= 0,
{
    lemma_all_succeed_prefix(m, tag, requester, ops, n);
    lemma_count_tracks_requests(m, tag, requester, ops.take(n));
}

/// Creation is not idempotent: the first creation under a tag succeeds with a
/// record owned by its requester at count zero, and a second creation under
/// the same tag fails with `AlreadyExists`, the stored authority and count
/// keeping the values from the first.
pub proof fn lemma_initialize_not_idempotent(
    m: Map<u64, Counter>,
    tag: u64,
    r1: Principal,
    bump1: u8,
    r2: Principal,
    bump2: u8,
)
    requires
        !m.dom().contains(tag),
    ensures
        ({
            let first = initialize_spec(m, tag, r1, bump1);
            let second = initialize_spec(first.0, tag, r2, bump2);
            &&& first.1 == Ok::<Counter, ErrorCode>(
                Counter { authority: r1, count: 0, bump: bump1 },
            )
            &&& second.0 == first.0
            &&& second.1 == Err::<Counter, ErrorCode>(ErrorCode::AlreadyExists)
            &&& second.0[tag].authority == r1
            &&& second.0[tag].count == 0
        }),
{
}

/// A successful decrement followed by an increment by the same requester
/// always succeeds and restores the store — in particular the count — to
/// exactly what it was.
pub proof fn lemma_decrement_then_increment_restores(
    m: Map<u64, Counter>,
    tag: u64,
    requester: Principal,
)
    requires
        decrement_spec(m, tag, requester).1 is Ok,
    ensures
        increment_spec(decrement_spec(m, tag, requester).0, tag, requester).1 is Ok,
        increment_spec(decrement_spec(m, tag, requester).0, tag, requester).0 == m,
{
    let m1 = decrement_spec(m, tag, requester).0;
    assert(increment_spec(m1, tag, requester).0 =~= m);
}

/// A successful increment followed by a decrement by the same requester
/// always succeeds and restores the store — in particular the count — to
/// exactly what it was.
pub proof fn lemma_increment_then_decrement_restores(
    m: Map<u64, Counter>,
    tag: u64,
    requester: Principal,
)
    requires
        increment_spec(m, tag, requester).1 is Ok,
    ensures
        decrement_spec(increment_spec(m, tag, requester).0, tag, requester).1 is Ok,
        decrement_spec(increment_spec(m, tag, requester).0, tag, requester).0 == m,
{
    let m1 = increment_spec(m, tag, requester).0;
    assert(decrement_spec(m1, tag, requester).0 =~= m);
}

} // verus!
