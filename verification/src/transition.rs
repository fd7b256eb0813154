use vstd::prelude::*;
use crate::record::Counter;
use crate::record::ErrorCode;
use crate::record::Principal;

verus! {

/// What `initialize` does to a store, stated over its map view. Creation
/// fails with `AlreadyExists` when a record is already stored under `tag`;
/// otherwise a fresh record is stored, owned by `requester`, with count zero
/// and the given derivation parameter.
pub open spec fn initialize_spec(
    m: Map<u64, Counter>,
    tag: u64,
    requester: Principal,
    bump: u8,
) -> (Map<u64, Counter>, Result<Counter, ErrorCode>) {
    if m.dom().contains(tag) {
        (m, Err(ErrorCode::AlreadyExists))
    } else {
        let c = Counter { authority: requester, count: 0, bump };
        (m.insert(tag, c), Ok(c))
    }
}

/// What `increment` does to a store. It fails with `NotFound` when no record
/// is stored under `tag`, with `Unauthorized` when the requester is not the
/// stored authority, and with `Overflow` at the largest representable count;
/// otherwise the count rises by exactly one and nothing else changes.
pub open spec fn increment_spec(
    m: Map<u64, Counter>,
    tag: u64,
    requester: Principal,
) -> (Map<u64, Counter>, Result<Counter, ErrorCode>) {
    if !m.dom().contains(tag) {
        (m, Err(ErrorCode::NotFound))
    } else if m[tag].authority != requester {
        (m, Err(ErrorCode::Unauthorized))
    } else if m[tag].count == u64::MAX {
        (m, Err(ErrorCode::Overflow))
    } else {
        let c = Counter {
            authority: m[tag].authority,
            count: (m[tag].count + 1) as u64,
            bump: m[tag].bump,
        };
        (m.insert(tag, c), Ok(c))
    }
}

/// What `decrement` does to a store. It fails with `NotFound` when no record
/// is stored under `tag`, with `Unauthorized` when the requester is not the
/// stored authority, and with `Underflow` at count zero; otherwise the count
/// falls by exactly one and nothing else changes.
pub open spec fn decrement_spec(
    m: Map<u64, Counter>,
    tag: u64,
    requester: Principal,
) -> (Map<u64, Counter>, Result<Counter, ErrorCode>) {
    if !m.dom().contains(tag) {
        (m, Err(ErrorCode::NotFound))
    } else if m[tag].authority != requester {
        (m, Err(ErrorCode::Unauthorized))
    } else if m[tag].count == 0 {
        (m, Err(ErrorCode::Underflow))
    } else {
        let c = Counter {
            authority: m[tag].authority,
            count: (m[tag].count - 1) as u64,
            bump: m[tag].bump,
        };
        (m.insert(tag, c), Ok(c))
    }
}

/// One mutation request: raise or lower a record's count by one.
#[derive(Clone, Copy, Debug, PartialEq, Eq, Structural)]
pub enum Op {
    Increment,
    Decrement,
}

/// What one mutation request does to a store.
pub open spec fn apply_op(
    m: Map<u64, Counter>,
    tag: u64,
    requester: Principal,
    op: Op,
) -> (Map<u64, Counter>, Result<Counter, ErrorCode>) {
    match op {
        Op::Increment => increment_spec(m, tag, requester),
        Op::Decrement => decrement_spec(m, tag, requester),
    }
}

/// The store after a sequence of mutation requests, applied in order, all
/// under one tag and one requester.
pub open spec fn apply_ops(
    m: Map<u64, Counter>,
    tag: u64,
    requester: Principal,
    ops: Seq<Op>,
) -> Map<u64, Counter>
    decreases ops.len(),
{
    if ops.len() == 0 {
        m
    } else {
        apply_op(apply_ops(m, tag, requester, ops.drop_last()), tag, requester, ops.last()).0
    }
}

/// Every request in the sequence succeeds when applied in order.
pub open spec fn all_succeed(
    m: Map<u64, Counter>,
    tag: u64,
    requester: Principal,
    ops: Seq<Op>,
) -> bool
    decreases ops.len(),
{
    ops.len() == 0 || {
        &&& all_succeed(m, tag, requester, ops.drop_last())
        &&& apply_op(
            apply_ops(m, tag, requester, ops.drop_last()),
            tag,
            requester,
            ops.last(),
        ).1 is Ok
    }
}

/// How many of the requests raise the count.
pub open spec fn increments_in(ops: Seq<Op>) -> int
    decreases ops.len(),
{
    if ops.len() == 0 {
        0
    } else {
        increments_in(ops.drop_last()) + if ops.last() is Increment {
            1int
        } else {
            0int
        }
    }
}

/// How many of the requests lower the count.
pub open spec fn decrements_in(ops: Seq<Op>) -> int
    decreases ops.len(),
{
    if ops.len() == 0 {
        0
    } else {
        decrements_in(ops.drop_last()) + if ops.last() is Decrement {
            1int
        } else {
            0int
        }
    }
}

} // verus!
