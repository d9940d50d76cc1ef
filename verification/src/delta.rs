use vstd::bytes::{
    spec_u128_from_le_bytes, spec_u128_to_le_bytes, u128_from_le_bytes, u128_to_le_bytes,
};
use vstd::prelude::*;

verus! {

/// Direction of a delta.
#[derive(Clone, Copy, Debug, PartialEq, Eq, Structural)]
pub enum DeltaKind {
    Add,
    Sub,
}

/// A bounded additive update of a counter. Applying it moves the counter
/// by `magnitude` in the direction of `kind`, and fails when the new value
/// would leave `[lower_bound, upper_bound]`.
#[derive(Clone, Copy, Debug, PartialEq, Eq, Structural)]
pub struct DeltaOp {
    pub kind: DeltaKind,
    pub magnitude: u64,
    pub upper_bound: i128,
    pub lower_bound: i128,
}

impl DeltaOp {
    /// The signed amount by which the delta moves a counter.
    pub open spec fn signed(self) -> int {
        match self.kind {
            DeltaKind::Add => self.magnitude as int,
            DeltaKind::Sub => -(self.magnitude as int),
        }
    }

    /// The counter after the delta, or `None` where it leaves the bounds.
    pub open spec fn spec_apply(self, base: i128) -> Option<i128> {
        let v = base + self.signed();
        if self.lower_bound <= v <= self.upper_bound {
            Some(v as i128)
        } else {
            None
        }
    }

    /// Builds the delta `+magnitude` within `[lower_bound, upper_bound]`.
    pub fn plus(magnitude: u64, lower_bound: i128, upper_bound: i128) -> (op: Self)
        ensures
            op == (DeltaOp { kind: DeltaKind::Add, magnitude, upper_bound, lower_bound }),
    {
        DeltaOp { kind: DeltaKind::Add, magnitude, upper_bound, lower_bound }
    }

    /// Builds the delta `-magnitude` within `[lower_bound, upper_bound]`.
    pub fn minus(magnitude: u64, lower_bound: i128, upper_bound: i128) -> (op: Self)
        ensures
            op == (DeltaOp { kind: DeltaKind::Sub, magnitude, upper_bound, lower_bound }),
    {
        DeltaOp { kind: DeltaKind::Sub, magnitude, upper_bound, lower_bound }
    }

    /// Applies the delta to `base`.
    pub fn apply(&self, base: i128) -> (r: Option<i128>)
        ensures
            r == self.spec_apply(base),
    {
        let m: i128 = self.magnitude as i128;
        let moved = match self.kind {
            DeltaKind::Add => base.checked_add(m),
            DeltaKind::Sub => base.checked_sub(m),
        };
        match moved {
            Some(v) => {
                if self.lower_bound <= v && v <= self.upper_bound {
                    Some(v)
                } else {
                    None
                }
            },
            None => None,
        }
    }
}

/// Applies the deltas of `ops` to `base` from first to last; `None` as soon as
/// one of them leaves its bounds.
pub open spec fn apply_all(base: i128, ops: Seq<DeltaOp>) -> Option<i128>
    decreases ops.len(),
{
    if ops.len() == 0 {
        Some(base)
    } else {
        match apply_all(base, ops.drop_last()) {
            Some(v) => ops.last().spec_apply(v),
            None => None,
        }
    }
}

/// The sum of the signed amounts of `ops`.
pub open spec fn net_change(ops: Seq<DeltaOp>) -> int
    decreases ops.len(),
{
    if ops.len() == 0 {
        0
    } else {
        net_change(ops.drop_last()) + ops.last().signed()
    }
}

/// Where every prefix stays within bounds, the result is the base plus the
/// net change.
pub proof fn lemma_apply_all_is_sum(base: i128, ops: Seq<DeltaOp>)
    requires
        apply_all(base, ops).is_some(),
    ensures
        apply_all(base, ops).unwrap() == base + net_change(ops),
    decreases ops.len(),
{
    if ops.len() > 0 {
        lemma_apply_all_is_sum(base, ops.drop_last());
    }
}

/// The net change of a sequence is that of the sequence without its element
/// at `i`, plus that element's amount.
pub proof fn lemma_net_change_remove(ops: Seq<DeltaOp>, i: int)
    requires
        0 <= i < ops.len(),
    ensures
        net_change(ops) == net_change(ops.remove(i)) + ops[i].signed(),
    decreases ops.len(),
{
    if i == ops.len() - 1 {
        assert(ops.remove(i) =~= ops.drop_last());
    } else {
        lemma_net_change_remove(ops.drop_last(), i);
        assert(ops.remove(i).drop_last() =~= ops.drop_last().remove(i));
        assert(ops.remove(i).last() == ops.last());
    }
}

/// Two sequences with the same deltas in any order have the same net change.
pub proof fn lemma_net_change_permutation(a: Seq<DeltaOp>, b: Seq<DeltaOp>)
    requires
        a.to_multiset() == b.to_multiset(),
    ensures
        net_change(a) == net_change(b),
    decreases a.len(),
{
    broadcast use vstd::seq_lib::group_to_multiset_ensures;

    a.to_multiset_ensures();
    b.to_multiset_ensures();
    assert(a.len() == b.len());
    if a.len() > 0 {
        let x = a.last();
        assert(a.to_multiset().count(x) > 0) by {
            assert(a.contains(x));
        }
        assert(b.to_multiset().count(x) > 0);
        assert(b.contains(x));
        let i = choose|i: int| 0 <= i < b.len() && b[i] == x;
        lemma_net_change_remove(b, i);
        assert(a.drop_last() =~= a.remove(a.len() - 1));
        assert(a.remove(a.len() - 1).to_multiset() =~= a.to_multiset().remove(x));
        assert(b.remove(i).to_multiset() =~= b.to_multiset().remove(x));
        lemma_net_change_permutation(a.drop_last(), b.remove(i));
    }
}

/// Delta commutativity: two orders of the same deltas, each of which keeps
/// every prefix within bounds, end at the same counter value.
pub proof fn lemma_delta_commutativity(base: i128, a: Seq<DeltaOp>, b: Seq<DeltaOp>)
    requires
        a.to_multiset() == b.to_multiset(),
        apply_all(base, a).is_some(),
        apply_all(base, b).is_some(),
    ensures
        apply_all(base, a) == apply_all(base, b),
{
    lemma_apply_all_is_sum(base, a);
    lemma_apply_all_is_sum(base, b);
    lemma_net_change_permutation(a, b);
}

/// The sixteen bytes that hold a counter: its two's complement, low byte
/// first.
pub open spec fn spec_encode_counter(v: i128) -> Seq<u8> {
    spec_u128_to_le_bytes(v as u128)
}

/// The counter that a stored value holds: `None` unless the value is there
/// and sixteen bytes long.
pub open spec fn spec_decode_counter(stored: Option<Seq<u8>>) -> Option<i128> {
    match stored {
        Some(bytes) => if bytes.len() == 16 {
            Some(spec_u128_from_le_bytes(bytes) as i128)
        } else {
            None
        },
        None => None,
    }
}

/// Encodes a counter for storage.
pub fn encode_counter(v: i128) -> (bytes: Vec<u8>)
    ensures
        bytes@ == spec_encode_counter(v),
        bytes@.len() == 16,
{
    u128_to_le_bytes(v as u128)
}

/// Decodes a stored counter.
pub fn decode_counter(stored: &Option<Vec<u8>>) -> (r: Option<i128>)
    ensures
        r == spec_decode_counter(crate::types::opt_view(*stored)),
{
    match stored {
        Some(bytes) => {
            if bytes.len() == 16 {
                Some(u128_from_le_bytes(bytes.as_slice()) as i128)
            } else {
                None
            }
        },
        None => None,
    }
}

/// A counter survives being stored and read back.
pub proof fn lemma_counter_round_trip(v: i128)
    ensures
        spec_decode_counter(Some(spec_encode_counter(v))) == Some(v),
{
    vstd::bytes::lemma_auto_spec_u128_to_from_le_bytes();
    let u = v as u128;
    assert(spec_u128_to_le_bytes(u).len() == 16);
    assert(spec_u128_from_le_bytes(spec_u128_to_le_bytes(u)) == u);
    assert(u as i128 == v) by (bit_vector)
        requires
            u == v as u128,
    ;
}

} // verus!
