use crate::delta::{DeltaKind, DeltaOp};
use crate::mvds::{lemma_predecessor_is_greatest, lemma_predecessor_none, predecessor};
use crate::types::{Incarnation, Location, TxnIndex};
use vstd::prelude::*;

verus! {

/// A staged delta: the update and the incarnation that staged it.
pub struct DeltaEntry {
    pub incarnation: Incarnation,
    pub op: DeltaOp,
}

/// The mathematical content of the delta layer.
pub type LayerView = Map<(Location, nat), DeltaEntry>;

/// What the deltas staged below a reader add up to.
#[derive(Clone, Copy, Debug, PartialEq, Eq, Structural)]
pub struct AggregateView {
    /// Sum of the magnitudes of the additions.
    pub added: u128,
    /// Sum of the magnitudes of the subtractions.
    pub subtracted: u128,
    /// The highest transaction below the reader that staged a delta.
    pub latest: Option<TxnIndex>,
}

/// What the entry at `(loc, j)` contributes to the sum of the deltas of
/// direction `kind`.
pub open spec fn contribution(m: LayerView, loc: Location, j: nat, kind: DeltaKind) -> nat {
    if m.contains_key((loc, j)) && m[(loc, j)].op.kind == kind {
        m[(loc, j)].op.magnitude as nat
    } else {
        0
    }
}

/// Sum of the magnitudes of the deltas of direction `kind` staged at `loc` by
/// transactions below `txi`.
pub open spec fn staged_total(m: LayerView, loc: Location, txi: nat, kind: DeltaKind) -> nat
    decreases txi,
{
    if txi == 0 {
        0
    } else {
        staged_total(m, loc, (txi - 1) as nat, kind) + contribution(m, loc, (txi - 1) as nat, kind)
    }
}

/// The composition of the deltas staged at `loc` below `txi`.
pub open spec fn spec_read_delta(m: LayerView, loc: Location, txi: nat) -> AggregateView {
    AggregateView {
        added: staged_total(m, loc, txi, DeltaKind::Add) as u128,
        subtracted: staged_total(m, loc, txi, DeltaKind::Sub) as u128,
        latest: match predecessor(m, loc, txi) {
            Some(j) => Some(j as usize),
            None => None,
        },
    }
}

proof fn lemma_total_insert(
    m: LayerView,
    loc: Location,
    txi: nat,
    kind: DeltaKind,
    key: (Location, nat),
    e: DeltaEntry,
)
    requires
        !m.contains_key(key),
    ensures
        staged_total(m.insert(key, e), loc, txi, kind) == staged_total(m, loc, txi, kind) + if key.0
            == loc && key.1 < txi && e.op.kind == kind {
            e.op.magnitude as nat
        } else {
            0
        },
    decreases txi,
{
    if txi > 0 {
        lemma_total_insert(m, loc, (txi - 1) as nat, kind, key, e);
    }
}

proof fn lemma_total_congruent(m1: LayerView, m2: LayerView, loc: Location, txi: nat, kind: DeltaKind)
    requires
        forall|k: nat|
            k < txi ==> (#[trigger] m1.contains_key((loc, k)) == m2.contains_key((loc, k)) && (
            m1.contains_key((loc, k)) ==> m1[(loc, k)] == m2[(loc, k)])),
    ensures
        staged_total(m1, loc, txi, kind) == staged_total(m2, loc, txi, kind),
    decreases txi,
{
    if txi > 0 {
        assert(m1.contains_key((loc, (txi - 1) as nat)) == m2.contains_key(
            (loc, (txi - 1) as nat),
        ));
        assert forall|k: nat| k < (txi - 1) as nat implies (#[trigger] m1.contains_key((loc, k))
            == m2.contains_key((loc, k)) && (m1.contains_key((loc, k)) ==> m1[(loc, k)] == m2[(
            loc,
            k,
        )])) by {}
        lemma_total_congruent(m1, m2, loc, (txi - 1) as nat, kind);
    }
}

proof fn lemma_total_empty(loc: Location, txi: nat, kind: DeltaKind)
    ensures
        staged_total(Map::<(Location, nat), DeltaEntry>::empty(), loc, txi, kind) == 0,
    decreases txi,
{
    if txi > 0 {
        lemma_total_empty(loc, (txi - 1) as nat, kind);
    }
}

/// No more than `txi` entries lie below `txi`, each of a magnitude below
/// `2^64`.
proof fn lemma_total_bound(m: LayerView, loc: Location, txi: nat, kind: DeltaKind)
    ensures
        staged_total(m, loc, txi, kind) <= txi * 0xffff_ffff_ffff_ffff,
    decreases txi,
{
    if txi > 0 {
        lemma_total_bound(m, loc, (txi - 1) as nat, kind);
    }
}

struct DeltaCell {
    loc: Location,
    txn_idx: TxnIndex,
    incarnation: Incarnation,
    op: DeltaOp,
}

impl DeltaCell {
    spec fn key(self) -> (Location, nat) {
        (self.loc, self.txn_idx as nat)
    }

    spec fn entry(self) -> DeltaEntry {
        DeltaEntry { incarnation: self.incarnation, op: self.op }
    }
}

/// The aggregator delta layer: the deltas that transactions have staged and
/// that no commit has resolved yet, one per location and transaction.
pub struct DeltaLayer {
    cells: Vec<DeltaCell>,
    model: Ghost<LayerView>,
}

impl View for DeltaLayer {
    type V = LayerView;

    closed spec fn view(&self) -> LayerView {
        self.model@
    }
}

impl DeltaLayer {
    /// The layer's invariant: the cells hold exactly the entries of the
    /// model, no pair twice.
    pub closed spec fn wf(&self) -> bool {
        &&& forall|i: int|
            0 <= i < self.cells@.len() ==> {
                let c = #[trigger] self.cells@[i];
                &&& self.model@.contains_key(c.key())
                &&& self.model@[c.key()] == c.entry()
            }
        &&& forall|i: int, j: int|
            0 <= i < self.cells@.len() && 0 <= j < self.cells@.len() && i != j ==> (
            #[trigger] self.cells@[i]).key() != (#[trigger] self.cells@[j]).key()
        &&& forall|k: (Location, nat)| #[trigger]
            self.model@.contains_key(k) ==> exists|i: int|
                0 <= i < self.cells@.len() && (#[trigger] self.cells@[i]).key() == k
    }

    /// An empty layer.
    pub fn new() -> (layer: Self)
        ensures
            layer.wf(),
            layer@ == Map::<(Location, nat), DeltaEntry>::empty(),
    {
        DeltaLayer { cells: Vec::new(), model: Ghost(Map::empty()) }
    }

    fn find(&self, loc: &Location, txi: TxnIndex) -> (r: Option<usize>)
        requires
            self.wf(),
        ensures
            match r {
                Some(i) => 0 <= i < self.cells@.len() && self.cells@[i as int].key() == (
                    *loc,
                    txi as nat,
                ) && self@.contains_key((*loc, txi as nat)),
                None => !self@.contains_key((*loc, txi as nat)),
            },
    {
        let mut i: usize = 0;
        while i < self.cells.len()
            invariant
                self.wf(),
                0 <= i <= self.cells@.len(),
                forall|j: int| 0 <= j < i ==> (#[trigger] self.cells@[j]).key() != (*loc, txi as nat),
            decreases self.cells@.len() - i,
        {
            if self.cells[i].loc == *loc && self.cells[i].txn_idx == txi {
                return Some(i);
            }
            i += 1;
        }
        None
    }

    /// Stages `op` for `(loc, txi)` at incarnation `inc`, in place of what
    /// that transaction had staged there before.
    pub fn record_delta(&mut self, loc: Location, txi: TxnIndex, inc: Incarnation, op: DeltaOp)
        requires
            old(self).wf(),
        ensures
            final(self).wf(),
            final(self)@ == old(self)@.insert(
                (loc, txi as nat),
                DeltaEntry { incarnation: inc, op },
            ),
    {
        let found = self.find(&loc, txi);
        let ghost key = (loc, txi as nat);
        let ghost before = *self;
        let cell = DeltaCell { loc, txn_idx: txi, incarnation: inc, op };
        match found {
            Some(i) => {
                self.cells[i] = cell;
                self.model = Ghost(self.model@.insert(key, cell.entry()));
                assert(self.wf()) by {
                    assert forall|k: (Location, nat)| #[trigger]
                        self.model@.contains_key(k) implies exists|j: int|
                        0 <= j < self.cells@.len() && (#[trigger] self.cells@[j]).key() == k by {
                        if k == key {
                            assert(self.cells@[i as int].key() == k);
                        } else {
                            let j = choose|j: int|
                                0 <= j < before.cells@.len() && (#[trigger] before.cells@[j]).key()
                                    == k;
                            assert(self.cells@[j].key() == k);
                        }
                    }
                    assert forall|a: int, b: int|
                        0 <= a < self.cells@.len() && 0 <= b < self.cells@.len() && a
                            != b implies (#[trigger] self.cells@[a]).key() != (
                    #[trigger] self.cells@[b]).key() by {
                        assert(before.cells@[a].key() != before.cells@[b].key());
                    }
                }
            },
            None => {
                self.cells.push(cell);
                self.model = Ghost(self.model@.insert(key, cell.entry()));
                let ghost n = before.cells@.len() as int;
                assert(self.wf()) by {
                    assert forall|k: (Location, nat)| #[trigger]
                        self.model@.contains_key(k) implies exists|j: int|
                        0 <= j < self.cells@.len() && (#[trigger] self.cells@[j]).key() == k by {
                        if k == key {
                            assert(self.cells@[n].key() == k);
                        } else {
                            let j = choose|j: int|
                                0 <= j < before.cells@.len() && (#[trigger] before.cells@[j]).key()
                                    == k;
                            assert(self.cells@[j].key() == k);
                        }
                    }
                    assert forall|a: int, b: int|
                        0 <= a < self.cells@.len() && 0 <= b < self.cells@.len() && a
                            != b implies (#[trigger] self.cells@[a]).key() != (
                    #[trigger] self.cells@[b]).key() by {
                        if a == n {
                            assert(before.model@.contains_key(before.cells@[b].key()));
                        } else if b == n {
                            assert(before.model@.contains_key(before.cells@[a].key()));
                        } else {
                            assert(before.cells@[a].key() != before.cells@[b].key());
                        }
                    }
                }
            },
        }
    }

    /// Takes the delta of `(loc, txi)` out of the layer, if there is one.
    pub fn remove_delta(&mut self, loc: Location, txi: TxnIndex) -> (removed: Option<DeltaOp>)
        requires
            old(self).wf(),
        ensures
            final(self).wf(),
            final(self)@ == old(self)@.remove((loc, txi as nat)),
            removed == if old(self)@.contains_key((loc, txi as nat)) {
                Some(old(self)@[(loc, txi as nat)].op)
            } else {
                None
            },
    {
        let found = self.find(&loc, txi);
        let ghost key = (loc, txi as nat);
        let ghost before = *self;
        match found {
            Some(i) => {
                let cell = self.cells.remove(i);
                self.model = Ghost(self.model@.remove(key));
                assert(self.wf()) by {
                    assert forall|j: int| 0 <= j < self.cells@.len() implies {
                        let c = #[trigger] self.cells@[j];
                        &&& self.model@.contains_key(c.key())
                        &&& self.model@[c.key()] == c.entry()
                    } by {
                        let j2 = if j >= i {
                            j + 1
                        } else {
                            j
                        };
                        assert(before.cells@[j2].key() != before.cells@[i as int].key());
                    }
                    assert forall|k: (Location, nat)| #[trigger]
                        self.model@.contains_key(k) implies exists|j: int|
                        0 <= j < self.cells@.len() && (#[trigger] self.cells@[j]).key() == k by {
                        let j = choose|j: int|
                            0 <= j < before.cells@.len() && (#[trigger] before.cells@[j]).key()
                                == k;
                        if j > i {
                            assert(self.cells@[j - 1].key() == k);
                        } else {
                            assert(self.cells@[j].key() == k);
                        }
                    }
                    assert forall|a: int, b: int|
                        0 <= a < self.cells@.len() && 0 <= b < self.cells@.len() && a
                            != b implies (#[trigger] self.cells@[a]).key() != (
                    #[trigger] self.cells@[b]).key() by {
                        let a2 = if a >= i {
                            a + 1
                        } else {
                            a
                        };
                        let b2 = if b >= i {
                            b + 1
                        } else {
                            b
                        };
                        assert(before.cells@[a2].key() != before.cells@[b2].key());
                    }
                }
                Some(cell.op)
            },
            None => {
                assert(self.model@.remove(key) =~= self.model@);
                None
            },
        }
    }

    /// The composition of the deltas staged at `loc` by transactions below
    /// `txi`.
    pub fn read_delta(&self, loc: Location, txi: TxnIndex) -> (agg: AggregateView)
        requires
            self.wf(),
        ensures
            agg == spec_read_delta(self@, loc, txi as nat),
    {
        let mut added: u128 = 0;
        let mut subtracted: u128 = 0;
        let mut latest: Option<TxnIndex> = None;
        let ghost mut seen: LayerView = Map::empty();
        let mut i: usize = 0;
        proof {
            lemma_total_empty(loc, txi as nat, DeltaKind::Add);
            lemma_total_empty(loc, txi as nat, DeltaKind::Sub);
        }
        while i < self.cells.len()
            invariant
                self.wf(),
                0 <= i <= self.cells@.len(),
                forall|k: (Location, nat)| #[trigger]
                    seen.contains_key(k) <==> exists|j: int|
                        0 <= j < i && (#[trigger] self.cells@[j]).key() == k,
                forall|k: (Location, nat)| #[trigger]
                    seen.contains_key(k) ==> self@.contains_key(k) && seen[k] == self@[k],
                added == staged_total(seen, loc, txi as nat, DeltaKind::Add),
                subtracted == staged_total(seen, loc, txi as nat, DeltaKind::Sub),
                match latest {
                    Some(b) => b < txi && seen.contains_key((loc, b as nat)),
                    None => true,
                },
                forall|k: nat|
                    k < txi && #[trigger] seen.contains_key((loc, k)) ==> latest.is_some() && k
                        <= latest.unwrap(),
            decreases self.cells@.len() - i,
        {
            let c = &self.cells[i];
            let ghost key = c.key();
            let ghost entry = c.entry();
            proof {
                assert(!seen.contains_key(key)) by {
                    if seen.contains_key(key) {
                        let j = choose|j: int| 0 <= j < i && (#[trigger] self.cells@[j]).key() == key;
                        assert(self.cells@[j].key() != self.cells@[i as int].key());
                    }
                }
                lemma_total_insert(seen, loc, txi as nat, DeltaKind::Add, key, entry);
                lemma_total_insert(seen, loc, txi as nat, DeltaKind::Sub, key, entry);
                lemma_total_bound(seen.insert(key, entry), loc, txi as nat, DeltaKind::Add);
                lemma_total_bound(seen.insert(key, entry), loc, txi as nat, DeltaKind::Sub);
                assert(txi * 0xffff_ffff_ffff_ffff <= 0xffff_ffff_ffff_ffff
                    * 0xffff_ffff_ffff_ffff) by (nonlinear_arith)
                    requires
                        txi <= 0xffff_ffff_ffff_ffff,
                ;
            }
            if c.loc == loc && c.txn_idx < txi {
                match c.op.kind {
                    DeltaKind::Add => {
                        added = added + c.op.magnitude as u128;
                    },
                    DeltaKind::Sub => {
                        subtracted = subtracted + c.op.magnitude as u128;
                    },
                }
                let higher = match latest {
                    Some(b) => b < c.txn_idx,
                    None => true,
                };
                if higher {
                    latest = Some(c.txn_idx);
                }
            }
            proof {
                let before = seen;
                seen = seen.insert(key, entry);
                assert forall|k: (Location, nat)| #[trigger]
                    seen.contains_key(k) <==> exists|j: int|
                        0 <= j < i + 1 && (#[trigger] self.cells@[j]).key() == k by {
                    if seen.contains_key(k) {
                        if k == key {
                            assert(self.cells@[i as int].key() == k);
                        } else {
                            let j = choose|j: int|
                                0 <= j < i && (#[trigger] self.cells@[j]).key() == k;
                            assert(self.cells@[j].key() == k);
                        }
                    }
                    if exists|j: int| 0 <= j < i + 1 && (#[trigger] self.cells@[j]).key() == k {
                        let j = choose|j: int|
                            0 <= j < i + 1 && (#[trigger] self.cells@[j]).key() == k;
                        if j < i {
                            assert(before.contains_key(k));
                        }
                    }
                }
            }
            i += 1;
        }
        proof {
            let m = self@;
            assert forall|k: nat| k < txi implies (#[trigger] seen.contains_key((loc, k))
                == m.contains_key((loc, k)) && (seen.contains_key((loc, k)) ==> seen[(loc, k)]
                == m[(loc, k)])) by {
                if m.contains_key((loc, k)) {
                    let j = choose|j: int|
                        0 <= j < self.cells@.len() && (#[trigger] self.cells@[j]).key() == (loc, k);
                    assert(seen.contains_key((loc, k)));
                }
            }
            lemma_total_congruent(seen, m, loc, txi as nat, DeltaKind::Add);
            lemma_total_congruent(seen, m, loc, txi as nat, DeltaKind::Sub);
            match latest {
                Some(b) => {
                    assert forall|k: nat| b < k < txi implies !m.contains_key((loc, k)) by {
                        if m.contains_key((loc, k)) {
                            assert(seen.contains_key((loc, k)));
                        }
                    }
                    lemma_predecessor_is_greatest(m, loc, txi as nat, b as nat);
                },
                None => {
                    assert forall|k: nat| k < txi implies !m.contains_key((loc, k)) by {
                        if m.contains_key((loc, k)) {
                            assert(seen.contains_key((loc, k)));
                        }
                    }
                    lemma_predecessor_none(m, loc, txi as nat);
                },
            }
        }
        AggregateView { added, subtracted, latest }
    }

    /// Resolves the delta that `txi` staged at `loc` against `base`, the
    /// committed value of the counter, and takes it out of the layer. Commit
    /// runs in index order, so the deltas of lower transactions are already
    /// part of `base`. The result is `None` where nothing is staged, and
    /// `Some(None)` where the delta leaves its bounds.
    pub fn materialize(&mut self, loc: Location, txi: TxnIndex, base: i128) -> (r: Option<
        Option<i128>,
    >)
        requires
            old(self).wf(),
        ensures
            final(self).wf(),
            final(self)@ == old(self)@.remove((loc, txi as nat)),
            r == spec_materialize(old(self)@, loc, txi as nat, base),
    {
        match self.remove_delta(loc, txi) {
            Some(op) => Some(op.apply(base)),
            None => None,
        }
    }
}

/// The value of the counter at `loc` once the delta of `txi` is applied to
/// `base`.
pub open spec fn spec_materialize(m: LayerView, loc: Location, txi: nat, base: i128) -> Option<
    Option<i128>,
> {
    if m.contains_key((loc, txi)) {
        Some(m[(loc, txi)].op.spec_apply(base))
    } else {
        None
    }
}

} // verus!
