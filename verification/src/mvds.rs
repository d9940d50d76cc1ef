use crate::types::{clone_opt_bytes, opt_view, Incarnation, Location, TxnIndex, Version, SHARD_COUNT};
use vstd::prelude::*;

verus! {

/// What the store holds for one `(location, transaction)` pair: the value
/// written (`None` is a tombstone), the incarnation that wrote it, and whether
/// the writer has since been aborted.
pub struct EntryView {
    pub value: Option<Seq<u8>>,
    pub incarnation: Incarnation,
    pub estimate: bool,
}

/// The mathematical content of the store.
pub type StoreView = Map<(Location, nat), EntryView>;

/// Answer to a versioned read.
#[derive(Debug)]
pub enum ReadResult {
    /// The entry of the nearest writer below the reader, with its version.
    Value(Option<Vec<u8>>, Version),
    /// The nearest writer below the reader was aborted.
    Dependency(TxnIndex),
    /// No transaction below the reader wrote the location.
    Storage,
}

/// The answer to a versioned read as a mathematical value.
pub enum ReadResultView {
    Value(Option<Seq<u8>>, Version),
    Dependency(TxnIndex),
    Storage,
}

impl View for ReadResult {
    type V = ReadResultView;

    open spec fn view(&self) -> ReadResultView {
        match *self {
            ReadResult::Value(v, ver) => ReadResultView::Value(opt_view(v), ver),
            ReadResult::Dependency(t) => ReadResultView::Dependency(t),
            ReadResult::Storage => ReadResultView::Storage,
        }
    }
}

/// The largest transaction index below `txi` that has an entry at `loc`.
pub open spec fn predecessor<T>(m: Map<(Location, nat), T>, loc: Location, txi: nat) -> Option<nat>
    decreases txi,
{
    if txi == 0 {
        None
    } else if m.contains_key((loc, (txi - 1) as nat)) {
        Some((txi - 1) as nat)
    } else {
        predecessor(m, loc, (txi - 1) as nat)
    }
}

/// The read rule: the reader at `txi` sees the entry of the highest writer
/// strictly below it, as a dependency when that entry is an estimate, and
/// storage when there is none. Incarnations play no part.
pub open spec fn spec_read(m: StoreView, loc: Location, txi: nat) -> ReadResultView {
    match predecessor(m, loc, txi) {
        None => ReadResultView::Storage,
        Some(j) => {
            let e = m[(loc, j)];
            if e.estimate {
                ReadResultView::Dependency(j as usize)
            } else {
                ReadResultView::Value(
                    e.value,
                    Version { txn_idx: j as usize, incarnation: e.incarnation },
                )
            }
        },
    }
}

/// `predecessor` returns `Some(j)` exactly for the greatest key below `txi`.
pub proof fn lemma_predecessor_is_greatest<T>(
    m: Map<(Location, nat), T>,
    loc: Location,
    txi: nat,
    j: nat,
)
    requires
        j < txi,
        m.contains_key((loc, j)),
        forall|k: nat| j < k < txi ==> !m.contains_key((loc, k)),
    ensures
        predecessor(m, loc, txi) == Some(j),
    decreases txi,
{
    if j + 1 < txi {
        assert(!m.contains_key((loc, (txi - 1) as nat)));
        lemma_predecessor_is_greatest(m, loc, (txi - 1) as nat, j);
    }
}

/// `predecessor` returns `None` exactly when no key lies below `txi`.
pub proof fn lemma_predecessor_none<T>(m: Map<(Location, nat), T>, loc: Location, txi: nat)
    requires
        forall|k: nat| k < txi ==> !m.contains_key((loc, k)),
    ensures
        predecessor(m, loc, txi) == None::<nat>,
    decreases txi,
{
    if txi > 0 {
        assert(!m.contains_key((loc, (txi - 1) as nat)));
        lemma_predecessor_none(m, loc, (txi - 1) as nat);
    }
}

/// What `predecessor` returns is a key below `txi` with nothing between.
pub proof fn lemma_predecessor_sound<T>(m: Map<(Location, nat), T>, loc: Location, txi: nat)
    ensures
        match predecessor(m, loc, txi) {
            Some(j) => j < txi && m.contains_key((loc, j)) && forall|k: nat|
                j < k < txi ==> !m.contains_key((loc, k)),
            None => forall|k: nat| k < txi ==> !m.contains_key((loc, k)),
        },
    decreases txi,
{
    if txi > 0 {
        if !m.contains_key((loc, (txi - 1) as nat)) {
            lemma_predecessor_sound(m, loc, (txi - 1) as nat);
        }
    }
}

struct Cell {
    loc: Location,
    txn_idx: TxnIndex,
    incarnation: Incarnation,
    value: Option<Vec<u8>>,
    estimate: bool,
}

impl Cell {
    spec fn key(self) -> (Location, nat) {
        (self.loc, self.txn_idx as nat)
    }

    spec fn entry(self) -> EntryView {
        EntryView {
            value: opt_view(self.value),
            incarnation: self.incarnation,
            estimate: self.estimate,
        }
    }
}

/// The multi-version data store: for every location the speculative writes of
/// the block, one per writing transaction, spread over `SHARD_COUNT` shards by
/// the location's shard id.
pub struct MultiVersionStore {
    shards: Vec<Vec<Cell>>,
    model: Ghost<StoreView>,
}

impl View for MultiVersionStore {
    type V = StoreView;

    closed spec fn view(&self) -> StoreView {
        self.model@
    }
}

impl MultiVersionStore {
    spec fn cell(&self, s: int, i: int) -> Cell {
        self.shards@[s]@[i]
    }

    spec fn shard_len(&self, s: int) -> int {
        self.shards@[s]@.len() as int
    }

    /// The store's invariant: the shards hold exactly the entries of the
    /// model, each location in its own shard, no pair twice.
    pub closed spec fn wf(&self) -> bool {
        &&& self.shards@.len() == SHARD_COUNT
        &&& forall|s: int, i: int|
            0 <= s < SHARD_COUNT && 0 <= i < self.shard_len(s) ==> {
                let c = #[trigger] self.cell(s, i);
                &&& c.loc.spec_shard_id() == s
                &&& self.model@.contains_key(c.key())
                &&& self.model@[c.key()] == c.entry()
            }
        &&& forall|s: int, i: int, j: int|
            0 <= s < SHARD_COUNT && 0 <= i < self.shard_len(s) && 0 <= j < self.shard_len(s) && i
                != j ==> (#[trigger] self.cell(s, i)).key() != (#[trigger] self.cell(s, j)).key()
        &&& forall|k: (Location, nat)| #[trigger]
            self.model@.contains_key(k) ==> exists|i: int|
                0 <= i < self.shard_len(k.0.spec_shard_id()) && (#[trigger] self.cell(
                    k.0.spec_shard_id(),
                    i,
                )).key() == k
    }

    /// An empty store.
    pub fn new() -> (store: Self)
        ensures
            store.wf(),
            store@ == Map::<(Location, nat), EntryView>::empty(),
    {
        let mut shards: Vec<Vec<Cell>> = Vec::new();
        let mut s: usize = 0;
        while s < SHARD_COUNT
            invariant
                s <= SHARD_COUNT,
                shards@.len() == s,
                forall|t: int| 0 <= t < s ==> (#[trigger] shards@[t])@.len() == 0,
            decreases SHARD_COUNT - s,
        {
            shards.push(Vec::new());
            s += 1;
        }
        MultiVersionStore { shards, model: Ghost(Map::empty()) }
    }

    fn find(&self, loc: &Location, txi: TxnIndex) -> (r: Option<usize>)
        requires
            self.wf(),
        ensures
            match r {
                Some(i) => 0 <= i < self.shard_len(loc.spec_shard_id()) && self.cell(
                    loc.spec_shard_id(),
                    i as int,
                ).key() == (*loc, txi as nat) && self@.contains_key((*loc, txi as nat)),
                None => !self@.contains_key((*loc, txi as nat)),
            },
    {
        let s = loc.shard_id();
        let mut i: usize = 0;
        while i < self.shards[s].len()
            invariant
                self.wf(),
                s == loc.spec_shard_id(),
                0 <= i <= self.shard_len(s as int),
                forall|j: int| 0 <= j < i ==> (#[trigger] self.cell(s as int, j)).key() != (*loc, txi as nat),
            decreases self.shard_len(s as int) - i,
        {
            let c = &self.shards[s][i];
            assert(*c == self.cell(s as int, i as int));
            if c.loc == *loc && c.txn_idx == txi {
                return Some(i);
            }
            i += 1;
        }
        None
    }

    /// Inserts or replaces the entry of `(loc, txi)` with `value` (`None` is a
    /// tombstone) at incarnation `inc`, flagged resolved.
    pub fn write(&mut self, loc: Location, txi: TxnIndex, inc: Incarnation, value: Option<Vec<u8>>)
        requires
            old(self).wf(),
        ensures
            final(self).wf(),
            final(self)@ == old(self)@.insert(
                (loc, txi as nat),
                EntryView { value: opt_view(value), incarnation: inc, estimate: false },
            ),
    {
        let s = loc.shard_id();
        let found = self.find(&loc, txi);
        let ghost key = (loc, txi as nat);
        let ghost before = *self;
        let cell = Cell { loc, txn_idx: txi, incarnation: inc, value, estimate: false };
        match found {
            Some(i) => {
                self.shards[s][i] = cell;
                self.model = Ghost(self.model@.insert(key, cell.entry()));
                assert(self.shards@.len() == SHARD_COUNT);
                assert forall|t: int, j: int|
                    0 <= t < SHARD_COUNT && 0 <= j < self.shard_len(t) implies #[trigger] self.cell(
                    t,
                    j,
                ) == if t == s && j == i {
                    cell
                } else {
                    before.cell(t, j)
                } by {}
                assert forall|t: int| 0 <= t < SHARD_COUNT implies #[trigger] self.shard_len(t)
                    == before.shard_len(t) by {}
                assert(self.wf()) by {
                    assert forall|k: (Location, nat)| #[trigger]
                        self.model@.contains_key(k) implies exists|j: int|
                        0 <= j < self.shard_len(k.0.spec_shard_id()) && (#[trigger] self.cell(
                            k.0.spec_shard_id(),
                            j,
                        )).key() == k by {
                        if k == key {
                            assert(self.cell(s as int, i as int).key() == k);
                        } else {
                            assert(before.model@.contains_key(k));
                            let j = choose|j: int|
                                0 <= j < before.shard_len(k.0.spec_shard_id()) && (
                                #[trigger] before.cell(k.0.spec_shard_id(), j)).key() == k;
                            assert(self.cell(k.0.spec_shard_id(), j).key() == k);
                        }
                    }
                    assert forall|t: int, a: int, b: int|
                        0 <= t < SHARD_COUNT && 0 <= a < self.shard_len(t) && 0 <= b
                            < self.shard_len(t) && a != b implies (#[trigger] self.cell(
                        t,
                        a,
                    )).key() != (#[trigger] self.cell(t, b)).key() by {
                        assert(before.cell(t, a).key() != before.cell(t, b).key());
                    }
                }
            },
            None => {
                self.shards[s].push(cell);
                self.model = Ghost(self.model@.insert(key, cell.entry()));
                let ghost n = before.shard_len(s as int);
                assert(self.shards@.len() == SHARD_COUNT);
                assert forall|t: int| 0 <= t < SHARD_COUNT implies #[trigger] self.shard_len(t)
                    == before.shard_len(t) + if t == s {
                    1int
                } else {
                    0int
                } by {}
                assert forall|t: int, j: int|
                    0 <= t < SHARD_COUNT && 0 <= j < self.shard_len(t) implies #[trigger] self.cell(
                    t,
                    j,
                ) == if t == s && j == n {
                    cell
                } else {
                    before.cell(t, j)
                } by {}
                assert(self.wf()) by {
                    assert forall|k: (Location, nat)| #[trigger]
                        self.model@.contains_key(k) implies exists|j: int|
                        0 <= j < self.shard_len(k.0.spec_shard_id()) && (#[trigger] self.cell(
                            k.0.spec_shard_id(),
                            j,
                        )).key() == k by {
                        if k == key {
                            assert(self.cell(s as int, n).key() == k);
                        } else {
                            assert(before.model@.contains_key(k));
                            let j = choose|j: int|
                                0 <= j < before.shard_len(k.0.spec_shard_id()) && (
                                #[trigger] before.cell(k.0.spec_shard_id(), j)).key() == k;
                            assert(self.cell(k.0.spec_shard_id(), j).key() == k);
                        }
                    }
                    assert forall|t: int, a: int, b: int|
                        0 <= t < SHARD_COUNT && 0 <= a < self.shard_len(t) && 0 <= b
                            < self.shard_len(t) && a != b implies (#[trigger] self.cell(
                        t,
                        a,
                    )).key() != (#[trigger] self.cell(t, b)).key() by {
                        if t == s && a == n {
                            assert(before.model@.contains_key(before.cell(t, b).key()));
                        } else if t == s && b == n {
                            assert(before.model@.contains_key(before.cell(t, a).key()));
                        } else {
                            assert(before.cell(t, a).key() != before.cell(t, b).key());
                        }
                    }
                }
            },
        }
    }

    /// Flags the entry of `(loc, txi)` as an estimate and leaves its value
    /// and incarnation alone. Without such an entry nothing changes.
    pub fn mark_estimate(&mut self, loc: Location, txi: TxnIndex)
        requires
            old(self).wf(),
        ensures
            final(self).wf(),
            final(self)@ == spec_mark_estimate(old(self)@, loc, txi as nat),
    {
        let s = loc.shard_id();
        let found = self.find(&loc, txi);
        let ghost key = (loc, txi as nat);
        let ghost before = *self;
        match found {
            Some(i) => {
                self.shards[s][i].estimate = true;
                let ghost cell = self.cell(s as int, i as int);
                assert(cell.key() == key);
                assert(cell.entry() == EntryView { estimate: true, ..before.model@[key] });
                self.model = Ghost(self.model@.insert(key, cell.entry()));
                assert(self.shards@.len() == SHARD_COUNT);
                assert forall|t: int, j: int|
                    0 <= t < SHARD_COUNT && 0 <= j < self.shard_len(t) implies #[trigger] self.cell(
                    t,
                    j,
                ) == if t == s && j == i {
                    cell
                } else {
                    before.cell(t, j)
                } by {}
                assert forall|t: int| 0 <= t < SHARD_COUNT implies #[trigger] self.shard_len(t)
                    == before.shard_len(t) by {}
                assert(self.wf()) by {
                    assert forall|k: (Location, nat)| #[trigger]
                        self.model@.contains_key(k) implies exists|j: int|
                        0 <= j < self.shard_len(k.0.spec_shard_id()) && (#[trigger] self.cell(
                            k.0.spec_shard_id(),
                            j,
                        )).key() == k by {
                        assert(before.model@.contains_key(k));
                        let j = choose|j: int|
                            0 <= j < before.shard_len(k.0.spec_shard_id()) && (
                            #[trigger] before.cell(k.0.spec_shard_id(), j)).key() == k;
                        assert(self.cell(k.0.spec_shard_id(), j).key() == k);
                    }
                    assert forall|t: int, a: int, b: int|
                        0 <= t < SHARD_COUNT && 0 <= a < self.shard_len(t) && 0 <= b
                            < self.shard_len(t) && a != b implies (#[trigger] self.cell(
                        t,
                        a,
                    )).key() != (#[trigger] self.cell(t, b)).key() by {
                        assert(before.cell(t, a).key() != before.cell(t, b).key());
                    }
                }
            },
            None => {},
        }
    }

    /// Removes the entry of `(loc, txi)`, if there is one.
    pub fn delete(&mut self, loc: Location, txi: TxnIndex)
        requires
            old(self).wf(),
        ensures
            final(self).wf(),
            final(self)@ == old(self)@.remove((loc, txi as nat)),
    {
        let s = loc.shard_id();
        let found = self.find(&loc, txi);
        let ghost key = (loc, txi as nat);
        let ghost before = *self;
        match found {
            Some(i) => {
                self.shards[s].remove(i);
                self.model = Ghost(self.model@.remove(key));
                assert(self.shards@.len() == SHARD_COUNT);
                assert forall|t: int| 0 <= t < SHARD_COUNT implies #[trigger] self.shard_len(t)
                    == before.shard_len(t) - if t == s {
                    1int
                } else {
                    0int
                } by {}
                assert forall|t: int, j: int|
                    0 <= t < SHARD_COUNT && 0 <= j < self.shard_len(t) implies #[trigger] self.cell(
                    t,
                    j,
                ) == if t == s && j >= i {
                    before.cell(t, j + 1)
                } else {
                    before.cell(t, j)
                } by {}
                assert(self.wf()) by {
                    assert forall|t: int, j: int|
                        0 <= t < SHARD_COUNT && 0 <= j < self.shard_len(t) implies {
                        let c = #[trigger] self.cell(t, j);
                        &&& c.loc.spec_shard_id() == t
                        &&& self.model@.contains_key(c.key())
                        &&& self.model@[c.key()] == c.entry()
                    } by {
                        if t == s && j >= i {
                            assert(before.cell(t, j + 1).key() != before.cell(t, i as int).key());
                        } else if t == s {
                            assert(before.cell(t, j).key() != before.cell(t, i as int).key());
                        } else {
                            assert(before.cell(t, j).loc.spec_shard_id() == t);
                        }
                    }
                    assert forall|k: (Location, nat)| #[trigger]
                        self.model@.contains_key(k) implies exists|j: int|
                        0 <= j < self.shard_len(k.0.spec_shard_id()) && (#[trigger] self.cell(
                            k.0.spec_shard_id(),
                            j,
                        )).key() == k by {
                        assert(before.model@.contains_key(k));
                        let t = k.0.spec_shard_id();
                        let j = choose|j: int|
                            0 <= j < before.shard_len(t) && (#[trigger] before.cell(t, j)).key()
                                == k;
                        if t == s && j > i {
                            assert(self.cell(t, j - 1).key() == k);
                        } else {
                            assert(self.cell(t, j).key() == k);
                        }
                    }
                    assert forall|t: int, a: int, b: int|
                        0 <= t < SHARD_COUNT && 0 <= a < self.shard_len(t) && 0 <= b
                            < self.shard_len(t) && a != b implies (#[trigger] self.cell(
                        t,
                        a,
                    )).key() != (#[trigger] self.cell(t, b)).key() by {
                        let a2 = if t == s && a >= i {
                            a + 1
                        } else {
                            a
                        };
                        let b2 = if t == s && b >= i {
                            b + 1
                        } else {
                            b
                        };
                        assert(before.cell(t, a2).key() != before.cell(t, b2).key());
                    }
                }
            },
            None => {
                assert(self.model@.remove(key) =~= self.model@);
            },
        }
    }

    /// The versioned read of `loc` by the transaction at `txi`.
    pub fn read(&self, loc: Location, txi: TxnIndex) -> (r: ReadResult)
        requires
            self.wf(),
        ensures
            r@ == spec_read(self@, loc, txi as nat),
    {
        let s = loc.shard_id();
        let mut best: Option<usize> = None;
        let mut i: usize = 0;
        while i < self.shards[s].len()
            invariant
                self.wf(),
                s == loc.spec_shard_id(),
                0 <= i <= self.shard_len(s as int),
                match best {
                    Some(b) => 0 <= b < i && self.cell(s as int, b as int).loc == loc && self.cell(
                        s as int,
                        b as int,
                    ).txn_idx < txi,
                    None => true,
                },
                forall|j: int|
                    0 <= j < i && (#[trigger] self.cell(s as int, j)).loc == loc && self.cell(
                        s as int,
                        j,
                    ).txn_idx < txi ==> best.is_some() && self.cell(s as int, j).txn_idx
                        <= self.cell(s as int, best.unwrap() as int).txn_idx,
            decreases self.shard_len(s as int) - i,
        {
            let c = &self.shards[s][i];
            assert(*c == self.cell(s as int, i as int));
            if c.loc == loc && c.txn_idx < txi {
                let better = match best {
                    Some(b) => {
                        assert(self.shards[s as int][b as int] == self.cell(s as int, b as int));
                        self.shards[s][b].txn_idx < c.txn_idx
                    },
                    None => true,
                };
                if better {
                    best = Some(i);
                }
            }
            i += 1;
        }
        match best {
            Some(b) => {
                let c = &self.shards[s][b];
                assert(*c == self.cell(s as int, b as int));
                proof {
                    let j = c.txn_idx as nat;
                    assert(self@.contains_key(c.key()));
                    assert forall|k: nat| j < k < txi implies !self@.contains_key((loc, k)) by {
                        if self@.contains_key((loc, k)) {
                            let x = choose|x: int|
                                0 <= x < self.shard_len(s as int) && (#[trigger] self.cell(
                                    s as int,
                                    x,
                                )).key() == (loc, k);
                            assert(self.cell(s as int, x).txn_idx <= c.txn_idx);
                        }
                    }
                    lemma_predecessor_is_greatest(self@, loc, txi as nat, j);
                }
                if c.estimate {
                    ReadResult::Dependency(c.txn_idx)
                } else {
                    ReadResult::Value(
                        clone_opt_bytes(&c.value),
                        Version { txn_idx: c.txn_idx, incarnation: c.incarnation },
                    )
                }
            },
            None => {
                proof {
                    assert forall|k: nat| k < txi implies !self@.contains_key((loc, k)) by {
                        if self@.contains_key((loc, k)) {
                            let x = choose|x: int|
                                0 <= x < self.shard_len(s as int) && (#[trigger] self.cell(
                                    s as int,
                                    x,
                                )).key() == (loc, k);
                            assert(self.cell(s as int, x).txn_idx < txi);
                        }
                    }
                    lemma_predecessor_none(self@, loc, txi as nat);
                }
                ReadResult::Storage
            },
        }
    }
}

/// The store after `(loc, txi)` was flagged as an estimate.
pub open spec fn spec_mark_estimate(m: StoreView, loc: Location, txi: nat) -> StoreView {
    if m.contains_key((loc, txi)) {
        m.insert((loc, txi), EntryView { estimate: true, ..m[(loc, txi)] })
    } else {
        m
    }
}

} // verus!
