use crate::delta::{spec_encode_counter, DeltaOp};
use crate::delta_layer::LayerView;
use crate::mvds::{lemma_predecessor_sound, predecessor, EntryView, ReadResultView, StoreView};
use crate::sequential::{apply_writes, pending_after, Overlay};
use crate::types::{Incarnation, Location};
use crate::view::route;
use crate::vm::{find_write, Source};
use crate::worker::{
    lemma_find_write_touches, retire, touches, with_counters, with_deltas, with_estimates,
    with_writes, without_deltas,
};
use vstd::prelude::*;

verus! {

/// What `find_write` finds is an entry for the location.
pub proof fn lemma_find_write_index(w: Seq<(Location, Option<Seq<u8>>)>, loc: Location)
    ensures
        match find_write(w, loc) {
            Some(p) => 0 <= p < w.len() && w[p].0 == loc,
            None => true,
        },
    decreases w.len(),
{
    if w.len() > 0 && w.last().0 != loc {
        lemma_find_write_index(w.drop_last(), loc);
    }
}

/// What `with_writes` does to one key: it adds the keys of `txi` at the
/// written locations, each with the last value written there, and leaves the
/// rest as it is.
pub proof fn lemma_with_writes(
    m: StoreView,
    txi: nat,
    inc: Incarnation,
    w: Seq<(Location, Option<Seq<u8>>)>,
    key: (Location, nat),
)
    ensures
        with_writes(m, txi, inc, w).contains_key(key) == (m.contains_key(key) || (key.1 == txi
            && touches(w, key.0))),
        key.1 == txi && touches(w, key.0) ==> find_write(w, key.0).is_some() && with_writes(
            m,
            txi,
            inc,
            w,
        )[key] == (EntryView {
            value: w[find_write(w, key.0).unwrap()].1,
            incarnation: inc,
            estimate: false,
        }),
        !(key.1 == txi && touches(w, key.0)) && m.contains_key(key) ==> with_writes(m, txi, inc, w)[key]
            == m[key],
    decreases w.len(),
{
    lemma_find_write_touches(w, key.0);
    lemma_find_write_index(w, key.0);
    if w.len() > 0 {
        let rest = w.drop_last();
        lemma_with_writes(m, txi, inc, rest, key);
        lemma_find_write_touches(rest, key.0);
        lemma_find_write_index(rest, key.0);
        if find_write(rest, key.0).is_some() {
            assert(rest[find_write(rest, key.0).unwrap()] == w[find_write(rest, key.0).unwrap()]);
        }
        if touches(rest, key.0) {
            let k = choose|k: int| 0 <= k < rest.len() && (#[trigger] rest[k]).0 == key.0;
            assert(w[k].0 == key.0);
        }
        if touches(w, key.0) && w.last().0 != key.0 {
            let k = choose|k: int| 0 <= k < w.len() && (#[trigger] w[k]).0 == key.0;
            assert(rest[k].0 == key.0);
        }
        if w.last().0 == key.0 {
            assert(w[w.len() - 1].0 == key.0);
        }
    }
}

/// What `with_deltas` does to one key: it adds the keys of `txi` at the
/// locations of the deltas, and leaves the rest as it is.
pub proof fn lemma_with_deltas(
    m: LayerView,
    txi: nat,
    inc: Incarnation,
    d: Seq<(Location, DeltaOp)>,
    key: (Location, nat),
)
    ensures
        with_deltas(m, txi, inc, d).contains_key(key) == (m.contains_key(key) || (key.1 == txi
            && touches(d, key.0))),
        key.1 != txi && m.contains_key(key) ==> with_deltas(m, txi, inc, d)[key] == m[key],
    decreases d.len(),
{
    if d.len() > 0 {
        let rest = d.drop_last();
        lemma_with_deltas(m, txi, inc, rest, key);
        if touches(rest, key.0) {
            let k = choose|k: int| 0 <= k < rest.len() && (#[trigger] rest[k]).0 == key.0;
            assert(d[k].0 == key.0);
        }
        if touches(d, key.0) && d.last().0 != key.0 {
            let k = choose|k: int| 0 <= k < d.len() && (#[trigger] d[k]).0 == key.0;
            assert(rest[k].0 == key.0);
        }
        if d.last().0 == key.0 {
            assert(d[d.len() - 1].0 == key.0);
        }
    }
}

/// What `retire` does to one key: it takes out the keys of `txi` at the
/// locations that `prev` names and `next` does not, and leaves the rest as it
/// is.
pub proof fn lemma_retire<T, A, B>(
    m: Map<(Location, nat), T>,
    txi: nat,
    prev: Seq<(Location, A)>,
    next: Seq<(Location, B)>,
    key: (Location, nat),
)
    ensures
        retire(m, txi, prev, next).contains_key(key) == (m.contains_key(key) && !(key.1 == txi
            && touches(prev, key.0) && !touches(next, key.0))),
        retire(m, txi, prev, next).contains_key(key) ==> retire(m, txi, prev, next)[key] == m[key],
    decreases prev.len(),
{
    if prev.len() > 0 {
        let rest = prev.drop_last();
        lemma_retire(m, txi, rest, next, key);
        if touches(rest, key.0) {
            let k = choose|k: int| 0 <= k < rest.len() && (#[trigger] rest[k]).0 == key.0;
            assert(prev[k].0 == key.0);
        }
        if touches(prev, key.0) && prev.last().0 != key.0 {
            let k = choose|k: int| 0 <= k < prev.len() && (#[trigger] prev[k]).0 == key.0;
            assert(rest[k].0 == key.0);
        }
        if prev.last().0 == key.0 {
            assert(prev[prev.len() - 1].0 == key.0);
        }
    }
}

/// What `with_estimates` does to one key: the keys stay, and so does every
/// entry of another transaction.
pub proof fn lemma_with_estimates(
    m: StoreView,
    txi: nat,
    w: Seq<(Location, Option<Seq<u8>>)>,
    key: (Location, nat),
)
    ensures
        with_estimates(m, txi, w).contains_key(key) == m.contains_key(key),
        key.1 != txi && m.contains_key(key) ==> with_estimates(m, txi, w)[key] == m[key],
    decreases w.len(),
{
    if w.len() > 0 {
        lemma_with_estimates(m, txi, w.drop_last(), key);
    }
}

/// What `apply_writes` does to one location: a written location holds the
/// last value written to it, and every other location what it held.
pub proof fn lemma_apply_writes(
    overlay: Overlay,
    w: Seq<(Location, Option<Seq<u8>>)>,
    loc: Location,
)
    ensures
        apply_writes(overlay, w).contains_key(loc) == (overlay.contains_key(loc) || touches(w, loc)),
        touches(w, loc) ==> find_write(w, loc).is_some() && apply_writes(overlay, w)[loc]
            == w[find_write(w, loc).unwrap()].1,
        !touches(w, loc) && overlay.contains_key(loc) ==> apply_writes(overlay, w)[loc]
            == overlay[loc],
    decreases w.len(),
{
    lemma_find_write_touches(w, loc);
    lemma_find_write_index(w, loc);
    if w.len() > 0 {
        let rest = w.drop_last();
        lemma_apply_writes(overlay, rest, loc);
        lemma_find_write_touches(rest, loc);
        lemma_find_write_index(rest, loc);
        if find_write(rest, loc).is_some() {
            assert(rest[find_write(rest, loc).unwrap()] == w[find_write(rest, loc).unwrap()]);
        }
        if touches(rest, loc) {
            let k = choose|k: int| 0 <= k < rest.len() && (#[trigger] rest[k]).0 == loc;
            assert(w[k].0 == loc);
        }
        if touches(w, loc) && w.last().0 != loc {
            let k = choose|k: int| 0 <= k < w.len() && (#[trigger] w[k]).0 == loc;
            assert(rest[k].0 == loc);
        }
        if w.last().0 == loc {
            assert(w[w.len() - 1].0 == loc);
        }
    }
}

/// The last write to `loc` in two write sets, one after the other.
pub proof fn lemma_find_write_concat(
    a: Seq<(Location, Option<Seq<u8>>)>,
    b: Seq<(Location, Option<Seq<u8>>)>,
    loc: Location,
)
    ensures
        find_write(a + b, loc) == match find_write(b, loc) {
            Some(p) => Some(a.len() + p),
            None => find_write(a, loc),
        },
    decreases b.len(),
{
    if b.len() == 0 {
        assert(a + b =~= a);
    } else {
        assert((a + b).drop_last() =~= a + b.drop_last());
        assert((a + b).last() == b.last());
        lemma_find_write_concat(a, b.drop_last(), loc);
    }
}

/// The nearest key below `k` depends on the keys below `k` only.
pub proof fn lemma_predecessor_congruent<T>(
    m1: Map<(Location, nat), T>,
    m2: Map<(Location, nat), T>,
    loc: Location,
    k: nat,
)
    requires
        forall|j: nat| j < k ==> #[trigger] m1.contains_key((loc, j)) == m2.contains_key((loc, j)),
    ensures
        predecessor(m1, loc, k) == predecessor(m2, loc, k),
    decreases k,
{
    if k > 0 {
        assert(m1.contains_key((loc, (k - 1) as nat)) == m2.contains_key((loc, (k - 1) as nat)));
        assert forall|j: nat| j < (k - 1) as nat implies #[trigger] m1.contains_key((loc, j))
            == m2.contains_key((loc, j)) by {}
        lemma_predecessor_congruent(m1, m2, loc, (k - 1) as nat);
    }
}

/// Whether two maps hold the same below `k`.
pub open spec fn same_below<T>(m1: Map<(Location, nat), T>, m2: Map<(Location, nat), T>, k: nat) -> bool {
    forall|key: (Location, nat)|
        key.1 < k ==> (#[trigger] m1.contains_key(key) == m2.contains_key(key) && (
        m1.contains_key(key) ==> m1[key] == m2[key]))
}

/// A read by the transaction at `k` is routed by what the transactions below
/// `k` have left, and by nothing else.
pub proof fn lemma_route_depends_on_lower(
    store1: StoreView,
    layer1: LayerView,
    store2: StoreView,
    layer2: LayerView,
    loc: Location,
    k: nat,
)
    requires
        same_below(store1, store2, k),
        same_below(layer1, layer2, k),
    ensures
        route(store1, layer1, loc, k) == route(store2, layer2, loc, k),
{
    assert forall|j: nat| j < k implies #[trigger] store1.contains_key((loc, j))
        == store2.contains_key((loc, j)) by {
        assert(store1.contains_key((loc, j)) == store2.contains_key((loc, j)));
    }
    assert forall|j: nat| j < k implies #[trigger] layer1.contains_key((loc, j))
        == layer2.contains_key((loc, j)) by {
        assert(layer1.contains_key((loc, j)) == layer2.contains_key((loc, j)));
    }
    lemma_predecessor_congruent(store1, store2, loc, k);
    lemma_predecessor_congruent(layer1, layer2, loc, k);
    lemma_predecessor_sound(store1, loc, k);
    match predecessor(store1, loc, k) {
        Some(j) => {
            assert(store1.contains_key((loc, j)));
            assert(store1[(loc, j)] == store2[(loc, j)]);
        },
        None => {},
    }
}

/// Where neither the store nor the layer has an entry of `k` at `loc`, the
/// transaction above `k` reads at `loc` what `k` reads.
pub proof fn lemma_route_passes(store: StoreView, layer: LayerView, loc: Location, k: nat)
    requires
        !store.contains_key((loc, k)),
        !layer.contains_key((loc, k)),
    ensures
        route(store, layer, loc, k + 1) == route(store, layer, loc, k),
{
    assert(predecessor(store, loc, k + 1) == predecessor(store, loc, k));
    assert(predecessor(layer, loc, k + 1) == predecessor(layer, loc, k));
}

/// Where the store has a resolved entry of `k` at `loc` and the layer has
/// none, the transaction above `k` reads that entry.
pub proof fn lemma_route_lands(store: StoreView, layer: LayerView, loc: Location, k: nat)
    requires
        k < usize::MAX,
        store.contains_key((loc, k)),
        !store[(loc, k)].estimate,
        !layer.contains_key((loc, k)),
    ensures
        route(store, layer, loc, k + 1) matches ReadResultView::Value(v, _) && v == store[(
            loc,
            k,
        )].value,
{
    assert(predecessor(store, loc, k + 1) == Some(k));
    assert(predecessor(layer, loc, k + 1) == predecessor(layer, loc, k));
    lemma_predecessor_sound(layer, loc, k);
}

/// What `with_counters` does to one key.
pub proof fn lemma_with_counters(
    m: StoreView,
    txi: nat,
    inc: Incarnation,
    locs: Seq<Location>,
    src: Source,
    key: (Location, nat),
)
    ensures
        with_counters(m, txi, inc, locs, src).contains_key(key) == (m.contains_key(key) || (key.1
            == txi && locs.contains(key.0))),
        key.1 == txi && locs.contains(key.0) ==> with_counters(m, txi, inc, locs, src)[key] == (
        EntryView { value: src(key.0), incarnation: inc, estimate: false }),
        !(key.1 == txi && locs.contains(key.0)) && m.contains_key(key) ==> with_counters(
            m,
            txi,
            inc,
            locs,
            src,
        )[key] == m[key],
    decreases locs.len(),
{
    if locs.len() > 0 {
        let rest = locs.drop_last();
        lemma_with_counters(m, txi, inc, rest, src, key);
        if rest.contains(key.0) {
            let k = choose|k: int| 0 <= k < rest.len() && rest[k] == key.0;
            assert(locs[k] == key.0);
        }
        if locs.contains(key.0) && locs.last() != key.0 {
            let k = choose|k: int| 0 <= k < locs.len() && locs[k] == key.0;
            assert(rest[k] == key.0);
        }
        if locs.last() == key.0 {
            assert(locs[locs.len() - 1] == key.0);
        }
    }
}

/// What `without_deltas` does to one key.
pub proof fn lemma_without_deltas(m: LayerView, txi: nat, locs: Seq<Location>, key: (Location, nat))
    ensures
        without_deltas(m, txi, locs).contains_key(key) == (m.contains_key(key) && !(key.1 == txi
            && locs.contains(key.0))),
        without_deltas(m, txi, locs).contains_key(key) ==> without_deltas(m, txi, locs)[key]
            == m[key],
    decreases locs.len(),
{
    if locs.len() > 0 {
        let rest = locs.drop_last();
        lemma_without_deltas(m, txi, rest, key);
        if rest.contains(key.0) {
            let k = choose|k: int| 0 <= k < rest.len() && rest[k] == key.0;
            assert(locs[k] == key.0);
        }
        if locs.contains(key.0) && locs.last() != key.0 {
            let k = choose|k: int| 0 <= k < locs.len() && locs[k] == key.0;
            assert(rest[k] == key.0);
        }
        if locs.last() == key.0 {
            assert(locs[locs.len() - 1] == key.0);
        }
    }
}

/// What the pending writes of a commit hold for one location: the writes of
/// the transaction, and after them the counters that its deltas resolved to.
pub proof fn lemma_pending(
    w: Seq<(Location, Option<Seq<u8>>)>,
    d: Seq<(Location, DeltaOp)>,
    vals: Seq<i128>,
    loc: Location,
)
    requires
        vals.len() == d.len(),
    ensures
        touches(pending_after(w, d, vals), loc) == (touches(w, loc) || touches(d, loc)),
        !touches(d, loc) && touches(w, loc) ==> find_write(pending_after(w, d, vals), loc).is_some()
            && find_write(w, loc).is_some() && pending_after(w, d, vals)[find_write(
            pending_after(w, d, vals),
            loc,
        ).unwrap()].1 == w[find_write(w, loc).unwrap()].1,
{
    let mats = Seq::new(vals.len(), |i: int| (d[i].0, Some(spec_encode_counter(vals[i]))));
    let all = pending_after(w, d, vals);
    assert(all == w + mats);
    if touches(all, loc) {
        let k = choose|k: int| 0 <= k < all.len() && (#[trigger] all[k]).0 == loc;
        if k < w.len() {
            assert(w[k].0 == loc);
        } else {
            assert(mats[k - w.len()].0 == loc);
            assert(d[k - w.len()].0 == loc);
        }
    }
    if touches(w, loc) {
        let k = choose|k: int| 0 <= k < w.len() && (#[trigger] w[k]).0 == loc;
        assert(all[k].0 == loc);
    }
    if touches(d, loc) {
        let k = choose|k: int| 0 <= k < d.len() && (#[trigger] d[k]).0 == loc;
        assert(mats[k].0 == loc);
        assert(all[w.len() + k].0 == loc);
    }
    if !touches(d, loc) && touches(w, loc) {
        lemma_find_write_concat(w, mats, loc);
        lemma_find_write_touches(mats, loc);
        if touches(mats, loc) {
            let k = choose|k: int| 0 <= k < mats.len() && (#[trigger] mats[k]).0 == loc;
            assert(d[k].0 == loc);
        }
        lemma_find_write_touches(w, loc);
        lemma_find_write_index(w, loc);
        assert(all[find_write(w, loc).unwrap()] == w[find_write(w, loc).unwrap()]);
    }
}

} // verus!
