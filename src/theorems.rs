//! Facts about the reconciliation engine, proved over its model.
use vstd::prelude::*;

use crate::filesystem::{
    apply_change, apply_changes, expired, first_at, group_step, kept, live, reconcile,
    replace_first, sweep, ChangeModel, EntryModel, GroupModel, PathModel, Tombstone,
};
use crate::path::{is_under, parent_of};

verus! {

/// The entries of a watched root that are present, not tombstoned.
pub open spec fn present(items: Seq<EntryModel>) -> Seq<EntryModel> {
    items.filter(|e: EntryModel| e.removed is None)
}

proof fn lemma_kept_present(items: Seq<EntryModel>, now: u64)
    ensures
        present(kept(items, now)) == present(items),
    decreases items.len(),
{
    reveal(Seq::filter);
    if items.len() > 0 {
        let init = items.drop_last();
        let e = items.last();
        lemma_kept_present(init, now);
        let k = kept(init, now);
        if !expired(e, now) {
            assert(kept(items, now) == k.push(e));
            assert(k.push(e).drop_last() =~= k);
            assert(k.push(e).last() == e);
        } else {
            assert(kept(items, now) == k);
            assert(e.removed is Some);
        }
    }
}

/// A tick with no events changes nothing but what the sweep purges: the
/// registry keeps its roots, and each root keeps its present entries, with
/// their paths, in order.
pub proof fn empty_tick_keeps_present(reg: Seq<GroupModel>, now: u64)
    ensures
        reconcile(reg, Seq::empty(), now) == sweep(reg, now),
        reconcile(reg, Seq::empty(), now).len() == reg.len(),
        forall|i: int|
            0 <= i < reg.len() ==> {
                &&& (#[trigger] reconcile(reg, Seq::empty(), now)[i]).root == reg[i].root
                &&& present(reconcile(reg, Seq::empty(), now)[i].items) == present(reg[i].items)
            },
{
    assert forall|i: int| 0 <= i < reg.len() implies present(
        reconcile(reg, Seq::empty(), now)[i].items,
    ) == present(reg[i].items) by {
        lemma_kept_present(reg[i].items, now);
    }
}

/// An addition followed by a removal of the same path, in a watched root
/// that had no entry at that path, leaves one entry at that path there,
/// tombstoned at the time of the removal.
pub proof fn add_then_remove_tombstones_once(
    reg: Seq<GroupModel>,
    g: int,
    p: PathModel,
    now: u64,
)
    requires
        0 <= g < reg.len(),
        is_under(reg[g].root, p),
        forall|k: int| 0 <= k < reg[g].items.len() ==> (#[trigger] reg[g].items[k]).path != p,
    ensures
        apply_changes(reg, seq![ChangeModel::Added(p), ChangeModel::Removed(p)], now)[g].items
            == reg[g].items.push(EntryModel { path: p, removed: Some(Tombstone::At(now)) }),
{
    let cs = seq![ChangeModel::Added(p), ChangeModel::Removed(p)];
    assert(cs.drop_last() =~= seq![ChangeModel::Added(p)]);
    assert(seq![ChangeModel::Added(p)].drop_last() =~= Seq::<ChangeModel>::empty());
    let r1 = apply_change(reg, ChangeModel::Added(p), now);
    assert(apply_changes(reg, Seq::<ChangeModel>::empty(), now) == reg);
    assert(seq![ChangeModel::Added(p)].last() == ChangeModel::Added(p));
    assert(apply_changes(reg, seq![ChangeModel::Added(p)], now) == r1);
    assert(cs.last() == ChangeModel::Removed(p));
    let items1 = reg[g].items.push(live(p));
    assert(r1[g].items == items1);
    let n = reg[g].items.len() as int;
    assert(first_at(items1, p, n));
    let j = choose|j: int| first_at(items1, p, j);
    if j < n {
        assert(items1[j] == reg[g].items[j]);
    } else if n < j {
        assert(items1[n].path != p);
    }
    assert(items1.update(n, EntryModel { path: p, removed: Some(Tombstone::At(now)) }) =~= reg[g].items.push(
        EntryModel { path: p, removed: Some(Tombstone::At(now)) },
    ));
}

/// A rename within one directory rewrites, in every watched root above the
/// source, the first entry at the source to a present entry at the
/// destination; a tombstone it had is cleared.
pub proof fn rename_rewrites_in_place(
    reg: Seq<GroupModel>,
    a: PathModel,
    b: PathModel,
    now: u64,
    g: int,
    j: int,
)
    requires
        parent_of(a) == parent_of(b),
        0 <= g < reg.len(),
        is_under(reg[g].root, a),
        first_at(reg[g].items, a, j),
    ensures
        apply_change(reg, ChangeModel::Moved(a, b), now)[g].items == reg[g].items.update(
            j,
            live(b),
        ),
        apply_change(reg, ChangeModel::Moved(a, b), now)[g].items[j].path == b,
        apply_change(reg, ChangeModel::Moved(a, b), now)[g].items[j].removed is None,
{
    let items = reg[g].items;
    let c = choose|i: int| first_at(items, a, i);
    assert(first_at(items, a, c));
    if c < j {
        assert(items[c].path != a);
    } else if j < c {
        assert(items[j].path != a);
    }
    assert(replace_first(items, a, live(b)) == items.update(j, live(b)));
}

proof fn lemma_twins_step(reg: Seq<GroupModel>, c: ChangeModel, now: u64, i: int, j: int)
    requires
        0 <= i < reg.len(),
        0 <= j < reg.len(),
        reg[i] == reg[j],
    ensures
        apply_change(reg, c, now)[i] == apply_change(reg, c, now)[j],
{
}

/// Two watched roots that are equal (same root path, same entries) stay
/// equal under any stream of events.
pub proof fn twin_roots_stay_equal(
    reg: Seq<GroupModel>,
    cs: Seq<ChangeModel>,
    now: u64,
    i: int,
    j: int,
)
    requires
        0 <= i < reg.len(),
        0 <= j < reg.len(),
        reg[i] == reg[j],
    ensures
        apply_changes(reg, cs, now).len() == reg.len(),
        apply_changes(reg, cs, now)[i] == apply_changes(reg, cs, now)[j],
        reconcile(reg, cs, now)[i].items == reconcile(reg, cs, now)[j].items,
    decreases cs.len(),
{
    if cs.len() > 0 {
        twin_roots_stay_equal(reg, cs.drop_last(), now, i, j);
        lemma_twins_step(apply_changes(reg, cs.drop_last(), now), cs.last(), now, i, j);
    }
}

/// A sweep at `now` purges every entry whose tombstone is older than the
/// retention window, and keeps every other entry.
pub proof fn sweep_purges_only_expired(reg: Seq<GroupModel>, now: u64, g: int, e: EntryModel)
    requires
        0 <= g < reg.len(),
        reg[g].items.contains(e),
    ensures
        expired(e, now) ==> !sweep(reg, now)[g].items.contains(e),
        !expired(e, now) ==> sweep(reg, now)[g].items.contains(e),
{
    let items = reg[g].items;
    let pred = |x: EntryModel| !expired(x, now);
    let out = items.filter(pred);
    assert(sweep(reg, now)[g].items == out);
    if expired(e, now) {
        if out.contains(e) {
            let k = choose|k: int| 0 <= k < out.len() && out[k] == e;
            items.lemma_filter_pred(pred, k);
        }
    } else {
        let k = choose|k: int| 0 <= k < items.len() && items[k] == e;
        items.lemma_filter_contains(pred, k);
    }
}

proof fn lemma_kept_push(items: Seq<EntryModel>, e: EntryModel, now: u64)
    ensures
        !expired(e, now) ==> kept(items.push(e), now) == kept(items, now).push(e),
        expired(e, now) ==> kept(items.push(e), now) == kept(items, now),
{
    reveal(Seq::filter);
    assert(items.push(e).drop_last() =~= items);
    assert(items.push(e).last() == e);
}

proof fn lemma_kept_from(items: Seq<EntryModel>, now: u64)
    ensures
        forall|k: int| 0 <= k < kept(items, now).len() ==> items.contains(#[trigger] kept(items, now)[k]),
    decreases items.len(),
{
    reveal(Seq::filter);
    if items.len() > 0 {
        let init = items.drop_last();
        lemma_kept_from(init, now);
        assert(items =~= init.push(items.last()));
        lemma_kept_push(init, items.last(), now);
        let out = kept(items, now);
        assert forall|k: int| 0 <= k < out.len() implies items.contains(#[trigger] out[k]) by {
            if k < kept(init, now).len() {
                assert(out[k] == kept(init, now)[k]);
                let w = choose|w: int| 0 <= w < init.len() && init[w] == out[k];
                assert(items[w] == out[k]);
            } else {
                assert(out[k] == items[items.len() - 1]);
            }
        }
    }
}

proof fn lemma_changes_len(reg: Seq<GroupModel>, cs: Seq<ChangeModel>, now: u64)
    ensures
        apply_changes(reg, cs, now).len() == reg.len(),
    decreases cs.len(),
{
    if cs.len() > 0 {
        lemma_changes_len(reg, cs.drop_last(), now);
    }
}

proof fn lemma_single_change(reg: Seq<GroupModel>, c: ChangeModel, now: u64)
    ensures
        apply_changes(reg, seq![c], now) == apply_change(reg, c, now),
{
    assert(seq![c].drop_last() =~= Seq::<ChangeModel>::empty());
    assert(seq![c].last() == c);
    assert(apply_changes(reg, Seq::<ChangeModel>::empty(), now) == reg);
}

/// Through a whole tick, an addition followed by a removal of the same path,
/// in a watched root that had no entry at that path, leaves exactly one
/// entry at that path there: the last one, tombstoned at the tick's time;
/// the other entries are those the sweep keeps.
pub proof fn add_then_remove_in_tick(reg: Seq<GroupModel>, g: int, p: PathModel, now: u64)
    requires
        0 <= g < reg.len(),
        is_under(reg[g].root, p),
        forall|k: int| 0 <= k < reg[g].items.len() ==> (#[trigger] reg[g].items[k]).path != p,
    ensures
        reconcile(reg, seq![ChangeModel::Added(p), ChangeModel::Removed(p)], now)[g].items
            == kept(reg[g].items, now).push(EntryModel { path: p, removed: Some(Tombstone::At(now)) }),
        forall|k: int|
            0 <= k < kept(reg[g].items, now).len() ==> (#[trigger] kept(reg[g].items, now)[k]).path
                != p,
{
    let cs = seq![ChangeModel::Added(p), ChangeModel::Removed(p)];
    let tomb = EntryModel { path: p, removed: Some(Tombstone::At(now)) };
    add_then_remove_tombstones_once(reg, g, p, now);
    lemma_changes_len(reg, cs, now);
    lemma_kept_push(reg[g].items, tomb, now);
    lemma_kept_from(reg[g].items, now);
    let out = kept(reg[g].items, now);
    assert forall|k: int| 0 <= k < out.len() implies (#[trigger] out[k]).path != p by {
        assert(reg[g].items.contains(out[k]));
    }
}

/// Through a whole tick, a rename within one directory leaves, in each
/// watched root above the source that has an entry there, the swept entries
/// with the first entry at the source replaced by a present entry at the
/// destination, which the sweep keeps; every other root is only swept.
/// Nothing is appended.
pub proof fn rename_in_tick(reg: Seq<GroupModel>, a: PathModel, b: PathModel, now: u64, g: int)
    requires
        parent_of(a) == parent_of(b),
        0 <= g < reg.len(),
    ensures
        reconcile(reg, seq![ChangeModel::Moved(a, b)], now).len() == reg.len(),
        forall|j: int|
            is_under(reg[g].root, a) && #[trigger] first_at(reg[g].items, a, j) ==> {
                &&& reconcile(reg, seq![ChangeModel::Moved(a, b)], now)[g].items == kept(
                    reg[g].items.update(j, live(b)),
                    now,
                )
                &&& reconcile(reg, seq![ChangeModel::Moved(a, b)], now)[g].items.contains(live(b))
            },
        !(is_under(reg[g].root, a) && exists|j: int| first_at(reg[g].items, a, j)) ==> reconcile(
            reg,
            seq![ChangeModel::Moved(a, b)],
            now,
        )[g].items == kept(reg[g].items, now),
{
    let c = ChangeModel::Moved(a, b);
    lemma_single_change(reg, c, now);
    let items = reg[g].items;
    assert forall|j: int| is_under(reg[g].root, a) && #[trigger] first_at(items, a, j) implies {
        &&& reconcile(reg, seq![c], now)[g].items == kept(items.update(j, live(b)), now)
        &&& reconcile(reg, seq![c], now)[g].items.contains(live(b))
    } by {
        rename_rewrites_in_place(reg, a, b, now, g, j);
        let upd = items.update(j, live(b));
        upd.lemma_filter_contains(|e: EntryModel| !expired(e, now), j);
    }
}

/// Whether a change names the path, as its subject or either end of a move.
pub open spec fn mentions(c: ChangeModel, p: PathModel) -> bool {
    match c {
        ChangeModel::Added(q) => q == p,
        ChangeModel::Removed(q) => q == p,
        ChangeModel::Moved(x, y) => x == p || y == p,
    }
}

proof fn lemma_replace_keeps(items: Seq<EntryModel>, q: PathModel, x: EntryModel, e: EntryModel)
    requires
        items.contains(e),
        e.path != q,
    ensures
        replace_first(items, q, x).contains(e),
{
    let k = choose|k: int| 0 <= k < items.len() && items[k] == e;
    if exists|i: int| first_at(items, q, i) {
        let j = choose|i: int| first_at(items, q, i);
        assert(first_at(items, q, j));
        assert(k != j);
        assert(items.update(j, x)[k] == e);
    }
}

proof fn lemma_push_keeps(items: Seq<EntryModel>, x: EntryModel, e: EntryModel)
    requires
        items.contains(e),
    ensures
        items.push(x).contains(e),
{
    let k = choose|k: int| 0 <= k < items.len() && items[k] == e;
    assert(items.push(x)[k] == e);
}

proof fn lemma_step_keeps(g: GroupModel, c: ChangeModel, now: u64, arrived: bool, e: EntryModel)
    requires
        g.items.contains(e),
        !mentions(c, e.path),
    ensures
        group_step(g, c, now, arrived).items.contains(e),
{
    match c {
        ChangeModel::Added(q) => {
            lemma_push_keeps(g.items, live(q), e);
        },
        ChangeModel::Removed(q) => {
            lemma_replace_keeps(g.items, q, EntryModel { path: q, removed: Some(Tombstone::At(now)) }, e);
        },
        ChangeModel::Moved(x, y) => {
            lemma_replace_keeps(g.items, x, live(y), e);
            lemma_push_keeps(g.items, live(y), e);
            let items = if is_under(g.root, y) {
                g.items.push(live(y))
            } else {
                g.items
            };
            lemma_replace_keeps(items, x, EntryModel { path: x, removed: Some(Tombstone::Relocated(now)) }, e);
            lemma_replace_keeps(items, x, EntryModel { path: x, removed: Some(Tombstone::At(now)) }, e);
        },
    }
}

proof fn lemma_untouched_stays(
    reg: Seq<GroupModel>,
    cs: Seq<ChangeModel>,
    now: u64,
    g: int,
    e: EntryModel,
)
    requires
        0 <= g < reg.len(),
        reg[g].items.contains(e),
        forall|k: int| 0 <= k < cs.len() ==> !mentions(#[trigger] cs[k], e.path),
    ensures
        apply_changes(reg, cs, now).len() == reg.len(),
        apply_changes(reg, cs, now)[g].items.contains(e),
    decreases cs.len(),
{
    if cs.len() > 0 {
        let init = cs.drop_last();
        assert forall|k: int| 0 <= k < init.len() implies !mentions(#[trigger] init[k], e.path) by {
            assert(init[k] == cs[k]);
        }
        lemma_untouched_stays(reg, init, now, g, e);
        let r = apply_changes(reg, init, now);
        assert(!mentions(cs[cs.len() - 1], e.path));
        lemma_step_keeps(r[g], cs.last(), now, crate::filesystem::arrives(r, cs.last()), e);
    }
}

/// Through a whole tick whose events never name an entry's path, the entry
/// stays as it was unless its tombstone has expired, and is gone after the
/// tick's sweep if it has.
pub proof fn untouched_entry_in_tick(
    reg: Seq<GroupModel>,
    cs: Seq<ChangeModel>,
    now: u64,
    g: int,
    e: EntryModel,
)
    requires
        0 <= g < reg.len(),
        reg[g].items.contains(e),
        forall|k: int| 0 <= k < cs.len() ==> !mentions(#[trigger] cs[k], e.path),
    ensures
        reconcile(reg, cs, now).len() == reg.len(),
        expired(e, now) ==> !reconcile(reg, cs, now)[g].items.contains(e),
        !expired(e, now) ==> reconcile(reg, cs, now)[g].items.contains(e),
{
    lemma_untouched_stays(reg, cs, now, g, e);
    sweep_purges_only_expired(apply_changes(reg, cs, now), now, g, e);
}

} // verus!
