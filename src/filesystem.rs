//! The registry of watched roots and the engine that keeps it current from
//! change events.
use vstd::prelude::*;

use crate::path::{is_under, parent_of, Component, FsPath};
use itertools::Itertools;
use std::sync::mpsc::Receiver;
use std::time::{SystemTime, UNIX_EPOCH};

verus! {

/// A path, as its components.
pub type PathModel = Seq<Component>;

/// How long a removed entry stays visible, in milliseconds: one day.
pub const RETENTION_MS: u64 = 86_400_000;

/// How an entry left its watched root.
#[derive(Debug, Clone, Copy, PartialEq, Eq, Structural)]
pub enum Tombstone {
    /// Removed at this time, in milliseconds; purged once older than the
    /// retention window.
    At(u64),
    /// Moved at this time to another watched root: it did not vanish, so the
    /// next sweep purges it whatever the time.
    Relocated(u64),
}

/// An entry as a value: its path, and when it was removed, if it was.
pub struct EntryModel {
    pub path: PathModel,
    pub removed: Option<Tombstone>,
}

/// A watched root as a value: its path and its entries in order.
pub struct GroupModel {
    pub root: PathModel,
    pub items: Seq<EntryModel>,
}

/// A change event as a value.
pub enum ChangeModel {
    Added(PathModel),
    Removed(PathModel),
    Moved(PathModel, PathModel),
}

/// One entry of a watched root: a path, and its tombstone once it was
/// removed; `None` while it is present.
#[derive(Debug, PartialEq, Eq)]
pub struct FileItem {
    pub path: FsPath,
    pub removed: Option<Tombstone>,
}

impl View for FileItem {
    type V = EntryModel;

    open spec fn view(&self) -> EntryModel {
        EntryModel { path: self.path@, removed: self.removed }
    }
}

impl Clone for FileItem {
    fn clone(&self) -> (r: FileItem)
        ensures
            r@ == self@,
    {
        FileItem { path: self.path.clone(), removed: self.removed }
    }
}

impl FileItem {
    /// A present entry at `path`.
    pub fn new(path: FsPath) -> (r: FileItem)
        ensures
            r@ == live(path@),
    {
        FileItem { path, removed: None }
    }
}

/// A watched root and the entries tracked beneath it, in insertion order.
#[derive(Debug, PartialEq, Eq)]
pub struct FileGroup {
    pub root: FsPath,
    pub items: Vec<FileItem>,
}

impl View for FileGroup {
    type V = GroupModel;

    open spec fn view(&self) -> GroupModel {
        GroupModel { root: self.root@, items: items_view(self.items@) }
    }
}

impl FileGroup {
    /// A watched root with no entries.
    pub fn new(root: FsPath) -> (r: FileGroup)
        ensures
            r@ == (GroupModel { root: root@, items: Seq::empty() }),
    {
        let r = FileGroup { root, items: Vec::new() };
        assert(r@.items =~= Seq::<EntryModel>::empty());
        r
    }
}

/// A change seen beneath a watched root.
#[derive(Debug, PartialEq, Eq)]
pub enum FileChange {
    Added(FsPath),
    Removed(FsPath),
    Moved(FsPath, FsPath),
}

impl View for FileChange {
    type V = ChangeModel;

    open spec fn view(&self) -> ChangeModel {
        match self {
            FileChange::Added(p) => ChangeModel::Added(p@),
            FileChange::Removed(p) => ChangeModel::Removed(p@),
            FileChange::Moved(a, b) => ChangeModel::Moved(a@, b@),
        }
    }
}

/// Entries as values.
pub open spec fn items_view(items: Seq<FileItem>) -> Seq<EntryModel> {
    items.map_values(|e: FileItem| e@)
}

/// The registry as a value: one model per watched root, in order.
pub open spec fn registry_view(groups: Seq<FileGroup>) -> Seq<GroupModel> {
    groups.map_values(|g: FileGroup| g@)
}

/// The list of changes as values.
pub open spec fn changes_view(changes: Seq<FileChange>) -> Seq<ChangeModel> {
    changes.map_values(|c: FileChange| c@)
}

/// A present entry at `p`.
pub open spec fn live(p: PathModel) -> EntryModel {
    EntryModel { path: p, removed: None }
}

/// `i` is the first position in `items` whose path is `p`.
pub open spec fn first_at(items: Seq<EntryModel>, p: PathModel, i: int) -> bool {
    &&& 0 <= i < items.len()
    &&& items[i].path == p
    &&& forall|k: int| 0 <= k < i ==> items[k].path != p
}

/// `items` with the first entry whose path is `p` replaced by `e`; unchanged
/// when no entry has that path.
pub open spec fn replace_first(items: Seq<EntryModel>, p: PathModel, e: EntryModel) -> Seq<
    EntryModel,
> {
    if exists|i: int| first_at(items, p, i) {
        items.update(choose|i: int| first_at(items, p, i), e)
    } else {
        items
    }
}

/// One change applied to one watched root; `arrived` says whether the
/// destination of a move lies beneath some watched root.
pub open spec fn group_step(g: GroupModel, c: ChangeModel, now: u64, arrived: bool) -> GroupModel {
    match c {
        ChangeModel::Added(p) => if is_under(g.root, p) {
            GroupModel { root: g.root, items: g.items.push(live(p)) }
        } else {
            g
        },
        ChangeModel::Removed(p) => if is_under(g.root, p) {
            GroupModel {
                root: g.root,
                items: replace_first(
                    g.items,
                    p,
                    EntryModel { path: p, removed: Some(Tombstone::At(now)) },
                ),
            }
        } else {
            g
        },
        ChangeModel::Moved(a, b) => if parent_of(a) == parent_of(b) {
            if is_under(g.root, a) {
                GroupModel { root: g.root, items: replace_first(g.items, a, live(b)) }
            } else {
                g
            }
        } else {
            let items = if is_under(g.root, b) {
                g.items.push(live(b))
            } else {
                g.items
            };
            let stamp = if arrived {
                Tombstone::Relocated(now)
            } else {
                Tombstone::At(now)
            };
            GroupModel {
                root: g.root,
                items: if is_under(g.root, a) {
                    replace_first(items, a, EntryModel { path: a, removed: Some(stamp) })
                } else {
                    items
                },
            }
        },
    }
}

/// Some watched root lies above `p`.
pub open spec fn watched(reg: Seq<GroupModel>, p: PathModel) -> bool {
    exists|i: int| 0 <= i < reg.len() && is_under(reg[i].root, p)
}

/// Whether the change moves an entry into some watched root.
pub open spec fn arrives(reg: Seq<GroupModel>, c: ChangeModel) -> bool {
    match c {
        ChangeModel::Moved(_, b) => watched(reg, b),
        _ => false,
    }
}

/// One change applied to the whole registry at time `now`.
pub open spec fn apply_change(reg: Seq<GroupModel>, c: ChangeModel, now: u64) -> Seq<GroupModel> {
    reg.map_values(|g: GroupModel| group_step(g, c, now, arrives(reg, c)))
}

/// Changes applied to the registry in order, all at time `now`.
pub open spec fn apply_changes(reg: Seq<GroupModel>, cs: Seq<ChangeModel>, now: u64) -> Seq<
    GroupModel,
>
    decreases cs.len(),
{
    if cs.len() == 0 {
        reg
    } else {
        apply_change(apply_changes(reg, cs.drop_last(), now), cs.last(), now)
    }
}

/// A removed entry whose age at `now` exceeds the retention window, or one
/// that moved to another watched root.
pub open spec fn expired(e: EntryModel, now: u64) -> bool {
    match e.removed {
        Some(Tombstone::At(t)) => now > t && now - t > RETENTION_MS,
        Some(Tombstone::Relocated(_)) => true,
        None => false,
    }
}

/// The entries that a sweep at `now` keeps.
pub open spec fn kept(items: Seq<EntryModel>, now: u64) -> Seq<EntryModel> {
    items.filter(|e: EntryModel| !expired(e, now))
}

/// The registry after a retention sweep at `now`.
pub open spec fn sweep(reg: Seq<GroupModel>, now: u64) -> Seq<GroupModel> {
    reg.map_values(|g: GroupModel| GroupModel { root: g.root, items: kept(g.items, now) })
}

/// One tick: the changes applied in order, then a sweep, all at `now`.
pub open spec fn reconcile(reg: Seq<GroupModel>, cs: Seq<ChangeModel>, now: u64) -> Seq<
    GroupModel,
> {
    sweep(apply_changes(reg, cs, now), now)
}

proof fn lemma_first_unique(items: Seq<EntryModel>, p: PathModel, i: int)
    requires
        first_at(items, p, i),
    ensures
        (choose|j: int| first_at(items, p, j)) == i,
{
    let j = choose|j: int| first_at(items, p, j);
    assert(first_at(items, p, j));
    if j < i {
        assert(items[j].path != p);
    } else if i < j {
        assert(items[i].path != p);
    }
}

/// The position of the first entry at `p`, if any.
fn find_first(items: &Vec<FileItem>, p: &FsPath) -> (r: Option<usize>)
    ensures
        match r {
            Some(i) => first_at(items_view(items@), p@, i as int),
            None => !exists|i: int| #[trigger] first_at(items_view(items@), p@, i),
        },
{
    let ghost m = items_view(items@);
    let n = items.len();
    let mut i: usize = 0;
    while i < n
        invariant
            n == items@.len(),
            m == items_view(items@),
            0 <= i <= n,
            forall|k: int| 0 <= k < i ==> m[k].path != p@,
        decreases n - i,
    {
        if items[i].path == *p {
            return Some(i);
        }
        i = i + 1;
    }
    None
}

/// Replaces, in `items`, the first entry at `p` by `e`, if there is one.
fn replace_first_item(items: &mut Vec<FileItem>, p: &FsPath, e: FileItem)
    ensures
        items_view(final(items)@) == replace_first(
            items_view(old(items)@),
            p@,
            e@,
        ),
{
    let ghost m = items_view(old(items)@);
    match find_first(items, p) {
        Some(i) => {
            proof {
                lemma_first_unique(m, p@, i as int);
            }
            items.set(i, e);
            assert(items_view(items@) =~= m.update(i as int, e@));
        },
        None => {},
    }
}

/// Applies one change to one watched root.
fn step_group(g: &mut FileGroup, change: &FileChange, now: u64, arrived: bool)
    ensures
        final(g)@ == group_step(old(g)@, change@, now, arrived),
{
    let ghost g0 = g@;
    match change {
        FileChange::Added(p) => {
            if p.starts_with(&g.root) {
                g.items.push(FileItem::new(p.clone()));
                assert(g@.items =~= g0.items.push(live(p@)));
            }
        },
        FileChange::Removed(p) => {
            if p.starts_with(&g.root) {
                replace_first_item(&mut g.items, p, FileItem { path: p.clone(), removed: Some(Tombstone::At(now)) });
            }
        },
        FileChange::Moved(from, to) => {
            if from.same_parent(to) {
                // a rename in place wins over a removal already recorded for it
                if from.starts_with(&g.root) {
                    replace_first_item(&mut g.items, from, FileItem::new(to.clone()));
                }
            } else {
                if to.starts_with(&g.root) {
                    g.items.push(FileItem::new(to.clone()));
                    assert(g@.items =~= g0.items.push(live(to@)));
                }
                let stamp = if arrived {
                    Tombstone::Relocated(now)
                } else {
                    Tombstone::At(now)
                };
                if from.starts_with(&g.root) {
                    replace_first_item(
                        &mut g.items,
                        from,
                        FileItem { path: from.clone(), removed: Some(stamp) },
                    );
                }
            }
        },
    }
}

/// Whether some watched root lies above `p`.
fn any_group_above(groups: &Vec<FileGroup>, p: &FsPath) -> (r: bool)
    ensures
        r == watched(registry_view(groups@), p@),
{
    let ghost reg = registry_view(groups@);
    let n = groups.len();
    let mut i: usize = 0;
    while i < n
        invariant
            n == groups@.len(),
            reg == registry_view(groups@),
            0 <= i <= n,
            forall|k: int| 0 <= k < i ==> !is_under(reg[k].root, p@),
        decreases n - i,
    {
        if p.starts_with(&groups[i].root) {
            assert(is_under(reg[i as int].root, p@));
            return true;
        }
        i = i + 1;
    }
    false
}

/// Applies one change to every watched root at time `now`: an addition is
/// appended to each root above it; a removal tombstones the first entry at
/// that path in each such root; a rename within one directory rewrites the
/// entry's path and clears its tombstone; a move across directories adds the
/// entry to each root above its destination and tombstones it in each root
/// above its source: as relocated, which the next sweep purges, when the
/// destination is watched, else as removed at `now`.
pub fn apply_file_change(change: &FileChange, groups: &mut Vec<FileGroup>, now: u64)
    ensures
        registry_view(final(groups)@) == apply_change(registry_view(old(groups)@), change@, now),
{
    let ghost reg = registry_view(old(groups)@);
    let arrived = match change {
        FileChange::Moved(_, to) => any_group_above(groups, to),
        _ => false,
    };
    assert(arrived == arrives(reg, change@));
    let n = groups.len();
    let mut i: usize = 0;
    while i < n
        invariant
            n == groups@.len(),
            n == reg.len(),
            arrived == arrives(reg, change@),
            0 <= i <= n,
            forall|k: int| 0 <= k < i ==> #[trigger] groups@[k]@ == group_step(reg[k], change@, now, arrived),
            forall|k: int| i <= k < n ==> #[trigger] groups@[k]@ == reg[k],
        decreases n - i,
    {
        step_group(&mut groups[i], change, now, arrived);
        i = i + 1;
    }
    assert(registry_view(groups@) =~= apply_change(reg, change@, now));
}

/// Applies the changes in order, all at time `now`.
pub fn apply_file_changes(changes: &Vec<FileChange>, groups: &mut Vec<FileGroup>, now: u64)
    ensures
        registry_view(final(groups)@) == apply_changes(
            registry_view(old(groups)@),
            changes_view(changes@),
            now,
        ),
{
    let ghost reg = registry_view(old(groups)@);
    let ghost cs = changes_view(changes@);
    let n = changes.len();
    let mut i: usize = 0;
    assert(cs.subrange(0, 0) =~= Seq::<ChangeModel>::empty());
    while i < n
        invariant
            n == changes@.len(),
            cs == changes_view(changes@),
            0 <= i <= n,
            registry_view(groups@) == apply_changes(reg, cs.subrange(0, i as int), now),
        decreases n - i,
    {
        apply_file_change(&changes[i], groups, now);
        assert(cs.subrange(0, i + 1).drop_last() =~= cs.subrange(0, i as int));
        i = i + 1;
    }
    assert(cs.subrange(0, n as int) =~= cs);
}

/// Whether a sweep at `now` purges the entry.
fn is_expired(item: &FileItem, now: u64) -> (r: bool)
    ensures
        r == expired(item@, now),
{
    match item.removed {
        Some(Tombstone::At(t)) => t < now && now - t > RETENTION_MS,
        Some(Tombstone::Relocated(_)) => true,
        None => false,
    }
}

/// Drops from `items` the entries whose tombstone has expired at `now`.
fn sweep_items(items: &mut Vec<FileItem>, now: u64)
    ensures
        items_view(final(items)@) == kept(items_view(old(items)@), now),
{
    let ghost m = items_view(old(items)@);
    let mut keep: Vec<FileItem> = Vec::new();
    let n = items.len();
    let mut i: usize = 0;
    assert(m.subrange(0, 0) =~= Seq::<EntryModel>::empty());
    while i < n
        invariant
            n == items@.len(),
            m == items_view(items@),
            0 <= i <= n,
            items_view(keep@) == kept(m.subrange(0, i as int), now),
        decreases n - i,
    {
        proof {
            reveal(Seq::filter);
        }
        assert(m.subrange(0, i + 1).drop_last() =~= m.subrange(0, i as int));
        assert(m.subrange(0, i + 1).last() == items@[i as int]@);
        if !is_expired(&items[i], now) {
            let ghost before = keep@;
            keep.push(items[i].clone());
            assert(items_view(keep@) =~= items_view(before).push(items@[i as int]@));
        }
        i = i + 1;
    }
    assert(m.subrange(0, n as int) =~= m);
    *items = keep;
}

/// Drops from one watched root the entries whose tombstone has expired.
fn sweep_group(g: &mut FileGroup, now: u64)
    ensures
        final(g)@ == (GroupModel { root: old(g)@.root, items: kept(old(g)@.items, now) }),
{
    sweep_items(&mut g.items, now);
}

/// Purges, in every watched root, the entries whose tombstone is older than
/// the retention window at `now`; present entries stay.
pub fn sweep_expired(groups: &mut Vec<FileGroup>, now: u64)
    ensures
        registry_view(final(groups)@) == sweep(registry_view(old(groups)@), now),
{
    let ghost reg = registry_view(old(groups)@);
    let n = groups.len();
    let mut i: usize = 0;
    while i < n
        invariant
            n == groups@.len(),
            n == reg.len(),
            0 <= i <= n,
            forall|k: int| 0 <= k < i ==> #[trigger] groups@[k]@ == (GroupModel { root: reg[k].root, items: kept(reg[k].items, now) }),
            forall|k: int| i <= k < n ==> #[trigger] groups@[k]@ == reg[k],
        decreases n - i,
    {
        sweep_group(&mut groups[i], now);
        i = i + 1;
    }
    assert(registry_view(groups@) =~= sweep(reg, now));
}

/// One tick at time `now`: the changes applied in order, then the sweep.
pub fn reconcile_changes(changes: &Vec<FileChange>, groups: &mut Vec<FileGroup>, now: u64)
    ensures
        registry_view(final(groups)@) == reconcile(
            registry_view(old(groups)@),
            changes_view(changes@),
            now,
        ),
{
    apply_file_changes(changes, groups, now);
    sweep_expired(groups, now);
}

#[verifier::external_type_specification]
#[verifier::external_body]
#[verifier::reject_recursive_types(T)]
pub struct ExReceiver<T>(Receiver<T>);

/// Relies on `Receiver::try_iter`: takes the events queued at the time of
/// the call, in order, without waiting for more.
#[verifier::external_body]
fn drain_queue(rx: &Receiver<FileChange>) -> Vec<FileChange> {
    rx.try_iter().collect()
}

/// Relies on `SystemTime::now`: the wall clock, in milliseconds since the
/// Unix epoch (0 for a clock set before it).
#[verifier::external_body]
fn clock_millis() -> u64 {
    match SystemTime::now().duration_since(UNIX_EPOCH) {
        Ok(d) => d.as_millis() as u64,
        Err(_) => 0,
    }
}

/// One tick: drains the events queued on `rx`, applies them in arrival
/// order at the current time, then sweeps expired tombstones.
pub fn update_file_items(rx: &Receiver<FileChange>, file_items: &mut Vec<FileGroup>)
    ensures
        exists|cs: Seq<ChangeModel>, now: u64|
            registry_view(final(file_items)@) == #[trigger] reconcile(
                registry_view(old(file_items)@),
                cs,
                now,
            ),
{
    let now = clock_millis();
    let changes = drain_queue(rx);
    reconcile_changes(&changes, file_items, now);
}

/// What the notification backend reports, reduced to the kinds that
/// matter here.
#[derive(Debug, Clone, Copy, PartialEq, Eq)]
pub enum NotificationKind {
    Create,
    Remove,
    /// A rename with both ends seen: source, then destination.
    RenameBoth,
    /// A rename whose source alone was seen: it left the watched scope.
    RenameFrom,
    /// A rename whose destination alone was seen: it entered the watched scope.
    RenameTo,
    Other,
}

/// The event that a notification of `kind` on `paths` stands for, if any.
pub open spec fn classification(kind: NotificationKind, paths: Seq<PathModel>) -> Option<ChangeModel> {
    match kind {
        NotificationKind::Create | NotificationKind::RenameTo => if paths.len() >= 1 {
            Some(ChangeModel::Added(paths[0]))
        } else {
            None
        },
        NotificationKind::Remove | NotificationKind::RenameFrom => if paths.len() >= 1 {
            Some(ChangeModel::Removed(paths[0]))
        } else {
            None
        },
        NotificationKind::RenameBoth => if paths.len() >= 2 {
            Some(ChangeModel::Moved(paths[0], paths[1]))
        } else {
            None
        },
        NotificationKind::Other => None,
    }
}

/// Paths as values.
pub open spec fn paths_view(paths: Seq<FsPath>) -> Seq<PathModel> {
    paths.map_values(|p: FsPath| p@)
}

/// Relies on `Itertools::next_tuple`: the first two items when there are at
/// least two, else none.
#[verifier::external_body]
fn first_two(paths: &Vec<FsPath>) -> (r: Option<(&FsPath, &FsPath)>)
    ensures
        paths@.len() >= 2 ==> r == Some((&paths@[0], &paths@[1])),
        paths@.len() < 2 ==> r is None,
{
    paths.iter().next_tuple()
}

/// Classifies one notification into a change event; notifications of
/// other kinds, or without the paths they need, give none.
pub fn classify(kind: NotificationKind, paths: &Vec<FsPath>) -> (r: Option<FileChange>)
    ensures
        match r {
            Some(c) => classification(kind, paths_view(paths@)) == Some(c@),
            None => classification(kind, paths_view(paths@)) is None,
        },
{
    match kind {
        NotificationKind::Create | NotificationKind::RenameTo => {
            if paths.len() >= 1 {
                Some(FileChange::Added(paths[0].clone()))
            } else {
                None
            }
        },
        NotificationKind::Remove | NotificationKind::RenameFrom => {
            if paths.len() >= 1 {
                Some(FileChange::Removed(paths[0].clone()))
            } else {
                None
            }
        },
        NotificationKind::RenameBoth => match first_two(paths) {
            Some((from, to)) => Some(FileChange::Moved(from.clone(), to.clone())),
            None => None,
        },
        NotificationKind::Other => None,
    }
}

/// What a look at one requested root found.
#[derive(Debug)]
pub enum RootScan {
    /// Nothing exists at the path, given as the user wrote it.
    Missing(String),
    /// The path, given as the user wrote it, is not a directory.
    NotADirectory(String),
    /// Listing the directory or resolving a path in it failed; the error text.
    Unreadable(String),
    /// The canonical root and the canonical paths of its immediate children.
    Listed(FsPath, Vec<FsPath>),
}

/// Why the initial registry could not be built.
#[derive(Debug, PartialEq, Eq)]
pub enum InitError {
    /// A requested path does not exist.
    NotFound(String),
    /// A requested path is not a directory.
    NotADirectory(String),
    /// Reading a requested directory failed.
    Io(String),
}

/// A scan that fails validation: the path is missing or no directory.
pub open spec fn invalid(s: RootScan) -> bool {
    s is Missing || s is NotADirectory
}

/// The error that a failed scan reports.
pub open spec fn scan_error(s: RootScan) -> InitError {
    match s {
        RootScan::Missing(p) => InitError::NotFound(p),
        RootScan::NotADirectory(p) => InitError::NotADirectory(p),
        RootScan::Unreadable(m) => InitError::Io(m),
        RootScan::Listed(_, _) => arbitrary(),
    }
}

/// `i` is the first scan that fails validation.
pub open spec fn first_invalid(scans: Seq<RootScan>, i: int) -> bool {
    &&& 0 <= i < scans.len()
    &&& invalid(scans[i])
    &&& forall|k: int| 0 <= k < i ==> !invalid(#[trigger] scans[k])
}

/// `i` is the first scan that is not a listing.
pub open spec fn first_unlisted(scans: Seq<RootScan>, i: int) -> bool {
    &&& 0 <= i < scans.len()
    &&& !(scans[i] is Listed)
    &&& forall|k: int| 0 <= k < i ==> #[trigger] scans[k] is Listed
}

/// Present entries at each of `ps`, in order.
pub open spec fn live_all(ps: Seq<PathModel>) -> Seq<EntryModel> {
    ps.map_values(|p: PathModel| live(p))
}

/// The watched root that a listing gives: its children, all present.
pub open spec fn group_of(s: RootScan) -> GroupModel {
    match s {
        RootScan::Listed(root, children) => GroupModel {
            root: root@,
            items: live_all(paths_view(children@)),
        },
        _ => GroupModel { root: Seq::empty(), items: Seq::empty() },
    }
}

/// The group for one listing, entries in the listing's order.
fn build_group(root: &FsPath, children: &Vec<FsPath>) -> (r: FileGroup)
    ensures
        r@ == (GroupModel { root: root@, items: live_all(paths_view(children@)) }),
{
    let ghost ps = paths_view(children@);
    let mut items: Vec<FileItem> = Vec::new();
    let n = children.len();
    let mut j: usize = 0;
    while j < n
        invariant
            n == children@.len(),
            ps == paths_view(children@),
            0 <= j <= n,
            items_view(items@) == live_all(ps.subrange(0, j as int)),
        decreases n - j,
    {
        let ghost before = items@;
        items.push(FileItem::new(children[j].clone()));
        assert(items_view(items@) =~= items_view(before).push(live(ps[j as int])));
        assert(live_all(ps.subrange(0, j + 1)) =~= live_all(ps.subrange(0, j as int)).push(
            live(ps[j as int]),
        ));
        j = j + 1;
    }
    assert(ps.subrange(0, n as int) =~= ps);
    FileGroup { root: root.clone(), items }
}

/// Builds the registry from one scan per requested root, in order. The
/// first root that is missing or no directory fails the whole build, before
/// any read error counts; then the first read error does; else each listing
/// becomes a watched root holding its children, all present.
pub fn get_initial_state(scans: Vec<RootScan>) -> (r: Result<Vec<FileGroup>, InitError>)
    ensures
        forall|i: int| first_invalid(scans@, i) ==> r == Err::<Vec<FileGroup>, InitError>(scan_error(scans@[i])),
        (forall|k: int| 0 <= k < scans@.len() ==> !invalid(#[trigger] scans@[k])) ==> forall|i: int|
            first_unlisted(scans@, i) ==> r == Err::<Vec<FileGroup>, InitError>(scan_error(scans@[i])),
        (forall|k: int| 0 <= k < scans@.len() ==> #[trigger] scans@[k] is Listed) ==> match r {
            Ok(groups) => registry_view(groups@) == scans@.map_values(|s: RootScan| group_of(s)),
            Err(_) => false,
        },
{
    let n = scans.len();
    let mut i: usize = 0;
    while i < n
        invariant
            n == scans@.len(),
            0 <= i <= n,
            forall|k: int| 0 <= k < i ==> !invalid(#[trigger] scans@[k]),
        decreases n - i,
    {
        match &scans[i] {
            RootScan::Missing(p) => {
                assert(first_invalid(scans@, i as int));
                return Err(InitError::NotFound(p.clone()));
            },
            RootScan::NotADirectory(p) => {
                assert(first_invalid(scans@, i as int));
                return Err(InitError::NotADirectory(p.clone()));
            },
            _ => {},
        }
        i = i + 1;
    }
    let ghost want = scans@.map_values(|s: RootScan| group_of(s));
    let mut groups: Vec<FileGroup> = Vec::new();
    let mut i: usize = 0;
    while i < n
        invariant
            n == scans@.len(),
            want == scans@.map_values(|s: RootScan| group_of(s)),
            0 <= i <= n,
            forall|k: int| 0 <= k < n ==> !invalid(#[trigger] scans@[k]),
            forall|k: int| 0 <= k < i ==> #[trigger] scans@[k] is Listed,
            registry_view(groups@) == want.subrange(0, i as int),
        decreases n - i,
    {
        match &scans[i] {
            RootScan::Listed(root, children) => {
                let ghost before = groups@;
                groups.push(build_group(root, children));
                assert(registry_view(groups@) =~= registry_view(before).push(want[i as int]));
                assert(want.subrange(0, i + 1) =~= want.subrange(0, i as int).push(want[i as int]));
            },
            RootScan::Unreadable(m) => {
                assert(first_unlisted(scans@, i as int));
                return Err(InitError::Io(m.clone()));
            },
            _ => {
                assert(invalid(scans@[i as int]));
                return Err(InitError::Io(String::new()));
            },
        }
        i = i + 1;
    }
    assert(want.subrange(0, n as int) =~= want);
    Ok(groups)
}

} // verus!
