//! The decisions of a run: which files are transferred and which deleted.
//!
//! Both sides are first folded into maps under zone-rooted keys, without
//! directories and without excluded names. A push run holds the local map
//! against the remote one, a pull run the remote against the local.

use vstd::prelude::*;
use vstd::string::StringExecFns;
use crate::exclude::{excluded, is_excluded, usable_patterns};
use crate::filemap::{has_key, lookup, put, FileMap};
use crate::model::{LocalFile, StorageObject, Timestamp};
use crate::paths::{
    first_segment, get_path, is_zone, leaf_name, local_key, local_path, strip_zone_prefix,
    sync_key, without_scheme, zone_name, zone_scheme,
};
use crate::text::has_prefix;

verus! {

/// Whether a local node takes part in a run: a file whose name no pattern
/// excludes.
pub open spec fn local_kept(file: LocalFile, exclude: Seq<String>) -> bool {
    !file.is_directory && !excluded(file.name(), exclude)
}

/// Whether a remote entry takes part in a run: an object whose name no
/// pattern excludes.
pub open spec fn remote_kept(object: StorageObject, exclude: Seq<String>) -> bool {
    !object.is_directory && !excluded(object.object_name@, exclude)
}

/// The local side of a run: the kept files of `files` under their keys in
/// the zone `zone`.
pub open spec fn local_entries(files: Seq<LocalFile>, zone: Seq<char>, exclude: Seq<String>) -> Seq<
    (Seq<char>, LocalFile),
>
    decreases files.len(),
{
    if files.len() == 0 {
        Seq::empty()
    } else {
        let before = local_entries(files.drop_last(), zone, exclude);
        let file = files.last();
        if local_kept(file, exclude) {
            put(before, local_key(zone, file.relative_path@), file)
        } else {
            before
        }
    }
}

/// The remote side of a run: the kept objects of `objects` under their
/// keys.
pub open spec fn remote_entries(objects: Seq<StorageObject>, exclude: Seq<String>) -> Seq<
    (Seq<char>, StorageObject),
>
    decreases objects.len(),
{
    if objects.len() == 0 {
        Seq::empty()
    } else {
        let before = remote_entries(objects.drop_last(), exclude);
        let object = objects.last();
        if remote_kept(object, exclude) {
            put(before, object.key(), object)
        } else {
            before
        }
    }
}

/// Every node of `files` has a name that can be held against patterns.
pub open spec fn local_nameable(files: Seq<LocalFile>) -> bool {
    forall|i: int| 0 <= i < files.len() ==> (#[trigger] files[i]).nameable()
}

/// Every entry of `objects` has a name that can be held against patterns.
pub open spec fn remote_nameable(objects: Seq<StorageObject>) -> bool {
    forall|i: int| 0 <= i < objects.len() ==> (#[trigger] objects[i]).nameable()
}

/// Folds a listing of the local tree into the map of a run: files only,
/// without excluded names, each under its key in the zone `zone_name`.
pub fn get_local_file_map(local_files: &[LocalFile], zone_name: &str, exclude: &[String]) -> (r:
    FileMap<LocalFile>)
    requires
        local_nameable(local_files@),
        usable_patterns(exclude@),
    ensures
        r.wf(),
        r.entries() == local_entries(local_files@, zone_name@, exclude@),
{
    let mut map: FileMap<LocalFile> = FileMap::new();
    let mut i: usize = 0;
    while i < local_files.len()
        invariant
            i <= local_files@.len(),
            local_nameable(local_files@),
            usable_patterns(exclude@),
            map.wf(),
            map.entries() == local_entries(local_files@.take(i as int), zone_name@, exclude@),
        decreases local_files.len() - i,
    {
        let file = &local_files[i];
        proof {
            let upto = local_files@.take(i as int + 1);
            assert(upto.drop_last() =~= local_files@.take(i as int));
            assert(upto.last() == local_files@[i as int]);
            assert(local_files@[i as int].nameable());
        }
        if !file.is_directory {
            let name = leaf_name(file.path.as_str());
            if !is_excluded(name.as_str(), exclude) {
                let key = sync_key(zone_name, file.relative_path.as_str());
                map.insert(key, file.copy());
            }
        }
        i += 1;
    }
    proof {
        assert(local_files@.take(i as int) =~= local_files@);
    }
    map
}

/// Folds a listing of the zone into the map of a run: objects only,
/// without excluded names, each under its key.
pub fn get_remote_file_map(remote_files: &[StorageObject], exclude: &[String]) -> (r: FileMap<
    StorageObject,
>)
    requires
        remote_nameable(remote_files@),
        usable_patterns(exclude@),
    ensures
        r.wf(),
        r.entries() == remote_entries(remote_files@, exclude@),
{
    let mut map: FileMap<StorageObject> = FileMap::new();
    let mut i: usize = 0;
    while i < remote_files.len()
        invariant
            i <= remote_files@.len(),
            remote_nameable(remote_files@),
            usable_patterns(exclude@),
            map.wf(),
            map.entries() == remote_entries(remote_files@.take(i as int), exclude@),
        decreases remote_files.len() - i,
    {
        let object = &remote_files[i];
        proof {
            let upto = remote_files@.take(i as int + 1);
            assert(upto.drop_last() =~= remote_files@.take(i as int));
            assert(upto.last() == remote_files@[i as int]);
            assert(remote_files@[i as int].nameable());
        }
        if !object.is_directory {
            if !is_excluded(object.object_name.as_str(), exclude) {
                let key = object.sync_key();
                map.insert(key, object.copy());
            }
        }
        i += 1;
    }
    proof {
        assert(remote_files@.take(i as int) =~= remote_files@);
    }
    map
}

/// The way a transfer goes.
#[derive(Clone, Copy, Debug, PartialEq, Eq, Structural)]
pub enum Direction {
    /// From the local tree to the zone.
    Push,
    /// From the zone to the local tree.
    Pull,
}

/// The side on which something is deleted.
#[derive(Clone, Copy, Debug, PartialEq, Eq, Structural)]
pub enum Side {
    Local,
    Remote,
}

/// The way of a run, from its two arguments: a push where only the
/// destination names a zone, a pull where only the source does, and none
/// where both or neither do.
pub open spec fn direction_between(source: Seq<char>, destination: Seq<char>) -> Option<Direction> {
    let from_zone = has_prefix(source, zone_scheme());
    let to_zone = has_prefix(destination, zone_scheme());
    if !from_zone && to_zone {
        Some(Direction::Push)
    } else if from_zone && !to_zone {
        Some(Direction::Pull)
    } else {
        None
    }
}

/// The way of the run that brings `source` to `destination`; `None` where
/// the two do not make a run.
pub fn direction_of(source: &str, destination: &str) -> (r: Option<Direction>)
    ensures
        r == direction_between(source@, destination@),
{
    let from_zone = is_zone(source);
    let to_zone = is_zone(destination);
    if !from_zone && to_zone {
        Some(Direction::Push)
    } else if from_zone && !to_zone {
        Some(Direction::Pull)
    } else {
        None
    }
}

/// One decision of a run. An entry that is left alone has none.
#[derive(Clone, Debug, PartialEq, Eq)]
pub enum SyncAction {
    /// Bring the bytes at `source` to `destination`. For a push `source` is
    /// a local path and `destination` a remote one, for a pull the other
    /// way round.
    Transfer { direction: Direction, key: String, source: String, destination: String },
    /// Delete what is at `path` on the side `side`.
    Delete { side: Side, key: String, path: String },
}

/// A decision over plain sequences of characters.
pub enum ActionView {
    Transfer { direction: Direction, key: Seq<char>, source: Seq<char>, destination: Seq<char> },
    Delete { side: Side, key: Seq<char>, path: Seq<char> },
}

impl View for SyncAction {
    type V = ActionView;

    open spec fn view(&self) -> ActionView {
        match *self {
            SyncAction::Transfer { direction, key, source, destination } => ActionView::Transfer {
                direction,
                key: key@,
                source: source@,
                destination: destination@,
            },
            SyncAction::Delete { side, key, path } => ActionView::Delete {
                side,
                key: key@,
                path: path@,
            },
        }
    }
}

impl SyncAction {
    /// A copy of the decision.
    pub fn copy(&self) -> (r: SyncAction)
        ensures
            r == *self,
    {
        match self {
            SyncAction::Transfer { direction, key, source, destination } => SyncAction::Transfer {
                direction: *direction,
                key: key.clone(),
                source: source.clone(),
                destination: destination.clone(),
            },
            SyncAction::Delete { side, key, path } => SyncAction::Delete {
                side: *side,
                key: key.clone(),
                path: path.clone(),
            },
        }
    }
}

impl ActionView {
    /// The key that the decision is about.
    pub open spec fn key(self) -> Seq<char> {
        match self {
            ActionView::Transfer { key, .. } => key,
            ActionView::Delete { key, .. } => key,
        }
    }
}

/// The decisions of `actions` over plain sequences.
pub open spec fn action_views(actions: Seq<SyncAction>) -> Seq<ActionView> {
    actions.map_values(|a: SyncAction| a@)
}

/// Whether a destination counts as up to date with its source: it is no
/// older, and it has the same size. What the two hold is not looked at.
pub open spec fn in_sync(
    source_changed: Timestamp,
    source_length: u64,
    destination_changed: Timestamp,
    destination_length: u64,
) -> bool {
    source_changed.at_or_before(destination_changed) && source_length == destination_length
}

/// Whether a push has to send `file`, which stands under `key`: unless the
/// zone has an object under the key that is up to date with it.
pub open spec fn push_needed(
    key: Seq<char>,
    file: LocalFile,
    remote: Seq<(Seq<char>, StorageObject)>,
) -> bool {
    match lookup(remote, key) {
        Some(object) => !in_sync(
            file.last_changed,
            file.length,
            object.last_changed,
            object.length,
        ),
        None => true,
    }
}

/// Whether a pull has to fetch `object`, which stands under `key`: unless
/// the local tree has a file under the key that is up to date with it.
pub open spec fn pull_needed(
    key: Seq<char>,
    object: StorageObject,
    local: Seq<(Seq<char>, LocalFile)>,
) -> bool {
    match lookup(local, key) {
        Some(file) => !in_sync(
            object.last_changed,
            object.length,
            file.last_changed,
            file.length,
        ),
        None => true,
    }
}

/// The upload of `file` to the remote path `destination`.
pub open spec fn upload(key: Seq<char>, file: LocalFile, destination: Seq<char>) -> ActionView {
    ActionView::Transfer { direction: Direction::Push, key, source: file.path@, destination }
}

/// The download of `object` to its place below the directory `base`.
pub open spec fn download(
    key: Seq<char>,
    object: StorageObject,
    base: Seq<char>,
    zone: Seq<char>,
) -> ActionView {
    ActionView::Transfer {
        direction: Direction::Pull,
        key,
        source: object.download_path(),
        destination: local_path(base, zone, key),
    }
}

/// The uploads of a push, in the order of the local map. Every one of them
/// goes to the one remote path `destination`.
pub open spec fn push_transfers(
    local: Seq<(Seq<char>, LocalFile)>,
    remote: Seq<(Seq<char>, StorageObject)>,
    destination: Seq<char>,
) -> Seq<ActionView>
    decreases local.len(),
{
    if local.len() == 0 {
        Seq::empty()
    } else {
        let before = push_transfers(local.drop_last(), remote, destination);
        let (key, file) = local.last();
        if push_needed(key, file, remote) {
            before.push(upload(key, file, destination))
        } else {
            before
        }
    }
}

/// The deletions of a push with the delete flag: the remote objects whose
/// key the local map lacks, in the order of the remote map.
pub open spec fn push_deletes(
    local: Seq<(Seq<char>, LocalFile)>,
    remote: Seq<(Seq<char>, StorageObject)>,
) -> Seq<ActionView>
    decreases remote.len(),
{
    if remote.len() == 0 {
        Seq::empty()
    } else {
        let before = push_deletes(local, remote.drop_last());
        let key = remote.last().0;
        if has_key(local, key) {
            before
        } else {
            before.push(ActionView::Delete { side: Side::Remote, key, path: key })
        }
    }
}

/// The decisions of a push: the uploads, then the deletions if `delete` is
/// set.
pub open spec fn push_plan(
    local: Seq<(Seq<char>, LocalFile)>,
    remote: Seq<(Seq<char>, StorageObject)>,
    destination: Seq<char>,
    delete: bool,
) -> Seq<ActionView> {
    if delete {
        push_transfers(local, remote, destination) + push_deletes(local, remote)
    } else {
        push_transfers(local, remote, destination)
    }
}

/// The downloads of a pull, in the order of the remote map.
pub open spec fn pull_transfers(
    local: Seq<(Seq<char>, LocalFile)>,
    remote: Seq<(Seq<char>, StorageObject)>,
    base: Seq<char>,
    zone: Seq<char>,
) -> Seq<ActionView>
    decreases remote.len(),
{
    if remote.len() == 0 {
        Seq::empty()
    } else {
        let before = pull_transfers(local, remote.drop_last(), base, zone);
        let (key, object) = remote.last();
        if pull_needed(key, object, local) {
            before.push(download(key, object, base, zone))
        } else {
            before
        }
    }
}

/// The deletions of a pull with the delete flag: the local files whose key
/// the remote map lacks, in the order of the local map.
pub open spec fn pull_deletes(
    local: Seq<(Seq<char>, LocalFile)>,
    remote: Seq<(Seq<char>, StorageObject)>,
) -> Seq<ActionView>
    decreases local.len(),
{
    if local.len() == 0 {
        Seq::empty()
    } else {
        let before = pull_deletes(local.drop_last(), remote);
        let (key, file) = local.last();
        if has_key(remote, key) {
            before
        } else {
            before.push(ActionView::Delete { side: Side::Local, key, path: file.path@ })
        }
    }
}

/// The decisions of a pull: the downloads, then the deletions if `delete`
/// is set.
pub open spec fn pull_plan(
    local: Seq<(Seq<char>, LocalFile)>,
    remote: Seq<(Seq<char>, StorageObject)>,
    base: Seq<char>,
    zone: Seq<char>,
    delete: bool,
) -> Seq<ActionView> {
    if delete {
        pull_transfers(local, remote, base, zone) + pull_deletes(local, remote)
    } else {
        pull_transfers(local, remote, base, zone)
    }
}

/// Whether `destination` counts as up to date with `source`.
pub fn is_in_sync(
    source_changed: &Timestamp,
    source_length: u64,
    destination_changed: &Timestamp,
    destination_length: u64,
) -> (r: bool)
    ensures
        r == in_sync(*source_changed, source_length, *destination_changed, destination_length),
{
    source_changed.is_at_or_before(destination_changed) && source_length == destination_length
}

/// The decisions of a push run from the two maps.
///
/// A local file is uploaded unless the zone holds an object under its key
/// that is no older and has the same size. Every upload goes to the remote
/// path `destination`. With `delete`, each remote object whose key the
/// local map lacks is deleted, after the uploads.
pub fn plan_push(
    local: &FileMap<LocalFile>,
    remote: &FileMap<StorageObject>,
    destination: &str,
    delete: bool,
) -> (plan: Vec<SyncAction>)
    requires
        local.wf(),
        remote.wf(),
    ensures
        action_views(plan@) == push_plan(local.entries(), remote.entries(), destination@, delete),
{
    let mut plan: Vec<SyncAction> = Vec::new();
    let mut i: usize = 0;
    proof {
        assert(action_views(plan@) =~= Seq::empty());
    }
    while i < local.len()
        invariant
            local.wf(),
            remote.wf(),
            i <= local.entries().len(),
            action_views(plan@) == push_transfers(
                local.entries().take(i as int),
                remote.entries(),
                destination@,
            ),
        decreases local.entries().len() - i,
    {
        let key = local.key(i);
        let file = local.value(i);
        proof {
            let upto = local.entries().take(i as int + 1);
            assert(upto.drop_last() =~= local.entries().take(i as int));
            assert(upto.last() == local.entries()[i as int]);
        }
        let needed = match remote.get(key) {
            Some(object) => !is_in_sync(
                &file.last_changed,
                file.length,
                &object.last_changed,
                object.length,
            ),
            None => true,
        };
        if needed {
            let ghost before = plan@;
            plan.push(
                SyncAction::Transfer {
                    direction: Direction::Push,
                    key: key.clone(),
                    source: file.path.clone(),
                    destination: String::from_str(destination),
                },
            );
            proof {
                assert(action_views(plan@) =~= action_views(before).push(
                    upload(key@, *file, destination@),
                ));
            }
        }
        i += 1;
    }
    proof {
        assert(local.entries().take(i as int) =~= local.entries());
    }
    if delete {
        let ghost uploads = action_views(plan@);
        let mut j: usize = 0;
        proof {
            assert(uploads + Seq::<ActionView>::empty() =~= uploads);
        }
        while j < remote.len()
            invariant
                local.wf(),
                remote.wf(),
                j <= remote.entries().len(),
                action_views(plan@) == uploads + push_deletes(
                    local.entries(),
                    remote.entries().take(j as int),
                ),
            decreases remote.entries().len() - j,
        {
            let key = remote.key(j);
            proof {
                let upto = remote.entries().take(j as int + 1);
                assert(upto.drop_last() =~= remote.entries().take(j as int));
                assert(upto.last() == remote.entries()[j as int]);
            }
            if !local.contains_key(key) {
                let ghost before = plan@;
                plan.push(
                    SyncAction::Delete { side: Side::Remote, key: key.clone(), path: key.clone() },
                );
                proof {
                    assert(action_views(plan@) =~= action_views(before).push(
                        ActionView::Delete { side: Side::Remote, key: key@, path: key@ },
                    ));
                    assert(action_views(plan@) =~= uploads + push_deletes(
                        local.entries(),
                        remote.entries().take(j as int + 1),
                    ));
                }
            }
            j += 1;
        }
        proof {
            assert(remote.entries().take(j as int) =~= remote.entries());
        }
    }
    plan
}

/// The decisions of a pull run from the two maps.
///
/// A remote object is downloaded unless the local tree holds a file under
/// its key that is no older and has the same size; it goes to its place
/// below the directory `local_base`. With `delete`, each local file whose
/// key the remote map lacks is deleted, after the downloads.
pub fn plan_pull(
    local: &FileMap<LocalFile>,
    remote: &FileMap<StorageObject>,
    local_base: &str,
    zone: &str,
    delete: bool,
) -> (plan: Vec<SyncAction>)
    requires
        local.wf(),
        remote.wf(),
    ensures
        action_views(plan@) == pull_plan(
            local.entries(),
            remote.entries(),
            local_base@,
            zone@,
            delete,
        ),
{
    let mut plan: Vec<SyncAction> = Vec::new();
    let mut i: usize = 0;
    proof {
        assert(action_views(plan@) =~= Seq::empty());
    }
    while i < remote.len()
        invariant
            local.wf(),
            remote.wf(),
            i <= remote.entries().len(),
            action_views(plan@) == pull_transfers(
                local.entries(),
                remote.entries().take(i as int),
                local_base@,
                zone@,
            ),
        decreases remote.entries().len() - i,
    {
        let key = remote.key(i);
        let object = remote.value(i);
        proof {
            let upto = remote.entries().take(i as int + 1);
            assert(upto.drop_last() =~= remote.entries().take(i as int));
            assert(upto.last() == remote.entries()[i as int]);
        }
        let needed = match local.get(key) {
            Some(file) => !is_in_sync(
                &object.last_changed,
                object.length,
                &file.last_changed,
                file.length,
            ),
            None => true,
        };
        if needed {
            let ghost before = plan@;
            plan.push(
                SyncAction::Transfer {
                    direction: Direction::Pull,
                    key: key.clone(),
                    source: object.object_path(),
                    destination: get_path(local_base, zone, key.as_str()),
                },
            );
            proof {
                assert(action_views(plan@) =~= action_views(before).push(
                    download(key@, *object, local_base@, zone@),
                ));
            }
        }
        i += 1;
    }
    proof {
        assert(remote.entries().take(i as int) =~= remote.entries());
    }
    if delete {
        let ghost downloads = action_views(plan@);
        let mut j: usize = 0;
        proof {
            assert(downloads + Seq::<ActionView>::empty() =~= downloads);
        }
        while j < local.len()
            invariant
                local.wf(),
                remote.wf(),
                j <= local.entries().len(),
                action_views(plan@) == downloads + pull_deletes(
                    local.entries().take(j as int),
                    remote.entries(),
                ),
            decreases local.entries().len() - j,
        {
            let key = local.key(j);
            let file = local.value(j);
            proof {
                let upto = local.entries().take(j as int + 1);
                assert(upto.drop_last() =~= local.entries().take(j as int));
                assert(upto.last() == local.entries()[j as int]);
            }
            if !remote.contains_key(key) {
                let ghost before = plan@;
                plan.push(
                    SyncAction::Delete {
                        side: Side::Local,
                        key: key.clone(),
                        path: file.path.clone(),
                    },
                );
                proof {
                    assert(action_views(plan@) =~= action_views(before).push(
                        ActionView::Delete { side: Side::Local, key: key@, path: file.path@ },
                    ));
                    assert(action_views(plan@) =~= downloads + pull_deletes(
                        local.entries().take(j as int + 1),
                        remote.entries(),
                    ));
                }
            }
            j += 1;
        }
        proof {
            assert(local.entries().take(j as int) =~= local.entries());
        }
    }
    plan
}

/// The line that reports a decision: what was done, or with `dry_run` what
/// would have been.
pub open spec fn report_line(action: ActionView, dry_run: bool) -> Seq<char> {
    match action {
        ActionView::Transfer { direction: Direction::Push, source, .. } => (if dry_run {
            "Would update: "@
        } else {
            "Updated: "@
        }) + source,
        ActionView::Transfer { direction: Direction::Pull, key, destination, .. } => (if dry_run {
            "Would update: "@
        } else {
            "Updated: "@
        }) + key + " -> "@ + destination,
        ActionView::Delete { key, .. } => (if dry_run {
            "Would delete: "@
        } else {
            "Deleted: "@
        }) + key,
    }
}

/// The line that reports `action`: what was done, or with `dry_run` what
/// would have been.
pub fn describe(action: &SyncAction, dry_run: bool) -> (r: String)
    ensures
        r@ == report_line(action@, dry_run),
{
    match action {
        SyncAction::Transfer { direction, key, source, destination } => {
            let mut out = if dry_run {
                String::from_str("Would update: ")
            } else {
                String::from_str("Updated: ")
            };
            match direction {
                Direction::Push => {
                    out.append(source.as_str());
                },
                Direction::Pull => {
                    out.append(key.as_str());
                    out.append(" -> ");
                    out.append(destination.as_str());
                },
            }
            out
        },
        SyncAction::Delete { side, key, path } => {
            let mut out = if dry_run {
                String::from_str("Would delete: ")
            } else {
                String::from_str("Deleted: ")
            };
            out.append(key.as_str());
            out
        },
    }
}

/// One decision of a run together with how the run treats it.
#[derive(Clone, Debug, PartialEq, Eq)]
pub struct Step {
    pub action: SyncAction,
    /// Whether the action is carried out. In a dry run none is.
    pub perform: bool,
    /// The line that reports the step.
    pub report: String,
}

/// A step over plain sequences of characters.
pub struct StepView {
    pub action: ActionView,
    pub perform: bool,
    pub report: Seq<char>,
}

impl View for Step {
    type V = StepView;

    open spec fn view(&self) -> StepView {
        StepView { action: self.action@, perform: self.perform, report: self.report@ }
    }
}

/// The steps of `steps` over plain sequences.
pub open spec fn step_views(steps: Seq<Step>) -> Seq<StepView> {
    steps.map_values(|s: Step| s@)
}

/// The step that a run makes of one decision.
pub open spec fn step_of(action: ActionView, dry_run: bool) -> StepView {
    StepView { action, perform: !dry_run, report: report_line(action, dry_run) }
}

/// The steps that a run makes of its decisions, in their order.
pub open spec fn steps_of(plan: Seq<ActionView>, dry_run: bool) -> Seq<StepView> {
    plan.map_values(|a: ActionView| step_of(a, dry_run))
}

/// Turns the decisions of a run into its steps: each with its report
/// line, and carried out unless the run is a dry one.
pub fn steps(plan: &[SyncAction], dry_run: bool) -> (r: Vec<Step>)
    ensures
        step_views(r@) == steps_of(action_views(plan@), dry_run),
{
    let mut out: Vec<Step> = Vec::new();
    let mut i: usize = 0;
    while i < plan.len()
        invariant
            i <= plan@.len(),
            out@.len() == i,
            forall|k: int| 0 <= k < i ==> (#[trigger] out@[k])@ == step_of(plan@[k]@, dry_run),
        decreases plan.len() - i,
    {
        let action = plan[i].copy();
        let report = describe(&action, dry_run);
        out.push(Step { action, perform: !dry_run, report });
        i += 1;
    }
    proof {
        assert(step_views(out@) =~= steps_of(action_views(plan@), dry_run));
    }
    out
}

/// The steps of a push run: the local tree `local_files` is brought to the
/// zone that `remote` names, whose present content is `remote_files`.
///
/// `remote` is the destination as it was given, with or without the
/// `zone://` marker; its first segment is the zone. Directories and
/// excluded names take no part. The decisions are those of `plan_push`,
/// with the destination without its marker as the target of every upload;
/// they are the same for a dry run, which carries none of them out.
pub fn sync_to_remote(
    local_files: &[LocalFile],
    remote_files: &[StorageObject],
    remote: &str,
    dry_run: bool,
    delete: bool,
    exclude: &[String],
) -> (r: Vec<Step>)
    requires
        local_nameable(local_files@),
        remote_nameable(remote_files@),
        usable_patterns(exclude@),
    ensures
        step_views(r@) == push_steps(
            local_files@,
            remote_files@,
            remote@,
            dry_run,
            delete,
            exclude@,
        ),
{
    let remote = strip_zone_prefix(remote);
    let zone = zone_name(remote);
    let remote_map = get_remote_file_map(remote_files, exclude);
    let local_map = get_local_file_map(local_files, zone.as_str(), exclude);
    let plan = plan_push(&local_map, &remote_map, remote, delete);
    steps(plan.as_slice(), dry_run)
}

/// The steps of a push run, from the listings of the two sides.
pub open spec fn push_steps(
    local_files: Seq<LocalFile>,
    remote_files: Seq<StorageObject>,
    remote: Seq<char>,
    dry_run: bool,
    delete: bool,
    exclude: Seq<String>,
) -> Seq<StepView> {
    let destination = without_scheme(remote);
    let zone = first_segment(destination);
    steps_of(
        push_plan(
            local_entries(local_files, zone, exclude),
            remote_entries(remote_files, exclude),
            destination,
            delete,
        ),
        dry_run,
    )
}

/// The steps of a pull run, from the listings of the two sides.
pub open spec fn pull_steps(
    local_files: Seq<LocalFile>,
    remote_files: Seq<StorageObject>,
    local: Seq<char>,
    remote: Seq<char>,
    dry_run: bool,
    delete: bool,
    exclude: Seq<String>,
) -> Seq<StepView> {
    let zone = first_segment(without_scheme(remote));
    steps_of(
        pull_plan(
            local_entries(local_files, zone, exclude),
            remote_entries(remote_files, exclude),
            local,
            zone,
            delete,
        ),
        dry_run,
    )
}

/// The steps of a pull run: the zone that `remote` names, whose present
/// content is `remote_files`, is brought to the directory `local`, whose
/// present content is `local_files`.
///
/// `remote` is the source as it was given, with or without the `zone://`
/// marker; its first segment is the zone. Directories and excluded names
/// take no part. The decisions are those of `plan_pull`; they are the same
/// for a dry run, which carries none of them out.
pub fn sync_to_local(
    local_files: &[LocalFile],
    remote_files: &[StorageObject],
    local: &str,
    remote: &str,
    dry_run: bool,
    delete: bool,
    exclude: &[String],
) -> (r: Vec<Step>)
    requires
        local_nameable(local_files@),
        remote_nameable(remote_files@),
        usable_patterns(exclude@),
    ensures
        step_views(r@) == pull_steps(
            local_files@,
            remote_files@,
            local@,
            remote@,
            dry_run,
            delete,
            exclude@,
        ),
{
    let remote = strip_zone_prefix(remote);
    let zone = zone_name(remote);
    let remote_map = get_remote_file_map(remote_files, exclude);
    let local_map = get_local_file_map(local_files, zone.as_str(), exclude);
    let plan = plan_pull(&local_map, &remote_map, local, zone.as_str(), delete);
    steps(plan.as_slice(), dry_run)
}

} // verus!
