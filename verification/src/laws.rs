//! What holds of every run, proved from the definitions of the decisions.

use vstd::prelude::*;
use crate::filemap::{distinct_keys, has_key, lemma_index_of_key, lemma_put, lookup};
use crate::model::{LocalFile, StorageObject, Timestamp};
use crate::sync::{
    in_sync, local_entries, local_kept, pull_deletes, pull_needed, pull_plan, pull_steps,
    pull_transfers, push_deletes, push_needed, push_plan, push_steps, push_transfers,
    remote_entries, remote_kept, steps_of, ActionView, Direction, Side, StepView,
};

verus! {

/// In the map of the local side no key occurs twice.
pub proof fn lemma_local_entries_distinct(
    files: Seq<LocalFile>,
    zone: Seq<char>,
    exclude: Seq<String>,
)
    ensures
        distinct_keys(local_entries(files, zone, exclude)),
    decreases files.len(),
{
    if files.len() > 0 {
        lemma_local_entries_distinct(files.drop_last(), zone, exclude);
        let before = local_entries(files.drop_last(), zone, exclude);
        let file = files.last();
        lemma_put(before, crate::paths::local_key(zone, file.relative_path@), file);
    }
}

/// In the map of the remote side no key occurs twice.
pub proof fn lemma_remote_entries_distinct(objects: Seq<StorageObject>, exclude: Seq<String>)
    ensures
        distinct_keys(remote_entries(objects, exclude)),
    decreases objects.len(),
{
    if objects.len() > 0 {
        lemma_remote_entries_distinct(objects.drop_last(), exclude);
        let before = remote_entries(objects.drop_last(), exclude);
        let object = objects.last();
        lemma_put(before, object.key(), object);
    }
}

/// Every value of the local map is a kept file of the listing: no
/// directory and no excluded name gets in.
pub proof fn lemma_local_entries_kept(files: Seq<LocalFile>, zone: Seq<char>, exclude: Seq<String>)
    ensures
        forall|i: int|
            0 <= i < local_entries(files, zone, exclude).len() ==> local_kept(
                (#[trigger] local_entries(files, zone, exclude)[i]).1,
                exclude,
            ),
    decreases files.len(),
{
    if files.len() > 0 {
        lemma_local_entries_kept(files.drop_last(), zone, exclude);
        let before = local_entries(files.drop_last(), zone, exclude);
        let file = files.last();
        lemma_index_of_key(before, crate::paths::local_key(zone, file.relative_path@));
    }
}

/// Every value of the remote map is a kept object of the listing: no
/// pseudo-directory and no excluded name gets in.
pub proof fn lemma_remote_entries_kept(objects: Seq<StorageObject>, exclude: Seq<String>)
    ensures
        forall|i: int|
            0 <= i < remote_entries(objects, exclude).len() ==> remote_kept(
                (#[trigger] remote_entries(objects, exclude)[i]).1,
                exclude,
            ),
    decreases objects.len(),
{
    if objects.len() > 0 {
        lemma_remote_entries_kept(objects.drop_last(), exclude);
        let before = remote_entries(objects.drop_last(), exclude);
        let object = objects.last();
        lemma_index_of_key(before, object.key());
    }
}

/// A destination that is up to date stays so when it gets a later time and
/// keeps its size, whatever it then holds.
pub proof fn lemma_in_sync_with_newer_destination(
    source_changed: Timestamp,
    source_length: u64,
    destination_changed: Timestamp,
    later: Timestamp,
    destination_length: u64,
)
    requires
        in_sync(source_changed, source_length, destination_changed, destination_length),
        destination_changed.at_or_before(later),
    ensures
        in_sync(source_changed, source_length, later, destination_length),
{
}

/// The uploads of a push are the local files that need one, each once and
/// in the order of the local map.
pub proof fn lemma_push_transfers_members(
    local: Seq<(Seq<char>, LocalFile)>,
    remote: Seq<(Seq<char>, StorageObject)>,
    destination: Seq<char>,
)
    ensures
        forall|k: int|
            0 <= k < push_transfers(local, remote, destination).len() ==> exists|i: int|
                0 <= i < local.len() && push_needed(local[i].0, local[i].1, remote)
                    && #[trigger] push_transfers(local, remote, destination)[k] == upload_of(
                    #[trigger] local[i],
                    destination,
                ),
        forall|i: int|
            0 <= i < local.len() && push_needed(local[i].0, local[i].1, remote)
                ==> push_transfers(local, remote, destination).contains(
                upload_of(#[trigger] local[i], destination),
            ),
        push_transfers(local, remote, destination).len() <= local.len(),
    decreases local.len(),
{
    let all = push_transfers(local, remote, destination);
    if local.len() > 0 {
        let head = local.drop_last();
        let before = push_transfers(head, remote, destination);
        lemma_push_transfers_members(head, remote, destination);
        let last = local.len() - 1;
        assert forall|k: int| 0 <= k < all.len() implies exists|i: int|
            0 <= i < local.len() && push_needed(local[i].0, local[i].1, remote) && #[trigger] all[k]
                == upload_of(#[trigger] local[i], destination) by {
            if k < before.len() {
                assert(all[k] == before[k]);
                let i = choose|i: int|
                    0 <= i < head.len() && push_needed(head[i].0, head[i].1, remote) && before[k]
                        == upload_of(#[trigger] head[i], destination);
                assert(head[i] == local[i]);
            } else {
                assert(all[k] == upload_of(local[last], destination));
            }
        }
        assert forall|i: int|
            0 <= i < local.len() && push_needed(local[i].0, local[i].1, remote) implies all.contains(
            upload_of(#[trigger] local[i], destination),
        ) by {
            if i < last {
                assert(head[i] == local[i]);
                let k = choose|k: int|
                    0 <= k < before.len() && before[k] == upload_of(head[i], destination);
                assert(all[k] == before[k]);
            } else {
                assert(all[all.len() - 1] == upload_of(local[i], destination));
            }
        }
    }
}

/// The upload of one entry of the local map.
pub open spec fn upload_of(entry: (Seq<char>, LocalFile), destination: Seq<char>) -> ActionView {
    crate::sync::upload(entry.0, entry.1, destination)
}

/// The deletions of a push are about keys that the zone has and the local
/// map lacks.
pub proof fn lemma_push_deletes_members(
    local: Seq<(Seq<char>, LocalFile)>,
    remote: Seq<(Seq<char>, StorageObject)>,
)
    ensures
        forall|k: int|
            0 <= k < push_deletes(local, remote).len() ==> {
                let action = #[trigger] push_deletes(local, remote)[k];
                &&& action is Delete
                &&& action->side == Side::Remote
                &&& action->path == action.key()
                &&& has_key(remote, action.key())
                &&& !has_key(local, action.key())
            },
        forall|j: int|
            0 <= j < remote.len() && !has_key(local, (#[trigger] remote[j]).0) ==> push_deletes(
                local,
                remote,
            ).contains(ActionView::Delete { side: Side::Remote, key: remote[j].0, path: remote[j].0 }),
    decreases remote.len(),
{
    let all = push_deletes(local, remote);
    if remote.len() > 0 {
        let head = remote.drop_last();
        let before = push_deletes(local, head);
        lemma_push_deletes_members(local, head);
        let last = remote.len() - 1;
        assert forall|k: int| 0 <= k < all.len() implies {
            let action = #[trigger] all[k];
            &&& action is Delete
            &&& action->side == Side::Remote
            &&& action->path == action.key()
            &&& has_key(remote, action.key())
            &&& !has_key(local, action.key())
        } by {
            let action = all[k];
            if k < before.len() {
                assert(all[k] == before[k]);
                lemma_index_of_key(head, action.key());
                let j = choose|j: int| 0 <= j < head.len() && (#[trigger] head[j]).0 == action.key();
                assert(remote[j] == head[j]);
                lemma_index_of_key(remote, action.key());
            } else {
                assert(remote[last].0 == action.key());
                lemma_index_of_key(remote, action.key());
            }
        }
        assert forall|j: int|
            0 <= j < remote.len() && !has_key(local, (#[trigger] remote[j]).0) implies all.contains(
            ActionView::Delete { side: Side::Remote, key: remote[j].0, path: remote[j].0 },
        ) by {
            let wanted = ActionView::Delete {
                side: Side::Remote,
                key: remote[j].0,
                path: remote[j].0,
            };
            if j < last {
                assert(head[j] == remote[j]);
                let k = choose|k: int| 0 <= k < before.len() && before[k] == wanted;
                assert(all[k] == before[k]);
            } else {
                assert(all[all.len() - 1] == wanted);
            }
        }
    }
}

/// The skip rule: a local file that is no later than the object under its
/// key, and as long, is left alone by a push. No decision of the run, with
/// or without the delete flag, is about its key.
pub proof fn lemma_push_skips_file_in_sync(
    local: Seq<(Seq<char>, LocalFile)>,
    remote: Seq<(Seq<char>, StorageObject)>,
    destination: Seq<char>,
    delete: bool,
    i: int,
)
    requires
        distinct_keys(local),
        0 <= i < local.len(),
        lookup(remote, local[i].0) is Some,
        local[i].1.last_changed.at_or_before(lookup(remote, local[i].0)->0.last_changed),
        local[i].1.length == lookup(remote, local[i].0)->0.length,
    ensures
        forall|k: int|
            0 <= k < push_plan(local, remote, destination, delete).len() ==> (#[trigger] push_plan(
                local,
                remote,
                destination,
                delete,
            )[k]).key() != local[i].0,
{
    let plan = push_plan(local, remote, destination, delete);
    let transfers = push_transfers(local, remote, destination);
    lemma_push_transfers_members(local, remote, destination);
    lemma_push_deletes_members(local, remote);
    lemma_index_of_key(local, local[i].0);
    assert forall|k: int| 0 <= k < plan.len() implies (#[trigger] plan[k]).key() != local[i].0 by {
        if k < transfers.len() {
            assert(plan[k] == transfers[k]);
            let j = choose|j: int|
                0 <= j < local.len() && push_needed(local[j].0, local[j].1, remote) && transfers[k]
                    == upload_of(#[trigger] local[j], destination);
            assert(plan[k].key() == local[j].0);
            assert(j != i);
        } else {
            assert(plan[k] == push_deletes(local, remote)[k - transfers.len()]);
        }
    }
}

/// A push against a zone that is up to date uploads nothing: where every
/// local file has an object under its key that is no older and as long, as
/// a finished push leaves it, no decision of the next run is a transfer.
pub proof fn lemma_push_settled_uploads_nothing(
    local: Seq<(Seq<char>, LocalFile)>,
    remote: Seq<(Seq<char>, StorageObject)>,
    destination: Seq<char>,
    delete: bool,
)
    requires
        forall|i: int|
            0 <= i < local.len() ==> !push_needed((#[trigger] local[i]).0, local[i].1, remote),
    ensures
        push_transfers(local, remote, destination) == Seq::<ActionView>::empty(),
        forall|k: int|
            0 <= k < push_plan(local, remote, destination, delete).len() ==> !(#[trigger] push_plan(
                local,
                remote,
                destination,
                delete,
            )[k] is Transfer),
        !delete ==> push_plan(local, remote, destination, delete).len() == 0,
    decreases local.len(),
{
    if local.len() > 0 {
        let head = local.drop_last();
        assert forall|i: int| 0 <= i < head.len() implies !push_needed(
            (#[trigger] head[i]).0,
            head[i].1,
            remote,
        ) by {
            assert(head[i] == local[i]);
        }
        lemma_push_settled_uploads_nothing(head, remote, destination, delete);
        assert(!push_needed(local[local.len() - 1].0, local[local.len() - 1].1, remote));
    }
    lemma_push_deletes_members(local, remote);
    assert(push_plan(local, remote, destination, true) =~= push_deletes(local, remote));
}

/// A pull into a tree that is up to date downloads nothing.
pub proof fn lemma_pull_settled_downloads_nothing(
    local: Seq<(Seq<char>, LocalFile)>,
    remote: Seq<(Seq<char>, StorageObject)>,
    base: Seq<char>,
    zone: Seq<char>,
)
    requires
        forall|j: int|
            0 <= j < remote.len() ==> !pull_needed((#[trigger] remote[j]).0, remote[j].1, local),
    ensures
        pull_transfers(local, remote, base, zone) == Seq::<ActionView>::empty(),
        pull_plan(local, remote, base, zone, false) == Seq::<ActionView>::empty(),
    decreases remote.len(),
{
    if remote.len() > 0 {
        let head = remote.drop_last();
        assert forall|j: int| 0 <= j < head.len() implies !pull_needed(
            (#[trigger] head[j]).0,
            head[j].1,
            local,
        ) by {
            assert(head[j] == remote[j]);
        }
        lemma_pull_settled_downloads_nothing(local, head, base, zone);
        assert(!pull_needed(remote[remote.len() - 1].0, remote[remote.len() - 1].1, local));
    }
}

/// Without the delete flag a run deletes nothing.
pub proof fn lemma_no_delete_without_flag(
    local: Seq<(Seq<char>, LocalFile)>,
    remote: Seq<(Seq<char>, StorageObject)>,
    destination: Seq<char>,
    base: Seq<char>,
    zone: Seq<char>,
)
    ensures
        forall|k: int|
            0 <= k < push_plan(local, remote, destination, false).len() ==> #[trigger] push_plan(
                local,
                remote,
                destination,
                false,
            )[k] is Transfer,
        forall|k: int|
            0 <= k < pull_plan(local, remote, base, zone, false).len() ==> #[trigger] pull_plan(
                local,
                remote,
                base,
                zone,
                false,
            )[k] is Transfer,
{
    lemma_push_transfers_members(local, remote, destination);
    lemma_pull_transfers_are_transfers(local, remote, base, zone);
}

/// Every download of a pull is a transfer from the zone.
pub proof fn lemma_pull_transfers_are_transfers(
    local: Seq<(Seq<char>, LocalFile)>,
    remote: Seq<(Seq<char>, StorageObject)>,
    base: Seq<char>,
    zone: Seq<char>,
)
    ensures
        forall|k: int|
            0 <= k < pull_transfers(local, remote, base, zone).len() ==> {
                let action = #[trigger] pull_transfers(local, remote, base, zone)[k];
                &&& action is Transfer
                &&& action->direction == Direction::Pull
            },
    decreases remote.len(),
{
    if remote.len() > 0 {
        lemma_pull_transfers_are_transfers(local, remote.drop_last(), base, zone);
    }
}

/// A dry run decides what a live run decides, step for step, and carries
/// none of it out; a live run carries out every step.
pub proof fn lemma_dry_run_same_decisions(plan: Seq<ActionView>)
    ensures
        steps_of(plan, true).len() == plan.len(),
        steps_of(plan, false).len() == plan.len(),
        forall|k: int|
            0 <= k < plan.len() ==> {
                &&& (#[trigger] steps_of(plan, true)[k]).action == plan[k]
                &&& steps_of(plan, false)[k].action == plan[k]
                &&& !steps_of(plan, true)[k].perform
                &&& steps_of(plan, false)[k].perform
            },
{
}

/// The steps of a dry push are those of the live push on the same
/// listings, but for the flag and the wording of the report.
pub proof fn lemma_dry_push_same_decisions(
    local_files: Seq<LocalFile>,
    remote_files: Seq<StorageObject>,
    remote: Seq<char>,
    delete: bool,
    exclude: Seq<String>,
)
    ensures
        actions_of(push_steps(local_files, remote_files, remote, true, delete, exclude))
            == actions_of(push_steps(local_files, remote_files, remote, false, delete, exclude)),
        forall|k: int|
            0 <= k < push_steps(local_files, remote_files, remote, true, delete, exclude).len()
                ==> !(#[trigger] push_steps(
                local_files,
                remote_files,
                remote,
                true,
                delete,
                exclude,
            )[k]).perform,
{
    assert(actions_of(push_steps(local_files, remote_files, remote, true, delete, exclude))
        =~= actions_of(push_steps(local_files, remote_files, remote, false, delete, exclude)));
}

/// The steps of a dry pull are those of the live pull on the same
/// listings, but for the flag and the wording of the report.
pub proof fn lemma_dry_pull_same_decisions(
    local_files: Seq<LocalFile>,
    remote_files: Seq<StorageObject>,
    local: Seq<char>,
    remote: Seq<char>,
    delete: bool,
    exclude: Seq<String>,
)
    ensures
        actions_of(pull_steps(local_files, remote_files, local, remote, true, delete, exclude))
            == actions_of(
            pull_steps(local_files, remote_files, local, remote, false, delete, exclude),
        ),
        forall|k: int|
            0 <= k < pull_steps(
                local_files,
                remote_files,
                local,
                remote,
                true,
                delete,
                exclude,
            ).len() ==> !(#[trigger] pull_steps(
                local_files,
                remote_files,
                local,
                remote,
                true,
                delete,
                exclude,
            )[k]).perform,
{
    assert(actions_of(pull_steps(local_files, remote_files, local, remote, true, delete, exclude))
        =~= actions_of(
        pull_steps(local_files, remote_files, local, remote, false, delete, exclude),
    ));
}

/// The decisions that a sequence of steps holds.
pub open spec fn actions_of(steps: Seq<StepView>) -> Seq<ActionView> {
    steps.map_values(|s: StepView| s.action)
}

/// The download of one entry of the remote map.
pub open spec fn download_of(
    entry: (Seq<char>, StorageObject),
    base: Seq<char>,
    zone: Seq<char>,
) -> ActionView {
    crate::sync::download(entry.0, entry.1, base, zone)
}

/// The downloads of a pull are the remote objects that need one, each once
/// and in the order of the remote map.
pub proof fn lemma_pull_transfers_members(
    local: Seq<(Seq<char>, LocalFile)>,
    remote: Seq<(Seq<char>, StorageObject)>,
    base: Seq<char>,
    zone: Seq<char>,
)
    ensures
        forall|k: int|
            0 <= k < pull_transfers(local, remote, base, zone).len() ==> exists|j: int|
                0 <= j < remote.len() && pull_needed(remote[j].0, remote[j].1, local)
                    && #[trigger] pull_transfers(local, remote, base, zone)[k] == download_of(
                    #[trigger] remote[j],
                    base,
                    zone,
                ),
        forall|j: int|
            0 <= j < remote.len() && pull_needed(remote[j].0, remote[j].1, local)
                ==> pull_transfers(local, remote, base, zone).contains(
                download_of(#[trigger] remote[j], base, zone),
            ),
        pull_transfers(local, remote, base, zone).len() <= remote.len(),
    decreases remote.len(),
{
    let all = pull_transfers(local, remote, base, zone);
    if remote.len() > 0 {
        let head = remote.drop_last();
        let before = pull_transfers(local, head, base, zone);
        lemma_pull_transfers_members(local, head, base, zone);
        let last = remote.len() - 1;
        assert forall|k: int| 0 <= k < all.len() implies exists|j: int|
            0 <= j < remote.len() && pull_needed(remote[j].0, remote[j].1, local) && #[trigger] all[k]
                == download_of(#[trigger] remote[j], base, zone) by {
            if k < before.len() {
                assert(all[k] == before[k]);
                let j = choose|j: int|
                    0 <= j < head.len() && pull_needed(head[j].0, head[j].1, local) && before[k]
                        == download_of(#[trigger] head[j], base, zone);
                assert(head[j] == remote[j]);
            } else {
                assert(all[k] == download_of(remote[last], base, zone));
            }
        }
        assert forall|j: int|
            0 <= j < remote.len() && pull_needed(remote[j].0, remote[j].1, local) implies all.contains(
            download_of(#[trigger] remote[j], base, zone),
        ) by {
            if j < last {
                assert(head[j] == remote[j]);
                let k = choose|k: int|
                    0 <= k < before.len() && before[k] == download_of(head[j], base, zone);
                assert(all[k] == before[k]);
            } else {
                assert(all[all.len() - 1] == download_of(remote[j], base, zone));
            }
        }
    }
}

/// The deletions of a pull are about keys that the local map has and the
/// zone lacks; each removes the file that stands under its key.
pub proof fn lemma_pull_deletes_members(
    local: Seq<(Seq<char>, LocalFile)>,
    remote: Seq<(Seq<char>, StorageObject)>,
)
    ensures
        forall|k: int|
            0 <= k < pull_deletes(local, remote).len() ==> exists|i: int|
                0 <= i < local.len() && !has_key(remote, local[i].0) && #[trigger] pull_deletes(
                    local,
                    remote,
                )[k] == removal_of(#[trigger] local[i]),
        forall|i: int|
            0 <= i < local.len() && !has_key(remote, local[i].0) ==> pull_deletes(
                local,
                remote,
            ).contains(removal_of(#[trigger] local[i])),
    decreases local.len(),
{
    let all = pull_deletes(local, remote);
    if local.len() > 0 {
        let head = local.drop_last();
        let before = pull_deletes(head, remote);
        lemma_pull_deletes_members(head, remote);
        let last = local.len() - 1;
        assert forall|k: int| 0 <= k < all.len() implies exists|i: int|
            0 <= i < local.len() && !has_key(remote, local[i].0) && #[trigger] all[k] == removal_of(
                #[trigger] local[i],
            ) by {
            if k < before.len() {
                assert(all[k] == before[k]);
                let i = choose|i: int|
                    0 <= i < head.len() && !has_key(remote, head[i].0) && before[k] == removal_of(
                        #[trigger] head[i],
                    );
                assert(head[i] == local[i]);
            } else {
                assert(all[k] == removal_of(local[last]));
            }
        }
        assert forall|i: int|
            0 <= i < local.len() && !has_key(remote, local[i].0) implies all.contains(
            removal_of(#[trigger] local[i]),
        ) by {
            if i < last {
                assert(head[i] == local[i]);
                let k = choose|k: int| 0 <= k < before.len() && before[k] == removal_of(head[i]);
                assert(all[k] == before[k]);
            } else {
                assert(all[all.len() - 1] == removal_of(local[i]));
            }
        }
    }
}

/// The removal of the local file of one entry of the local map.
pub open spec fn removal_of(entry: (Seq<char>, LocalFile)) -> ActionView {
    ActionView::Delete { side: Side::Local, key: entry.0, path: entry.1.path@ }
}

/// The skip rule the other way round: a remote object that is no later
/// than the local file under its key, and as long, is left alone by a
/// pull. No decision of the run, with or without the delete flag, is about
/// its key.
pub proof fn lemma_pull_skips_object_in_sync(
    local: Seq<(Seq<char>, LocalFile)>,
    remote: Seq<(Seq<char>, StorageObject)>,
    base: Seq<char>,
    zone: Seq<char>,
    delete: bool,
    j: int,
)
    requires
        distinct_keys(remote),
        0 <= j < remote.len(),
        lookup(local, remote[j].0) is Some,
        remote[j].1.last_changed.at_or_before(lookup(local, remote[j].0)->0.last_changed),
        remote[j].1.length == lookup(local, remote[j].0)->0.length,
    ensures
        forall|k: int|
            0 <= k < pull_plan(local, remote, base, zone, delete).len() ==> (#[trigger] pull_plan(
                local,
                remote,
                base,
                zone,
                delete,
            )[k]).key() != remote[j].0,
{
    let plan = pull_plan(local, remote, base, zone, delete);
    let transfers = pull_transfers(local, remote, base, zone);
    lemma_pull_transfers_members(local, remote, base, zone);
    lemma_pull_deletes_members(local, remote);
    lemma_index_of_key(remote, remote[j].0);
    assert forall|k: int| 0 <= k < plan.len() implies (#[trigger] plan[k]).key() != remote[j].0 by {
        if k < transfers.len() {
            assert(plan[k] == transfers[k]);
            let i = choose|i: int|
                0 <= i < remote.len() && pull_needed(remote[i].0, remote[i].1, local)
                    && transfers[k] == download_of(#[trigger] remote[i], base, zone);
            assert(plan[k].key() == remote[i].0);
            assert(i != j);
        } else {
            let deletes = pull_deletes(local, remote);
            assert(plan[k] == deletes[k - transfers.len()]);
            let i = choose|i: int|
                0 <= i < local.len() && !has_key(remote, local[i].0) && deletes[k - transfers.len()]
                    == removal_of(#[trigger] local[i]);
            assert(plan[k].key() == local[i].0);
        }
    }
}

} // verus!
