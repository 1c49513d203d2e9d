//! What the lock remembers of each output: its advertised metadata and current
//! mode, kept current as outputs appear, change and disappear.

use vstd::prelude::*;

verus! {

/// One mode that an output advertises.
#[derive(Clone, Copy, Debug)]
pub struct Mode {
    /// Width and height in physical pixels.
    pub dimensions: (i32, i32),
    /// Refresh rate in millihertz.
    pub refresh_rate: i32,
    /// Whether the output currently uses this mode.
    pub current: bool,
    /// Whether the output prefers this mode.
    pub preferred: bool,
}

/// The size and refresh rate of an output's current mode.
#[derive(Clone, Copy, Debug, Eq, PartialEq, Structural)]
pub struct ModeSnapshot {
    pub width: i32,
    pub height: i32,
    pub refresh_rate_millihertz: i32,
}

/// The metadata of one output.
#[derive(Clone, Debug, Eq, PartialEq)]
pub struct OutputSnapshot {
    pub global_id: u32,
    pub name: Option<String>,
    pub description: Option<String>,
    pub logical_position: Option<(i32, i32)>,
    pub logical_size: Option<(i32, i32)>,
    pub scale_factor: i32,
    pub transform: String,
    pub current_mode: Option<ModeSnapshot>,
}

/// The snapshot of a mode.
pub open spec fn snapshot_of(mode: Mode) -> ModeSnapshot {
    ModeSnapshot {
        width: mode.dimensions.0,
        height: mode.dimensions.1,
        refresh_rate_millihertz: mode.refresh_rate,
    }
}

/// `snapshot` is the first current mode of `modes`, or `None` when no mode is current.
pub open spec fn is_current_mode(modes: Seq<Mode>, snapshot: Option<ModeSnapshot>) -> bool {
    match snapshot {
        None => forall|i: int| 0 <= i < modes.len() ==> !(#[trigger] modes[i]).current,
        Some(found) => exists|i: int|
            0 <= i < modes.len() && (#[trigger] modes[i]).current && snapshot_of(modes[i]) == found
                && forall|j: int| 0 <= j < i ==> !(#[trigger] modes[j]).current,
    }
}

/// The first mode marked current.
pub fn current_mode(modes: &[Mode]) -> (snapshot: Option<ModeSnapshot>)
    ensures
        is_current_mode(modes@, snapshot),
{
    let mut index: usize = 0;
    while index < modes.len()
        invariant
            index <= modes@.len(),
            forall|j: int| 0 <= j < index ==> !(#[trigger] modes@[j]).current,
        decreases modes@.len() - index,
    {
        let mode = modes[index];
        if mode.current {
            let found = ModeSnapshot {
                width: mode.dimensions.0,
                height: mode.dimensions.1,
                refresh_rate_millihertz: mode.refresh_rate,
            };
            assert(modes@[index as int].current && snapshot_of(modes@[index as int]) == found);
            return Some(found);
        }
        index = index + 1;
    }
    None
}

/// The snapshots that do not describe output `global_id`, in order.
pub open spec fn without_output(snapshots: Seq<OutputSnapshot>, global_id: u32) -> Seq<
    OutputSnapshot,
>
    decreases snapshots.len(),
{
    if snapshots.len() == 0 {
        snapshots
    } else if snapshots[0].global_id == global_id {
        without_output(snapshots.drop_first(), global_id)
    } else {
        seq![snapshots[0]] + without_output(snapshots.drop_first(), global_id)
    }
}

/// The snapshots after recording `snapshot`: it replaces the first snapshot of the
/// same output, or is appended when the output is new.
pub open spec fn recorded(snapshots: Seq<OutputSnapshot>, snapshot: OutputSnapshot) -> Seq<
    OutputSnapshot,
> {
    if exists|i: int| 0 <= i < snapshots.len() && (#[trigger] snapshots[i]).global_id == snapshot.global_id {
        let first = choose|i: int|
            0 <= i < snapshots.len() && (#[trigger] snapshots[i]).global_id == snapshot.global_id
                && forall|j: int| 0 <= j < i ==> (#[trigger] snapshots[j]).global_id != snapshot.global_id;
        snapshots.update(first, snapshot)
    } else {
        snapshots.push(snapshot)
    }
}

/// Records the metadata of a new or changed output.
pub fn record_snapshot(snapshots: &mut Vec<OutputSnapshot>, snapshot: OutputSnapshot)
    ensures
        final(snapshots)@ == recorded(old(snapshots)@, snapshot),
{
    let ghost initial = snapshots@;
    let ghost id = snapshot.global_id;
    let mut index: usize = 0;
    while index < snapshots.len()
        invariant
            snapshots@ == initial,
            initial == old(snapshots)@,
            index <= initial.len(),
            id == snapshot.global_id,
            forall|j: int| 0 <= j < index ==> (#[trigger] initial[j]).global_id != id,
        decreases initial.len() - index,
    {
        if snapshots[index].global_id == snapshot.global_id {
            proof {
                assert(exists|i: int|
                    0 <= i < initial.len() && (#[trigger] initial[i]).global_id == id
                        && forall|j: int| 0 <= j < i ==> (#[trigger] initial[j]).global_id != id);
                let first = choose|i: int|
                    0 <= i < initial.len() && (#[trigger] initial[i]).global_id == id
                        && forall|j: int| 0 <= j < i ==> (#[trigger] initial[j]).global_id != id;
                assert(0 <= index < initial.len() && initial[index as int].global_id == id
                    && forall|j: int| 0 <= j < index ==> (#[trigger] initial[j]).global_id != id);
                if first < index {
                    assert(initial[first].global_id != id);
                }
                if first > index {
                    assert(initial[index as int].global_id != id);
                }
                assert(first == index);
            }
            snapshots.set(index, snapshot);
            assert(snapshots@ == recorded(initial, snapshot));
            return;
        }
        index = index + 1;
    }
    snapshots.push(snapshot);
}

/// Forgets every snapshot of output `global_id`.
pub fn forget_output(snapshots: &mut Vec<OutputSnapshot>, global_id: u32)
    ensures
        final(snapshots)@ == without_output(old(snapshots)@, global_id),
{
    let ghost initial = snapshots@;
    let mut index: usize = snapshots.len();
    proof {
        assert(initial.skip(initial.len() as int) =~= Seq::<OutputSnapshot>::empty());
        assert(initial.take(initial.len() as int) =~= initial);
        assert(snapshots@ =~= initial.take(index as int) + without_output(initial.skip(index as int), global_id));
    }
    while index > 0
        invariant
            index <= initial.len(),
            snapshots@ == initial.take(index as int) + without_output(
                initial.skip(index as int),
                global_id,
            ),
        decreases index,
    {
        let position = index - 1;
        proof {
            assert(initial.skip(position as int).drop_first() =~= initial.skip(index as int));
            assert(initial.skip(position as int)[0] == initial[position as int]);
            assert(initial.take(index as int) =~= initial.take(position as int).push(
                initial[position as int],
            ));
        }
        if snapshots[position].global_id == global_id {
            snapshots.remove(position);
            proof {
                assert(snapshots@ =~= initial.take(position as int) + without_output(
                    initial.skip(position as int),
                    global_id,
                ));
            }
        } else {
            proof {
                assert(snapshots@ =~= initial.take(position as int) + without_output(
                    initial.skip(position as int),
                    global_id,
                ));
            }
        }
        index = position;
    }
    proof {
        assert(initial.take(0) =~= Seq::<OutputSnapshot>::empty());
        assert(initial.skip(0) =~= initial);
        assert(snapshots@ =~= without_output(initial, global_id));
    }
}

/// No two snapshots describe the same output.
pub open spec fn distinct_outputs(snapshots: Seq<OutputSnapshot>) -> bool {
    forall|i: int, j: int|
        0 <= i < j < snapshots.len() ==> #[trigger] snapshots[i].global_id
            != #[trigger] snapshots[j].global_id
}

proof fn lemma_without_output_members(snapshots: Seq<OutputSnapshot>, global_id: u32)
    ensures
        forall|i: int|
            0 <= i < without_output(snapshots, global_id).len() ==> {
                &&& snapshots.contains(#[trigger] without_output(snapshots, global_id)[i])
                &&& without_output(snapshots, global_id)[i].global_id != global_id
            },
        distinct_outputs(snapshots) ==> distinct_outputs(without_output(snapshots, global_id)),
    decreases snapshots.len(),
{
    if snapshots.len() > 0 {
        let rest = snapshots.drop_first();
        lemma_without_output_members(rest, global_id);
        let kept = without_output(rest, global_id);
        assert forall|i: int| 0 <= i < kept.len() implies snapshots.contains(#[trigger] kept[i]) by {
            let j = choose|j: int| 0 <= j < rest.len() && rest[j] == kept[i];
            assert(snapshots[j + 1] == kept[i]);
        }
        if snapshots[0].global_id != global_id {
            let result = seq![snapshots[0]] + kept;
            assert forall|i: int| 0 <= i < result.len() implies {
                &&& snapshots.contains(#[trigger] result[i])
                &&& result[i].global_id != global_id
            } by {
                if i == 0 {
                    assert(snapshots[0] == result[0]);
                } else {
                    assert(result[i] == kept[i - 1]);
                }
            }
            if distinct_outputs(snapshots) {
                assert(distinct_outputs(rest)) by {
                    assert forall|i: int, j: int| 0 <= i < j < rest.len() implies #[trigger] rest[i].global_id
                        != #[trigger] rest[j].global_id by {
                        assert(rest[i] == snapshots[i + 1] && rest[j] == snapshots[j + 1]);
                    }
                }
                assert forall|i: int, j: int| 0 <= i < j < result.len() implies #[trigger] result[i].global_id
                    != #[trigger] result[j].global_id by {
                    if i == 0 {
                        assert(result[j] == kept[j - 1]);
                        let k = choose|k: int| 0 <= k < rest.len() && rest[k] == kept[j - 1];
                        assert(snapshots[k + 1] == result[j]);
                        assert(snapshots[0].global_id != snapshots[k + 1].global_id);
                    } else {
                        assert(result[i] == kept[i - 1] && result[j] == kept[j - 1]);
                    }
                }
            }
        } else {
            if distinct_outputs(snapshots) {
                assert forall|i: int, j: int| 0 <= i < j < rest.len() implies #[trigger] rest[i].global_id
                    != #[trigger] rest[j].global_id by {
                    assert(rest[i] == snapshots[i + 1] && rest[j] == snapshots[j + 1]);
                }
            }
        }
    }
}

/// The snapshot list never describes an output twice: recording a snapshot keeps
/// the outputs distinct, and recorded metadata is found again under its output.
/// Forgetting an output removes every snapshot of it and keeps the rest distinct.
pub proof fn lemma_snapshots_stay_distinct(
    snapshots: Seq<OutputSnapshot>,
    snapshot: OutputSnapshot,
    global_id: u32,
)
    requires
        distinct_outputs(snapshots),
    ensures
        distinct_outputs(recorded(snapshots, snapshot)),
        recorded(snapshots, snapshot).contains(snapshot),
        distinct_outputs(without_output(snapshots, global_id)),
        forall|i: int|
            0 <= i < without_output(snapshots, global_id).len() ==> (#[trigger] without_output(
                snapshots,
                global_id,
            )[i]).global_id != global_id,
{
    lemma_without_output_members(snapshots, global_id);
    let updated = recorded(snapshots, snapshot);
    if exists|i: int| 0 <= i < snapshots.len() && (#[trigger] snapshots[i]).global_id == snapshot.global_id {
        let witness = choose|i: int|
            0 <= i < snapshots.len() && (#[trigger] snapshots[i]).global_id == snapshot.global_id;
        assert(exists|i: int|
            0 <= i < snapshots.len() && (#[trigger] snapshots[i]).global_id == snapshot.global_id
                && forall|j: int| 0 <= j < i ==> (#[trigger] snapshots[j]).global_id != snapshot.global_id)
            by {
            assert forall|j: int| 0 <= j < witness implies (#[trigger] snapshots[j]).global_id
                != snapshot.global_id by {
                assert(snapshots[j].global_id != snapshots[witness].global_id);
            }
        }
        let first = choose|i: int|
            0 <= i < snapshots.len() && (#[trigger] snapshots[i]).global_id == snapshot.global_id
                && forall|j: int| 0 <= j < i ==> (#[trigger] snapshots[j]).global_id != snapshot.global_id;
        assert(updated == snapshots.update(first, snapshot));
        assert(updated[first] == snapshot);
        assert forall|i: int, j: int| 0 <= i < j < updated.len() implies #[trigger] updated[i].global_id
            != #[trigger] updated[j].global_id by {
            if i == first {
                assert(snapshots[j].global_id != snapshots[first].global_id);
            } else if j == first {
                assert(snapshots[i].global_id != snapshots[first].global_id);
            }
        }
    } else {
        assert(updated == snapshots.push(snapshot));
        assert(updated[snapshots.len() as int] == snapshot);
        assert forall|i: int, j: int| 0 <= i < j < updated.len() implies #[trigger] updated[i].global_id
            != #[trigger] updated[j].global_id by {
            if j == snapshots.len() {
                assert(snapshots[i].global_id != snapshot.global_id);
            }
        }
    }
}

} // verus!
