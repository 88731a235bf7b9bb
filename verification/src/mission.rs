//! Missions at the end of the server.
//!
//! When the server is told to stop, every mission that still runs is marked
//! as interrupted, and the ids of those missions are reported.

use vstd::prelude::*;

verus! {

/// How far a mission has come.
#[derive(Debug, Clone, Copy, PartialEq, Eq, Structural)]
pub enum MissionStatus {
    /// Waiting for its turn.
    Pending,
    /// At work.
    Running,
    /// Done.
    Completed,
    /// Ended with an error.
    Failed,
    /// Cut short by the end of the server.
    Interrupted,
}

/// What the server knows of one mission.
#[derive(Debug, Clone, Copy, PartialEq, Eq, Structural)]
pub struct MissionRecord {
    pub id: u128,
    pub status: MissionStatus,
}

/// A mission after the server was told to stop: interrupted where it ran,
/// and else as it was.
pub open spec fn stopped(m: MissionRecord) -> MissionRecord {
    if m.status == MissionStatus::Running {
        MissionRecord { id: m.id, status: MissionStatus::Interrupted }
    } else {
        m
    }
}

/// The ids of the missions that run, in the order of the list.
pub open spec fn running_ids(missions: Seq<MissionRecord>) -> Seq<u128>
    decreases missions.len(),
{
    if missions.len() == 0 {
        Seq::empty()
    } else if missions.last().status == MissionStatus::Running {
        running_ids(missions.drop_last()).push(missions.last().id)
    } else {
        running_ids(missions.drop_last())
    }
}

/// Marks every mission that runs as interrupted and leaves the others as
/// they are. Returns the ids of the missions that were interrupted, in the
/// order of the list.
pub fn interrupt_running(missions: &mut Vec<MissionRecord>) -> (interrupted: Vec<u128>)
    ensures
        final(missions)@.len() == old(missions)@.len(),
        forall|i: int|
            0 <= i < old(missions)@.len() ==> #[trigger] final(missions)@[i] == stopped(
                old(missions)@[i],
            ),
        interrupted@ == running_ids(old(missions)@),
{
    let mut interrupted: Vec<u128> = Vec::new();
    let mut i: usize = 0;
    assert(old(missions)@.take(0) =~= Seq::<MissionRecord>::empty());
    while i < missions.len()
        invariant
            i <= missions@.len(),
            missions@.len() == old(missions)@.len(),
            forall|j: int| 0 <= j < i ==> #[trigger] missions@[j] == stopped(old(missions)@[j]),
            forall|j: int| i <= j < missions@.len() ==> #[trigger] missions@[j] == old(missions)@[j],
            interrupted@ == running_ids(old(missions)@.take(i as int)),
        decreases missions@.len() - i,
    {
        let m = missions[i];
        proof {
            assert(old(missions)@.take(i + 1).drop_last() =~= old(missions)@.take(i as int));
            assert(old(missions)@.take(i + 1).last() == old(missions)@[i as int]);
        }
        match m.status {
            MissionStatus::Running => {
                missions.set(i, MissionRecord { id: m.id, status: MissionStatus::Interrupted });
                interrupted.push(m.id);
            },
            _ => {},
        }
        i = i + 1;
    }
    assert(old(missions)@.take(old(missions)@.len() as int) =~= old(missions)@);
    interrupted
}

/// After the server was told to stop, no mission runs, and a mission is
/// reported exactly when it ran before.
pub proof fn lemma_interrupted_are_reported(missions: Seq<MissionRecord>, id: u128)
    ensures
        running_ids(missions).contains(id) <==> exists|i: int|
            0 <= i < missions.len() && (#[trigger] missions[i]).id == id && missions[i].status
                == MissionStatus::Running,
        forall|i: int|
            0 <= i < missions.len() ==> (#[trigger] stopped(missions[i])).status
                != MissionStatus::Running,
    decreases missions.len(),
{
    if missions.len() > 0 {
        let front = missions.drop_last();
        let last = missions.last();
        lemma_interrupted_are_reported(front, id);
        if running_ids(missions).contains(id) {
            let w = choose|w: int|
                0 <= w < running_ids(missions).len() && running_ids(missions)[w] == id;
            if last.status == MissionStatus::Running && w == running_ids(front).len() {
                assert(missions[missions.len() - 1].id == id);
            } else {
                assert(running_ids(front)[w] == id);
                assert(running_ids(front).contains(id));
                let i = choose|i: int|
                    0 <= i < front.len() && (#[trigger] front[i]).id == id && front[i].status
                        == MissionStatus::Running;
                assert(missions[i] == front[i]);
            }
        }
        if exists|i: int|
            0 <= i < missions.len() && (#[trigger] missions[i]).id == id && missions[i].status
                == MissionStatus::Running {
            let i = choose|i: int|
                0 <= i < missions.len() && (#[trigger] missions[i]).id == id && missions[i].status
                    == MissionStatus::Running;
            if i == missions.len() - 1 {
                assert(running_ids(missions)[running_ids(front).len() as int] == id);
            } else {
                assert(front[i] == missions[i]);
                assert(running_ids(front).contains(id));
                let w = choose|w: int|
                    0 <= w < running_ids(front).len() && running_ids(front)[w] == id;
                assert(running_ids(missions)[w] == id);
            }
        }
    }
}

} // verus!
