use open_agent::mission::{interrupt_running, MissionRecord, MissionStatus};

fn mission(id: u128, status: MissionStatus) -> MissionRecord {
    MissionRecord { id, status }
}

#[test]
fn running_missions_are_interrupted() {
    let mut missions = vec![
        mission(1, MissionStatus::Running),
        mission(2, MissionStatus::Completed),
        mission(3, MissionStatus::Pending),
        mission(4, MissionStatus::Running),
        mission(5, MissionStatus::Failed),
        mission(6, MissionStatus::Interrupted),
    ];
    assert_eq!(interrupt_running(&mut missions), vec![1, 4]);
    assert_eq!(
        missions,
        vec![
            mission(1, MissionStatus::Interrupted),
            mission(2, MissionStatus::Completed),
            mission(3, MissionStatus::Pending),
            mission(4, MissionStatus::Interrupted),
            mission(5, MissionStatus::Failed),
            mission(6, MissionStatus::Interrupted),
        ]
    );
    assert_eq!(interrupt_running(&mut missions), Vec::<u128>::new());
}

#[test]
fn nothing_runs_nothing_is_interrupted() {
    let mut none: Vec<MissionRecord> = Vec::new();
    assert_eq!(interrupt_running(&mut none), Vec::<u128>::new());
    let mut idle = vec![mission(9, MissionStatus::Pending)];
    assert_eq!(interrupt_running(&mut idle), Vec::<u128>::new());
    assert_eq!(idle, vec![mission(9, MissionStatus::Pending)]);
}
