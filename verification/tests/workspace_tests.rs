use open_agent::console::{authorize_workspace_shell, workspace_shell_command, HandshakeError};
use open_agent::nspawn::{destroy_container, is_container_ready, NspawnDistro, NspawnError};
use open_agent::workspace::{
    begin_build, check_destroy, config_root, container_scan_roots, create_workspace,
    finish_build, mission_workspace_dir, mission_workspace_dir_for_root,
    prepare_custom_workspace, prepare_mission_workspace, prepare_mission_workspace_in,
    prepare_task_workspace,
    prepare_workspace_dir, run_dir_named, runtime_state_path, task_workspace_dir,
    task_workspace_dir_for_root, workspaces_root, workspaces_root_for,
    write_runtime_workspace_state, BuildStep, CreateWorkspaceRequest, DeleteOutcome,
    FoundDirectory, OrphanedContainer, Workspace, WorkspaceStatus, WorkspaceStore, WorkspaceType,
    DEFAULT_WORKSPACE_ID,
};

fn container(id: u128, name: &str, path: &str) -> Workspace {
    Workspace::chroot_with(id, name, path, WorkspaceStatus::Pending, 5)
}

fn names(store: &WorkspaceStore) -> Vec<String> {
    store.list().into_iter().map(|w| w.name).collect()
}

#[test]
fn kinds_have_names() {
    assert_eq!(WorkspaceType::Host.as_str(), "host");
    assert_eq!(WorkspaceType::Chroot.as_str(), "chroot");
    assert_eq!(WorkspaceType::default(), WorkspaceType::Host);
    assert_eq!(WorkspaceStatus::default(), WorkspaceStatus::Ready);
}

#[test]
fn host_workspace() {
    let w = Workspace::default_host_at("/work", 42);
    assert_eq!(w.id, DEFAULT_WORKSPACE_ID);
    assert_eq!(w.id, 0);
    assert_eq!(w.name, "host");
    assert_eq!(w.workspace_type, WorkspaceType::Host);
    assert_eq!(w.path, "/work");
    assert_eq!(w.status, WorkspaceStatus::Ready);
    assert_eq!(w.error_message, None);
    assert_eq!(w.config, "{}");
    assert_eq!(w.created_at, 42);
    assert!(w.skills.is_empty() && w.tools.is_empty() && w.plugins.is_empty());
    let now = Workspace::default_host("/work");
    assert!(now.created_at > 1_600_000_000_000);
}

#[test]
fn new_containers_wait_for_their_build() {
    let a = Workspace::new_chroot("alpha", "/srv/alpha");
    let b = Workspace::new_chroot("alpha", "/srv/alpha");
    assert_eq!(a.status, WorkspaceStatus::Pending);
    assert_eq!(a.workspace_type, WorkspaceType::Chroot);
    assert_eq!(a.name, "alpha");
    assert_eq!(a.path, "/srv/alpha");
    assert_ne!(a.id, b.id);
    assert_ne!(a.id, DEFAULT_WORKSPACE_ID);
    assert_eq!(a.duplicate(), a);
}

#[test]
fn store_starts_with_the_host_workspace() {
    let store = WorkspaceStore::new("/work");
    assert_eq!(names(&store), vec!["host"]);
    assert_eq!(store.get_default().path, "/work");
    assert!(store.get(DEFAULT_WORKSPACE_ID).is_some());
    assert!(store.get(9).is_none());
}

#[test]
fn store_lists_by_name() {
    let mut store = WorkspaceStore::new("/work");
    assert_eq!(store.add(container(3, "zeta", "/c/zeta")), 3);
    assert_eq!(store.add(container(2, "alpha", "/c/alpha")), 2);
    assert_eq!(store.add(container(1, "zeta", "/c/zeta2")), 1);
    assert_eq!(store.add(container(4, "Beta", "/c/beta")), 4);
    assert_eq!(names(&store), vec!["Beta", "alpha", "host", "zeta", "zeta"]);
    let ids: Vec<u128> = store.list().into_iter().map(|w| w.id).collect();
    assert_eq!(ids, vec![4, 2, 0, 1, 3]);
}

#[test]
fn store_updates_and_deletes() {
    let mut store = WorkspaceStore::new("/work");
    store.add(container(2, "alpha", "/c/alpha"));
    let mut changed = container(2, "omega", "/c/alpha");
    changed.status = WorkspaceStatus::Ready;
    assert!(store.update(changed.duplicate()));
    assert_eq!(store.get(2), Some(changed));
    assert_eq!(names(&store), vec!["host", "omega"]);
    assert!(!store.update(container(7, "ghost", "/c/ghost")));
    assert_eq!(store.get(7), None);
    assert_eq!(store.delete(2), DeleteOutcome::Deleted);
    assert_eq!(store.delete(2), DeleteOutcome::NotFound);
    assert_eq!(names(&store), vec!["host"]);
}

#[test]
fn host_workspace_stays() {
    let mut store = WorkspaceStore::new("/work");
    assert_eq!(store.delete(DEFAULT_WORKSPACE_ID), DeleteOutcome::IsDefault);
    assert_eq!(names(&store), vec!["host"]);
    assert_eq!(store.delete(5), DeleteOutcome::NotFound);
    assert_ne!(store.delete(DEFAULT_WORKSPACE_ID), store.delete(5));
    store.add(container(5, "five", "/c/five"));
    assert_eq!(store.delete(5), DeleteOutcome::Deleted);
    assert_eq!(store.delete(DEFAULT_WORKSPACE_ID), DeleteOutcome::IsDefault);
    assert_eq!(store.get_default().id, DEFAULT_WORKSPACE_ID);
    let mut broken = Workspace::default_host_at("/elsewhere", 1);
    broken.status = WorkspaceStatus::Error;
    assert!(!store.update(broken.duplicate()));
    store.add(broken);
    assert_eq!(store.get_default().status, WorkspaceStatus::Ready);
    assert_eq!(store.get_default().path, "/work");
    let moved = Workspace::default_host_at("/elsewhere", 1);
    assert!(store.update(moved));
    assert_eq!(store.get_default().path, "/elsewhere");
}

#[test]
fn store_from_what_was_on_disk() {
    let loaded = vec![container(8, "b", "/c/b"), container(9, "a", "/c/a"), container(8, "c", "/c/c")];
    let store = WorkspaceStore::from_loaded("/work", loaded);
    assert_eq!(names(&store), vec!["a", "c", "host"]);
    let empty = WorkspaceStore::from_loaded("/work", vec![]);
    assert_eq!(names(&empty), vec!["host"]);
}

#[test]
fn workspaces_are_resolved() {
    let mut store = WorkspaceStore::new("/work");
    store.add(container(2, "alpha", "/c/alpha"));
    assert_eq!(store.resolve_workspace_root(Some(2), "/fallback"), "/c/alpha");
    assert_eq!(store.resolve_workspace_root(None, "/fallback"), "/work");
    assert_eq!(store.resolve_workspace_root(Some(3), "/fallback"), "/fallback");
    assert_eq!(store.resolve_workspace(Some(2), "/fallback").name, "alpha");
    let missing = store.resolve_workspace(Some(3), "/fallback");
    assert_eq!(missing.id, DEFAULT_WORKSPACE_ID);
    assert_eq!(missing.path, "/fallback");
}

fn found(name: Option<&str>, path: &str, is_dir: bool, has_etc: bool, has_bin: bool) -> FoundDirectory {
    FoundDirectory { name: name.map(|s| s.to_string()), path: path.to_string(), is_dir, has_etc, has_bin }
}

#[test]
fn orphans_are_found_once() {
    let mut store = WorkspaceStore::new("/work");
    store.add(container(2, "known", "/work/.openagent/containers/known"));
    let on_disk = vec![
        found(Some("known"), "/work/.openagent/containers/known", true, true, true),
        found(Some("built"), "/work/.openagent/containers/built", true, true, false),
        found(Some("bin-only"), "/work/.openagent/containers/bin-only", true, false, true),
        found(Some("half"), "/work/.openagent/chroots/half", true, false, false),
        found(Some("notes.txt"), "/work/.openagent/containers/notes.txt", false, false, false),
        found(None, "/work/.openagent/containers/\u{fffd}", true, true, true),
    ];
    let orphans = store.scan_orphaned_containers(&on_disk);
    assert_eq!(
        orphans,
        vec![
            OrphanedContainer {
                name: "built".to_string(),
                path: "/work/.openagent/containers/built".to_string(),
                status: WorkspaceStatus::Ready,
            },
            OrphanedContainer {
                name: "bin-only".to_string(),
                path: "/work/.openagent/containers/bin-only".to_string(),
                status: WorkspaceStatus::Ready,
            },
            OrphanedContainer {
                name: "half".to_string(),
                path: "/work/.openagent/chroots/half".to_string(),
                status: WorkspaceStatus::Pending,
            },
        ]
    );
    let mut next_id = 100;
    for o in &orphans {
        assert!(store.restore_orphan(o, next_id, 77));
        next_id += 1;
    }
    assert!(!store.restore_orphan(&orphans[0], 100, 77));
    assert_eq!(store.list().len(), 5);
    assert_eq!(store.get(102).map(|w| (w.name, w.status, w.created_at)), Some(("half".to_string(), WorkspaceStatus::Pending, 77)));
    assert_eq!(store.scan_orphaned_containers(&on_disk), vec![]);
    assert_eq!(store.list().len(), 5);
}

#[test]
fn orphans_come_back_under_new_ids() {
    let mut store = WorkspaceStore::new("/work");
    store.add(container(2, "known", "/work/.openagent/containers/known"));
    let on_disk = vec![
        found(Some("known"), "/work/.openagent/containers/known", true, true, true),
        found(Some("built"), "/work/.openagent/containers/built", true, true, false),
        found(Some("half"), "/work/.openagent/chroots/half", true, false, false),
    ];
    let orphans = store.scan_orphaned_containers(&on_disk);
    let ids = store.restore_orphans(&orphans, 91);
    assert_eq!(ids.len(), 2);
    assert_ne!(ids[0], ids[1]);
    assert!(!ids.contains(&DEFAULT_WORKSPACE_ID) && !ids.contains(&2));
    let built = store.get(ids[0]).unwrap();
    assert_eq!(
        (built.name.as_str(), built.path.as_str(), built.status, built.created_at),
        ("built", "/work/.openagent/containers/built", WorkspaceStatus::Ready, 91)
    );
    assert_eq!(built.workspace_type, WorkspaceType::Chroot);
    let half = store.get(ids[1]).unwrap();
    assert_eq!((half.name.as_str(), half.status), ("half", WorkspaceStatus::Pending));
    assert_eq!(store.get(2).unwrap().name, "known");
    assert_eq!(store.list().len(), 4);
    assert_eq!(store.scan_orphaned_containers(&on_disk), vec![]);
    assert_eq!(store.restore_orphans(&vec![], 92), Vec::<u128>::new());
    assert_eq!(store.list().len(), 4);
}

#[test]
fn a_host_workspace_does_not_hide_a_container() {
    let store = WorkspaceStore::new("/work");
    let on_disk = vec![found(Some("work"), "/work", true, true, true)];
    assert_eq!(store.scan_orphaned_containers(&on_disk).len(), 1);
    assert_eq!(
        container_scan_roots("/work"),
        vec!["/work/.openagent/containers", "/work/.openagent/chroots"]
    );
}

#[test]
fn build_of_a_container() {
    let mut w = container(2, "alpha", "/c/alpha");
    assert_eq!(
        begin_build(&mut w, None, false, None),
        Ok(BuildStep::Build { distro: NspawnDistro::UbuntuNoble, destroy_first: false })
    );
    assert_eq!(w.status, WorkspaceStatus::Building);
    assert_eq!(finish_build(&mut w, Ok(())), Ok(()));
    assert_eq!(w.status, WorkspaceStatus::Ready);
    assert_eq!(w.error_message, None);
}

#[test]
fn failed_build_is_recorded() {
    let mut w = container(2, "alpha", "/c/alpha");
    begin_build(&mut w, Some(NspawnDistro::ArchLinux), false, None).unwrap();
    let r = finish_build(&mut w, Err(NspawnError::Pacstrap("no network".to_string())));
    assert_eq!(r, Err("Container build failed: Pacstrap failed: no network".to_string()));
    assert_eq!(w.status, WorkspaceStatus::Error);
    assert_eq!(
        w.error_message,
        Some("Container build failed: Pacstrap failed: no network".to_string())
    );
    assert_eq!(
        begin_build(&mut w, Some(NspawnDistro::ArchLinux), false, None),
        Ok(BuildStep::Build { distro: NspawnDistro::ArchLinux, destroy_first: false })
    );
    assert_eq!(w.status, WorkspaceStatus::Building);
    assert_eq!(finish_build(&mut w, Ok(())), Ok(()));
    assert_eq!(w.error_message, None);
}

#[test]
fn a_built_root_is_kept_or_rebuilt() {
    let mut w = container(2, "alpha", "/c/alpha");
    assert_eq!(
        begin_build(&mut w, Some(NspawnDistro::UbuntuJammy), true, Some(NspawnDistro::UbuntuJammy)),
        Ok(BuildStep::AlreadyBuilt)
    );
    assert_eq!(w.status, WorkspaceStatus::Ready);
    assert_eq!(
        begin_build(&mut w, None, true, Some(NspawnDistro::UbuntuJammy)),
        Ok(BuildStep::Build { distro: NspawnDistro::UbuntuNoble, destroy_first: true })
    );
    assert_eq!(
        begin_build(&mut w, None, true, None),
        Ok(BuildStep::Build { distro: NspawnDistro::UbuntuNoble, destroy_first: true })
    );
    assert_eq!(
        begin_build(&mut w, None, false, Some(NspawnDistro::UbuntuNoble)),
        Ok(BuildStep::Build { distro: NspawnDistro::UbuntuNoble, destroy_first: false })
    );
}

#[test]
fn host_workspaces_are_not_built() {
    let mut host = Workspace::default_host_at("/work", 1);
    assert_eq!(begin_build(&mut host, None, false, None), Err("Workspace is not a container type".to_string()));
    assert_eq!(host.status, WorkspaceStatus::Ready);
    assert_eq!(check_destroy(&host), Err("Workspace is not a container type".to_string()));
    assert_eq!(check_destroy(&container(2, "a", "/c/a")), Ok(()));
}

#[test]
fn directories() {
    assert_eq!(config_root("/work"), "/work/.openagent");
    assert_eq!(workspaces_root("/work"), "/work/workspaces");
    assert_eq!(workspaces_root_for("/srv/alpha/"), "/srv/alpha/workspaces");
    let id: u128 = 0x12345678_9abc_def0_1234_56789abcdef0;
    assert_eq!(mission_workspace_dir("/work", id), "/work/workspaces/mission-12345678");
    assert_eq!(mission_workspace_dir_for_root("/srv/a", id), "/srv/a/workspaces/mission-12345678");
    assert_eq!(task_workspace_dir("/work", id), "/work/workspaces/task-12345678");
    assert_eq!(task_workspace_dir_for_root("/srv/a", 0), "/srv/a/workspaces/task-00000000");
    assert_eq!(mission_workspace_dir("/work", 0xab), "/work/workspaces/mission-00000000");
    assert_eq!(run_dir_named("/w", "mission", "abc"), "/w/workspaces/mission-abc");
    assert_eq!(run_dir_named("/w", "task", "0123456789"), "/w/workspaces/task-01234567");
    assert_eq!(prepare_workspace_dir("/w/m"), vec!["/w/m/output", "/w/m/temp"]);
    assert_eq!(runtime_state_path("/work"), "/work/.openagent/runtime/current_workspace.json");
}

#[test]
fn runtime_state() {
    let w = container(0x12345678_9abc_def0_1234_56789abcdef0, "alpha", "/srv/alpha");
    let s = write_runtime_workspace_state(&w, "/srv/alpha/workspaces/mission-1", Some(1));
    assert_eq!(s.workspace_id, "12345678-9abc-def0-1234-56789abcdef0");
    assert_eq!(s.workspace_name, "alpha");
    assert_eq!(s.workspace_type, "chroot");
    assert_eq!(s.workspace_root, "/srv/alpha");
    assert_eq!(s.working_dir, "/srv/alpha/workspaces/mission-1");
    assert_eq!(s.mission_id, Some("00000000-0000-0000-0000-000000000001".to_string()));
    let host = Workspace::default_host_at("/work", 1);
    let t = write_runtime_workspace_state(&host, "/work", None);
    assert_eq!(t.workspace_id, "00000000-0000-0000-0000-000000000000");
    let last = container(u128::MAX, "z", "/z");
    assert_eq!(
        write_runtime_workspace_state(&last, "/z", Some(0x0a0b_0c0d_0001_0020_0300_4000_0000_00ff)).mission_id,
        Some("0a0b0c0d-0001-0020-0300-4000000000ff".to_string())
    );
    assert_eq!(
        write_runtime_workspace_state(&last, "/z", None).workspace_id,
        "ffffffff-ffff-ffff-ffff-ffffffffffff"
    );
    assert_eq!(t.workspace_type, "host");
    assert_eq!(t.mission_id, None);
}

#[test]
fn requested_workspaces() {
    let req = |kind, path: Option<&str>| CreateWorkspaceRequest {
        name: "alpha".to_string(),
        workspace_type: kind,
        path: path.map(|s| s.to_string()),
    };
    let c = create_workspace(&req(WorkspaceType::Chroot, None), "/work");
    assert_eq!(c.path, "/work/.openagent/containers/alpha");
    assert_ne!(c.id, DEFAULT_WORKSPACE_ID);
    assert_eq!(c.status, WorkspaceStatus::Pending);
    assert_eq!(c.workspace_type, WorkspaceType::Chroot);
    let h = create_workspace(&req(WorkspaceType::Host, None), "/work");
    assert_eq!(h.path, "/work");
    assert_eq!(h.status, WorkspaceStatus::Ready);
    assert_eq!(h.workspace_type, WorkspaceType::Host);
    assert_ne!(h.id, DEFAULT_WORKSPACE_ID);
    let p = create_workspace(&req(WorkspaceType::Chroot, Some("/elsewhere")), "/work");
    assert_eq!(p.path, "/elsewhere");
}

#[test]
fn mission_directory_is_planned_the_same_twice() {
    let w = container(2, "alpha", "/srv/alpha");
    let a = prepare_mission_workspace_in(&w, &vec![], &vec![], 7);
    let b = prepare_mission_workspace_in(&w, &vec![], &vec![], 7);
    assert_eq!(a, b);
    assert_eq!(a.dir, "/srv/alpha/workspaces/mission-00000000");
    assert_eq!(
        a.directories,
        vec!["/srv/alpha/workspaces/mission-00000000/output", "/srv/alpha/workspaces/mission-00000000/temp"]
    );
    assert_eq!(
        a.config_paths,
        vec![
            "/srv/alpha/workspaces/mission-00000000/opencode.json",
            "/srv/alpha/workspaces/mission-00000000/.opencode/opencode.json",
        ]
    );
    assert_eq!(a.config.schema, "https://opencode.ai/config.json");
}

#[test]
fn container_first_run() {
    let mut store = WorkspaceStore::new("/work");
    let req = CreateWorkspaceRequest {
        name: "alpha".to_string(),
        workspace_type: WorkspaceType::Chroot,
        path: None,
    };
    let created = create_workspace(&req, "/work");
    let id = store.add(created.duplicate());
    let summary = |s: &WorkspaceStore| s.get(id).map(|w| (w.workspace_type, w.status));
    assert_eq!(authorize_workspace_shell(summary(&store)), Err(HandshakeError::WorkspaceNotReady));

    let mut building = store.get(id).unwrap();
    assert!(!is_container_ready(&vec![]));
    let step = begin_build(&mut building, Some(NspawnDistro::UbuntuNoble), false, None);
    assert_eq!(step, Ok(BuildStep::Build { distro: NspawnDistro::UbuntuNoble, destroy_first: false }));
    assert!(store.update(building.duplicate()));
    assert_eq!(store.get(id).unwrap().status, WorkspaceStatus::Building);
    assert_eq!(authorize_workspace_shell(summary(&store)), Err(HandshakeError::WorkspaceNotReady));

    assert_eq!(finish_build(&mut building, Ok(())), Ok(()));
    assert!(store.update(building.duplicate()));
    assert_eq!(store.get(id).unwrap().status, WorkspaceStatus::Ready);
    assert_eq!(authorize_workspace_shell(summary(&store)), Ok(()));

    let shell = workspace_shell_command(
        building.workspace_type,
        &building.path,
        &building.name,
        "the-id",
        None,
        false,
        true,
        None,
    );
    assert!(shell.args.contains(&"--setenv=WORKSPACE_NAME=alpha".to_string()));
    assert!(shell.args.contains(&"--machine=alpha".to_string()));
    assert!(shell.env.contains(&("WORKSPACE_NAME".to_string(), "alpha".to_string())));
    assert_eq!(shell.args[1], "/work/.openagent/containers/alpha");

    assert_eq!(store.delete(id), DeleteOutcome::Deleted);
    assert_eq!(check_destroy(&building), Ok(()));
    assert_eq!(destroy_container(&building.path, true).map(|t| t.len()), Some(4));
    assert_eq!(store.get(id), None);
}

#[test]
fn other_directories_are_planned() {
    let custom = prepare_custom_workspace("/srv/custom", &vec![], &vec![]);
    assert_eq!(custom.dir, "/srv/custom");
    assert_eq!(custom.directories, vec!["/srv/custom/output", "/srv/custom/temp"]);
    assert_eq!(custom.config.tools, None);
    let mission = prepare_mission_workspace("/work", &vec![], &vec![], 0xabcdef01 << 96);
    assert_eq!(mission.dir, "/work/workspaces/mission-abcdef01");
    let task = prepare_task_workspace("/work", &vec![], &vec![], 0x0000002a << 96);
    assert_eq!(task.dir, "/work/workspaces/task-0000002a");
    assert_eq!(task.config_paths[0], "/work/workspaces/task-0000002a/opencode.json");
}
