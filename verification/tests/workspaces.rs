use sher_display::common::ObjectId;
use sher_display::workspaces::WorkspaceManager;

#[test]
fn cannot_delete_the_last_workspace() {
    let mut mgr = WorkspaceManager::new();
    let only = mgr.list()[0].id;
    assert!(mgr.delete_workspace(&only).is_err());
}

#[test]
fn outputs_switch_workspaces_independently() {
    let mut mgr = WorkspaceManager::new();
    let ws2 = mgr.create_workspace("Workspace 2", false);
    let laptop = ObjectId::from_raw(4_001);
    let external = ObjectId::from_raw(4_002);
    let ws1 = mgr.list()[0].id;

    mgr.switch(laptop, ws1).unwrap();
    mgr.switch(external, ws2).unwrap();

    assert_eq!(mgr.active_for_output(&laptop), Some(ws1));
    assert_eq!(mgr.active_for_output(&external), Some(ws2));
}

#[test]
fn dynamic_workspaces_grow_when_last_one_fills() {
    let mut mgr = WorkspaceManager::new();
    let dyn_ws = mgr.create_workspace("Dynamic 1", true);
    let before: usize = mgr.list().len();

    mgr.assign_window(&dyn_ws, ObjectId::from_raw(4_003)).unwrap();

    assert_eq!(mgr.list().len(), before + 1);
}

#[test]
fn moving_a_window_updates_both_workspaces() {
    let mut mgr = WorkspaceManager::new();
    let ws1 = mgr.list()[0].id;
    let ws2 = mgr.create_workspace("Workspace 2", false);
    let window = ObjectId::from_raw(4_004);

    mgr.assign_window(&ws1, window).unwrap();
    mgr.move_window(&window, &ws1, &ws2).unwrap();

    assert!(!mgr.windows_in(&ws1).contains(&window));
    assert!(mgr.windows_in(&ws2).contains(&window));
}

#[test]
fn first_workspace_and_grown_workspaces_are_named_by_number() {
    let mut mgr = WorkspaceManager::new();
    assert_eq!(mgr.list()[0].name, "Workspace 1");
    let dyn_ws = mgr.create_workspace("Dynamic 1", true);
    mgr.assign_window(&dyn_ws, ObjectId::from_raw(4_005)).unwrap();
    let names: Vec<String> = mgr.list().iter().map(|w| w.name.clone()).collect();
    assert_eq!(names, vec!["Workspace 1".to_string(), "Dynamic 1".to_string(), "Workspace 3".to_string()]);
    let indices: Vec<usize> = mgr.list().iter().map(|w| w.index).collect();
    assert_eq!(indices, vec![0, 1, 2]);
}

#[test]
fn deleting_a_workspace_reindexes_and_forgets_it_on_outputs() {
    let mut mgr = WorkspaceManager::new();
    let ws1 = mgr.list()[0].id;
    let ws2 = mgr.create_workspace("Workspace 2", false);
    let ws3 = mgr.create_workspace("Workspace 3", false);
    let output = ObjectId::from_raw(4_006);
    mgr.switch(output, ws2).unwrap();
    mgr.delete_workspace(&ws2).unwrap();
    assert_eq!(mgr.active_for_output(&output), None);
    let ids: Vec<ObjectId> = mgr.list().iter().map(|w| w.id).collect();
    assert_eq!(ids, vec![ws1, ws3]);
    assert_eq!(mgr.get(&ws3).unwrap().index, 1);
    assert!(mgr.get(&ws2).is_none());
}

#[test]
fn missing_workspaces_are_reported() {
    let mut mgr = WorkspaceManager::new();
    let ws1 = mgr.list()[0].id;
    let bogus = ObjectId::from_raw(4_999);
    assert!(mgr.switch(ObjectId::from_raw(4_007), bogus).is_err());
    assert!(mgr.assign_window(&bogus, ObjectId::from_raw(4_008)).is_err());
    assert!(mgr.move_window(&ObjectId::from_raw(4_008), &ws1, &bogus).is_err());
    assert!(mgr.move_window(&ObjectId::from_raw(4_008), &bogus, &ws1).is_err());
    assert!(mgr.windows_in(&bogus).is_empty());
}

#[test]
fn assigning_twice_keeps_one_entry() {
    let mut mgr = WorkspaceManager::new();
    let ws1 = mgr.list()[0].id;
    let window = ObjectId::from_raw(4_009);
    mgr.assign_window(&ws1, window).unwrap();
    mgr.assign_window(&ws1, window).unwrap();
    assert_eq!(mgr.windows_in(&ws1), &[window]);
}
