use substrate::ipc::{
    exit_after_sending, launcher_role, messages_to_send, receive_only_exit, relay_to_ui, rescan_step, send_only_exit,
    unreachable_receiver_exit, Args, ExitStatus, ForcibleFlag, InstanceLockData, InstanceLockError,
    InvalidOIMsgByte, LauncherRole, MessageQueue, OIMsg, RelayedMsg, ITERATIONS_BETWEEN_RESCANS,
};
use substrate::launcher_ui::{
    generic_error_message, new_project_outcome, open_project_actions, rename_outcome, route_action,
    should_save_ui_data, showing_label, task_failure_message, worker_msg_effect, ActionRoute, NewProjectOutcome,
    RenameOutcome, TaskFailure, UiAction, WorkerMsgEffect, WorkerMsgKind, WorkerTask,
};
use substrate::projects::{
    call_and_unlock_result, check_loaded_id, cleanup_after_failure, data_lock_error, is_open_outcome, open_error,
    ListedProject, OpenCleanup, OpenStep, ProjectError, ProjectId, ProjectList, TryLockOutcome,
};

fn la_args() -> Args {
    Args {
        editor_cmd: vec![],
        send_only: None,
        receive_only: None,
        no_focus: false,
        rescan_projects: false,
        project_open_failed: false,
        version: None,
    }
}

fn la_project(id: &str, name: &str, touched: u128) -> ListedProject {
    ListedProject { id: id.to_string(), name: name.to_string(), touched }
}

#[test]
fn message_bytes_round_trip() {
    for m in [OIMsg::Focus, OIMsg::ProjectUpdated, OIMsg::ProjectOpenFailed, OIMsg::Close] {
        assert_eq!(OIMsg::try_from_byte(m.to_byte()), Ok(m));
        assert_eq!(m.to_char() as u32, m.to_byte() as u32);
    }
    assert_eq!(OIMsg::Focus.to_byte(), b'F');
    assert_eq!(OIMsg::ProjectUpdated.to_char(), 'U');
    assert_eq!(OIMsg::ProjectOpenFailed.to_char(), 'O');
    assert_eq!(OIMsg::Close.to_char(), 'C');
    assert_eq!(OIMsg::try_from_byte(b'x'), Err(InvalidOIMsgByte(b'x')));
}

#[test]
fn queue_skips_invalid_bytes_and_keeps_order() {
    let mut q = MessageQueue::new();
    assert_eq!(q.pop(), None);
    q.push_bytes(&b"FzUOC\n".to_vec());
    assert_eq!(q.pop(), Some(OIMsg::Focus));
    q.push_bytes(&b"C".to_vec());
    assert_eq!(q.pop(), Some(OIMsg::ProjectUpdated));
    assert_eq!(q.pop(), Some(OIMsg::ProjectOpenFailed));
    assert_eq!(q.pop(), Some(OIMsg::Close));
    assert_eq!(q.pop(), Some(OIMsg::Close));
    assert_eq!(q.pop(), None);
}

#[test]
fn sender_messages() {
    let mut args = la_args();
    assert_eq!(messages_to_send(&args), vec![OIMsg::Focus]);
    args.no_focus = true;
    assert!(messages_to_send(&args).is_empty());
    args.rescan_projects = true;
    args.project_open_failed = true;
    assert_eq!(messages_to_send(&args), vec![OIMsg::ProjectUpdated, OIMsg::ProjectOpenFailed]);
    args.no_focus = false;
    assert_eq!(
        messages_to_send(&args),
        vec![OIMsg::Focus, OIMsg::ProjectUpdated, OIMsg::ProjectOpenFailed]
    );
}

#[test]
fn sender_exit_codes() {
    assert_eq!(receive_only_exit(None), None);
    assert_eq!(receive_only_exit(Some(ForcibleFlag::True)), Some(ExitStatus::Success));
    assert_eq!(receive_only_exit(Some(ForcibleFlag::Force)), Some(ExitStatus::Failure));
    assert_eq!(send_only_exit(None), None);
    assert_eq!(send_only_exit(Some(ForcibleFlag::True)), Some(ExitStatus::Success));
    assert_eq!(send_only_exit(Some(ForcibleFlag::Force)), Some(ExitStatus::Failure));
    assert_eq!(unreachable_receiver_exit(None), ExitStatus::Success);
    assert_eq!(unreachable_receiver_exit(Some(ForcibleFlag::True)), ExitStatus::Success);
    assert_eq!(unreachable_receiver_exit(Some(ForcibleFlag::Force)), ExitStatus::Failure);
    assert_eq!(exit_after_sending(&vec![true, true]), ExitStatus::Success);
    assert_eq!(exit_after_sending(&vec![true, false, true]), ExitStatus::Failure);
    assert_eq!(exit_after_sending(&vec![]), ExitStatus::Success);
}

#[test]
fn relayed_messages() {
    assert_eq!(relay_to_ui(OIMsg::Focus), Some(RelayedMsg::Focus));
    assert_eq!(relay_to_ui(OIMsg::ProjectOpenFailed), Some(RelayedMsg::ProjectOpenFailed));
    assert_eq!(relay_to_ui(OIMsg::Close), Some(RelayedMsg::Close));
    assert_eq!(relay_to_ui(OIMsg::ProjectUpdated), None);
}

#[test]
fn rescans_every_eighty_iterations() {
    assert_eq!(ITERATIONS_BETWEEN_RESCANS, 79);
    let mut count = 0usize;
    let mut scans = vec![];
    for i in 1..=200usize {
        let (scan, next) = rescan_step(false, count);
        if scan {
            scans.push(i);
        }
        count = next;
    }
    assert_eq!(scans, vec![80, 160]);
    assert_eq!(rescan_step(true, 3), (true, 0));
    assert_eq!(rescan_step(false, 3), (false, 4));
}

#[test]
fn lock_data_version_upgrade() {
    let mut d = InstanceLockData::new(5u32, "1.0.0");
    assert_eq!(d.app_version, "1.0.0");
    assert!(!d.upgrade_version("1.0.0"));
    assert!(d.upgrade_version("1.1.0"));
    assert_eq!(d.app_version, "1.1.0");
    assert_eq!(d.data, 5);
}

#[test]
fn launcher_roles() {
    assert_eq!(launcher_role::<u8>(&Ok(1)), LauncherRole::Receiver);
    assert_eq!(launcher_role::<u8>(&Err(InstanceLockError::Locked)), LauncherRole::Sender);
    assert_eq!(
        launcher_role::<u8>(&Err(InstanceLockError::SavedFileError("disk".to_string()))),
        LauncherRole::Fail
    );
}

#[test]
fn project_ids() {
    let id = ProjectId::try_from_text::<()>("my_project-2").unwrap();
    assert_eq!(id.as_str(), "my_project-2");
    assert!(matches!(ProjectId::try_from_text::<()>(""), Err(ProjectError::InvalidIdString)));
    assert!(matches!(ProjectId::try_from_text::<()>("a b"), Err(ProjectError::InvalidIdString)));
    assert!(matches!(ProjectId::try_from_text::<()>("../x"), Err(ProjectError::InvalidIdString)));
}

#[test]
fn unlock_error_only_wins_over_success() {
    assert_eq!(call_and_unlock_result::<u8, &str>(Ok(1), Ok(())), Ok(1));
    assert_eq!(call_and_unlock_result::<u8, &str>(Ok(1), Err("unlock")), Err("unlock"));
    assert_eq!(call_and_unlock_result::<u8, &str>(Err("call"), Err("unlock")), Err("call"));
    assert_eq!(call_and_unlock_result::<u8, &str>(Err("call"), Ok(())), Err("call"));
}

#[test]
fn cleanup_undoes_earlier_steps() {
    assert_eq!(
        cleanup_after_failure(OpenStep::LockInfo, true),
        OpenCleanup { unlock_data_file: false, remove_data_file: false, unlock_info_file: false }
    );
    assert_eq!(
        cleanup_after_failure(OpenStep::CreateOrOpenData, true),
        OpenCleanup { unlock_data_file: false, remove_data_file: false, unlock_info_file: true }
    );
    assert_eq!(
        cleanup_after_failure(OpenStep::LockData, true),
        OpenCleanup { unlock_data_file: false, remove_data_file: true, unlock_info_file: true }
    );
    assert_eq!(
        cleanup_after_failure(OpenStep::LoadData, false),
        OpenCleanup { unlock_data_file: true, remove_data_file: false, unlock_info_file: true }
    );
}

#[test]
fn lock_outcomes() {
    assert!(data_lock_error(TryLockOutcome::Locked).is_none());
    assert!(matches!(data_lock_error(TryLockOutcome::WouldBlock), Some(ProjectError::Locked(()))));
    assert!(matches!(
        data_lock_error(TryLockOutcome::Failed("denied".to_string())),
        Some(ProjectError::IoError(ref m)) if m == "denied"
    ));
    assert!(matches!(is_open_outcome::<()>(false, TryLockOutcome::WouldBlock), Ok(false)));
    assert!(matches!(is_open_outcome::<()>(true, TryLockOutcome::Locked), Ok(false)));
    assert!(matches!(is_open_outcome::<()>(true, TryLockOutcome::WouldBlock), Ok(true)));
    assert!(matches!(
        is_open_outcome::<()>(true, TryLockOutcome::Failed("x".to_string())),
        Err(ProjectError::IoError(ref m)) if m == "x"
    ));
    assert!(check_loaded_id::<()>("abc", "abc").is_ok());
    assert!(matches!(check_loaded_id::<()>("abc", "abd"), Err(ProjectError::BadSerializedData)));
}

#[test]
fn open_elsewhere_hands_the_project_back() {
    assert!(matches!(open_error(ProjectError::Locked(()), "the project"), ProjectError::Locked("the project")));
    assert!(matches!(
        open_error(ProjectError::IoError("disk".to_string()), 7u8),
        ProjectError::IoError(ref m) if m == "disk"
    ));
    assert!(matches!(open_error(ProjectError::BadSerializedData, 7u8), ProjectError::BadSerializedData));
}

#[test]
fn project_list_stays_in_launcher_order() {
    let mut list = ProjectList::new();
    list.insert(la_project("a", "Beta", 10));
    list.insert(la_project("b", "Alpha", 10));
    list.insert(la_project("c", "Zed", 30));
    list.insert(la_project("d", "Old", 1));
    let ids: Vec<&str> = list.projects().iter().map(|p| p.id.as_str()).collect();
    assert_eq!(ids, vec!["c", "b", "a", "d"]);
    assert_eq!(list.position("a"), Some(2));
    assert_eq!(list.position("zz"), None);
    list.remove("b");
    let ids: Vec<&str> = list.projects().iter().map(|p| p.id.as_str()).collect();
    assert_eq!(ids, vec!["c", "a", "d"]);
    list.remove("zz");
    assert_eq!(list.projects().len(), 3);
}

#[test]
fn worker_messages_reach_the_ui() {
    assert!(matches!(worker_msg_effect(WorkerMsgKind::FatalError), WorkerMsgEffect::Exit));
    assert!(matches!(worker_msg_effect(WorkerMsgKind::SetupComplete), WorkerMsgEffect::SetupComplete));
    assert!(matches!(
        worker_msg_effect(WorkerMsgKind::CloseAll),
        WorkerMsgEffect::Action { action: UiAction::Close, close_editors: true }
    ));
    assert!(matches!(
        worker_msg_effect(WorkerMsgKind::Close),
        WorkerMsgEffect::Action { action: UiAction::Close, close_editors: false }
    ));
    assert!(matches!(
        worker_msg_effect(WorkerMsgKind::ProjectOpenFailed),
        WorkerMsgEffect::Action { action: UiAction::ShowError(ref m), close_editors: false }
            if m == "Failed to open project."
    ));
    assert!(matches!(worker_msg_effect(WorkerMsgKind::ProjectChanged), WorkerMsgEffect::UpdateProjects));
}

#[test]
fn task_failures_and_routes() {
    assert_eq!(task_failure_message(TaskFailure::FailedToRunEditor), "Failed to launch editor.");
    assert_eq!(task_failure_message(TaskFailure::ProjectError), generic_error_message());
    assert_eq!(generic_error_message(), "Something went wrong, consider restarting.");
    assert!(matches!(
        route_action(UiAction::RenameProject("a".to_string(), "B".to_string())),
        ActionRoute::Task(WorkerTask::RenameProject(ref i, ref n)) if i == "a" && n == "B"
    ));
    assert!(matches!(route_action(UiAction::Close), ActionRoute::Close));
    assert!(matches!(
        route_action(UiAction::ShowError("e".to_string())),
        ActionRoute::ShowError(ref m) if m == "e"
    ));
}

#[test]
fn opening_a_project_closes_the_launcher_unless_asked_to_stay() {
    let a = open_project_actions("p1", false);
    assert_eq!(a.len(), 2);
    assert!(matches!(a[0], UiAction::OpenProjectEditor(ref id) if id == "p1"));
    assert!(matches!(a[1], UiAction::Close));
    assert_eq!(open_project_actions("p1", true).len(), 1);
}

#[test]
fn new_project_and_rename_popups() {
    assert!(matches!(new_project_outcome(String::new(), true, false), NewProjectOutcome::Open { refocus: true }));
    assert!(matches!(
        new_project_outcome("Film".to_string(), true, false),
        NewProjectOutcome::Create(ref n) if n == "Film"
    ));
    assert!(matches!(new_project_outcome("Film".to_string(), false, true), NewProjectOutcome::Cancelled));
    assert!(matches!(new_project_outcome("Film".to_string(), false, false), NewProjectOutcome::Open { refocus: false }));
    assert!(matches!(rename_outcome("", "Old", true), RenameOutcome::Refocus));
    assert!(matches!(rename_outcome("New", "Old", true), RenameOutcome::Rename(ref n) if n == "New"));
    assert!(matches!(rename_outcome("Old", "Old", true), RenameOutcome::Unchanged));
    assert!(matches!(rename_outcome("New", "Old", false), RenameOutcome::Reset));
}

#[test]
fn labels_and_save_schedule() {
    assert_eq!(showing_label(3, 12), "Showing 3/12");
    assert!(!should_save_ui_data(9, false, true));
    assert!(should_save_ui_data(10, false, false));
    assert!(should_save_ui_data(10, true, true));
    assert!(!should_save_ui_data(10, true, false));
}

#[test]
fn replaced_project_moves_to_its_new_place() {
    let mut list = ProjectList::new();
    list.insert(la_project("a", "A", 10));
    list.insert(la_project("b", "B", 20));
    list.insert(la_project("c", "C", 30));
    assert!(list.replace("a", la_project("a", "A", 40)));
    let ids: Vec<&str> = list.projects().iter().map(|p| p.id.as_str()).collect();
    assert_eq!(ids, vec!["a", "c", "b"]);
    assert!(!list.replace("zz", la_project("zz", "Z", 1)));
    assert_eq!(list.projects().len(), 3);
}
