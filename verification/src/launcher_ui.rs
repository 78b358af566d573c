//! The launcher window's decisions: what its worker's messages and answers
//! turn into, what the user's actions ask of the worker, and the rules of
//! the project list's editing fields.
use vstd::prelude::*;
use vstd::string::StringExecFns;
use crate::text::{decimal, push_decimal, text_eq};

verus! {

/// The message shown for failures the user cannot act on.
pub open spec fn generic_error() -> Seq<char> {
    "Something went wrong, consider restarting."@
}

/// See [generic_error].
pub fn generic_error_message() -> (r: String)
    ensures
        r@ == generic_error(),
{
    String::from_str("Something went wrong, consider restarting.")
}

/// Something the user did (or the worker asked for) that the window
/// responds to.
#[derive(Debug)]
pub enum UiAction {
    OpenProjectEditor(String),
    CreateProjectFromName(String),
    RenameProject(String, String),
    DeleteProject(String),
    ShowError(String),
    Close,
    Focus,
}

/// A message from the worker thread, without its payload.
#[derive(Clone, Copy, Debug, PartialEq, Eq, Structural)]
pub enum WorkerMsgKind {
    FatalError,
    SetupComplete,
    Close,
    CloseAll,
    Focus,
    ProjectAppeared,
    ProjectChanged,
    ProjectDisappeared,
    ProjectOpenFailed,
}

/// What the window does with a worker message.
#[derive(Debug)]
pub enum WorkerMsgEffect {
    /// Exit the process with failure.
    Exit,
    /// The worker finished its setup: show the project list.
    SetupComplete,
    /// Queue this action; `close_editors`: also stop every editor on exit.
    Action { action: UiAction, close_editors: bool },
    /// Update the project list (and show the generic error if that fails).
    UpdateProjects,
}

/// See [WorkerMsgEffect].
pub fn worker_msg_effect(msg: WorkerMsgKind) -> (r: WorkerMsgEffect)
    ensures
        match msg {
            WorkerMsgKind::FatalError => r is Exit,
            WorkerMsgKind::SetupComplete => r is SetupComplete,
            WorkerMsgKind::Close => r matches WorkerMsgEffect::Action { action: UiAction::Close, close_editors: false },
            WorkerMsgKind::CloseAll => r matches WorkerMsgEffect::Action { action: UiAction::Close, close_editors: true },
            WorkerMsgKind::Focus => r matches WorkerMsgEffect::Action { action: UiAction::Focus, close_editors: false },
            WorkerMsgKind::ProjectOpenFailed => r matches WorkerMsgEffect::Action {
                action: UiAction::ShowError(m),
                close_editors: false,
            } && m@ == "Failed to open project."@,
            _ => r is UpdateProjects,
        },
{
    match msg {
        WorkerMsgKind::FatalError => WorkerMsgEffect::Exit,
        WorkerMsgKind::SetupComplete => WorkerMsgEffect::SetupComplete,
        WorkerMsgKind::Close => WorkerMsgEffect::Action { action: UiAction::Close, close_editors: false },
        WorkerMsgKind::CloseAll => WorkerMsgEffect::Action { action: UiAction::Close, close_editors: true },
        WorkerMsgKind::Focus => WorkerMsgEffect::Action { action: UiAction::Focus, close_editors: false },
        WorkerMsgKind::ProjectOpenFailed => WorkerMsgEffect::Action {
            action: UiAction::ShowError(String::from_str("Failed to open project.")),
            close_editors: false,
        },
        _ => WorkerMsgEffect::UpdateProjects,
    }
}

/// Why a worker task failed.
#[derive(Clone, Copy, Debug, PartialEq, Eq, Structural)]
pub enum TaskFailure {
    FailedToRunEditor,
    ProjectError,
}

/// The message shown when a worker task fails.
pub fn task_failure_message(failure: TaskFailure) -> (r: String)
    ensures
        r@ == match failure {
            TaskFailure::FailedToRunEditor => "Failed to launch editor."@,
            TaskFailure::ProjectError => generic_error(),
        },
{
    match failure {
        TaskFailure::FailedToRunEditor => String::from_str("Failed to launch editor."),
        TaskFailure::ProjectError => generic_error_message(),
    }
}

/// A task for the worker thread.
#[derive(Debug)]
pub enum WorkerTask {
    OpenProjectEditor(String),
    CreateProjectFromName(String),
    DeleteProject(String),
    RenameProject(String, String),
}

/// What the window does with an action.
#[derive(Debug)]
pub enum ActionRoute {
    /// A task for the background worker to run.
    Task(WorkerTask),
    /// Show this error in a popup.
    ShowError(String),
    /// Close the window.
    Close,
    /// Ask the window system for the user's attention.
    Focus,
}

/// Project work goes to the worker; errors, closing and focus are handled
/// by the window itself.
pub fn route_action(action: UiAction) -> (r: ActionRoute)
    ensures
        match action {
            UiAction::OpenProjectEditor(id) => r matches ActionRoute::Task(WorkerTask::OpenProjectEditor(i)) && i == id,
            UiAction::CreateProjectFromName(n) => r matches ActionRoute::Task(WorkerTask::CreateProjectFromName(m)) && m == n,
            UiAction::RenameProject(id, n) => r matches ActionRoute::Task(WorkerTask::RenameProject(i, m)) && i == id && m == n,
            UiAction::DeleteProject(id) => r matches ActionRoute::Task(WorkerTask::DeleteProject(i)) && i == id,
            UiAction::ShowError(e) => r matches ActionRoute::ShowError(m) && m == e,
            UiAction::Close => r is Close,
            UiAction::Focus => r is Focus,
        },
{
    match action {
        UiAction::OpenProjectEditor(id) => ActionRoute::Task(WorkerTask::OpenProjectEditor(id)),
        UiAction::CreateProjectFromName(n) => ActionRoute::Task(WorkerTask::CreateProjectFromName(n)),
        UiAction::RenameProject(id, n) => ActionRoute::Task(WorkerTask::RenameProject(id, n)),
        UiAction::DeleteProject(id) => ActionRoute::Task(WorkerTask::DeleteProject(id)),
        UiAction::ShowError(e) => ActionRoute::ShowError(e),
        UiAction::Close => ActionRoute::Close,
        UiAction::Focus => ActionRoute::Focus,
    }
}

/// The actions a double click on a project row queues: open its editor,
/// then close the launcher unless it is set to stay open.
pub fn open_project_actions(project_id: &str, stay_open: bool) -> (r: Vec<UiAction>)
    ensures
        r@.len() == (if stay_open { 1nat } else { 2nat }),
        r@[0] matches UiAction::OpenProjectEditor(id) && id@ == project_id@,
        !stay_open ==> r@[1] is Close,
{
    let mut r: Vec<UiAction> = Vec::new();
    r.push(UiAction::OpenProjectEditor(String::from_str(project_id)));
    if !stay_open {
        r.push(UiAction::Close);
    }
    r
}

/// The outcome of the new-project prompt in one frame.
#[derive(Debug)]
pub enum NewProjectOutcome {
    /// Keep the prompt open (refocus the name field when `refocus`).
    Open { refocus: bool },
    /// Create a project with this name and close the prompt.
    Create(String),
    /// Close the prompt without creating anything.
    Cancelled,
}

/// A submitted name creates a project unless it is empty; a cancel closes
/// the prompt.
pub fn new_project_outcome(name: String, submitted: bool, cancelled: bool) -> (r: NewProjectOutcome)
    ensures
        submitted && name@.len() == 0 ==> r matches NewProjectOutcome::Open { refocus: true },
        submitted && name@.len() > 0 ==> (r matches NewProjectOutcome::Create(n) && n == name),
        !submitted && cancelled ==> r is Cancelled,
        !submitted && !cancelled ==> r matches NewProjectOutcome::Open { refocus: false },
{
    if submitted {
        if name.unicode_len() == 0 {
            NewProjectOutcome::Open { refocus: true }
        } else {
            NewProjectOutcome::Create(name)
        }
    } else if cancelled {
        NewProjectOutcome::Cancelled
    } else {
        NewProjectOutcome::Open { refocus: false }
    }
}

/// What leaving a project's name field does.
#[derive(Debug)]
pub enum RenameOutcome {
    /// An empty name was confirmed: refocus the field.
    Refocus,
    /// Rename the project (its row is blocked until the rename finishes).
    Rename(String),
    /// The name did not change.
    Unchanged,
    /// The edit was abandoned: reset the field to the current name.
    Reset,
}

/// Confirming (Enter) renames to a changed, non-empty name; leaving the
/// field otherwise abandons the edit.
pub fn rename_outcome(buffer: &str, current_name: &str, confirmed: bool) -> (r: RenameOutcome)
    ensures
        confirmed && buffer@.len() == 0 ==> r is Refocus,
        confirmed && buffer@.len() > 0 && buffer@ != current_name@ ==> (r matches RenameOutcome::Rename(n) && n@ == buffer@),
        confirmed && buffer@.len() > 0 && buffer@ == current_name@ ==> r is Unchanged,
        !confirmed ==> r is Reset,
{
    if confirmed {
        if buffer.unicode_len() == 0 {
            RenameOutcome::Refocus
        } else if !text_eq(buffer, current_name) {
            RenameOutcome::Rename(String::from_str(buffer))
        } else {
            RenameOutcome::Unchanged
        }
    } else {
        RenameOutcome::Reset
    }
}

/// "Showing <shown>/<total>"
pub fn showing_label(shown: usize, total: usize) -> (r: String)
    ensures
        r@ == "Showing "@ + decimal(shown as nat) + "/"@ + decimal(total as nat),
{
    let mut s = String::from_str("Showing ");
    push_decimal(&mut s, shown);
    s.append("/");
    push_decimal(&mut s, total);
    s
}

/// Seconds between two saves of the launcher's window settings.
pub const UI_SAVE_INTERVAL_SECS: u64 = 10;

/// Whether the window settings are written now: at most once per interval,
/// and only when they changed or the last write failed.
pub fn should_save_ui_data(seconds_since_last_save: u64, last_save_worked: bool, changed: bool) -> (r: bool)
    ensures
        r == (seconds_since_last_save >= UI_SAVE_INTERVAL_SECS && (!last_save_worked || changed)),
{
    seconds_since_last_save >= UI_SAVE_INTERVAL_SECS && (!last_save_worked || changed)
}

} // verus!
