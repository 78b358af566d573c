//! The editing session: whether the open project has unsaved changes, and
//! what happens when the editor window is asked to close.
//!
//! Changes are detected by hashing the graph: the hash of everything, and
//! the hash of the content alone (without the view's pan and zoom). The
//! hashes are computed by the caller; this module keeps the saved ones and
//! makes the decisions.
use vstd::prelude::*;
use vstd::string::StringExecFns;
use crate::text::decimal;

verus! {

/// What the editor knows about the open project's saved state.
#[derive(Debug)]
pub struct EditTracker {
    /// A project is open.
    pub has_project: bool,
    /// Something was edited since the project was opened or saved.
    pub edited: bool,
    /// The hash of the whole graph when last opened or saved.
    pub saved_hash: Option<u64>,
    /// The hash of the graph's content (view excluded) when last opened or saved.
    pub saved_content_hash: Option<u64>,
}

impl EditTracker {
    /// No project, nothing edited.
    pub fn new() -> (r: Self)
        ensures
            !r.has_project,
            !r.edited,
            r.saved_hash is None,
            r.saved_content_hash is None,
    {
        EditTracker { has_project: false, edited: false, saved_hash: None, saved_content_hash: None }
    }

    /// A project was opened, with these hashes of its graph.
    pub fn set_project(&mut self, hash: Option<u64>, content_hash: Option<u64>)
        ensures
            final(self).has_project,
            !final(self).edited,
            final(self).saved_hash == hash,
            final(self).saved_content_hash == content_hash,
    {
        self.saved_hash = hash;
        self.saved_content_hash = content_hash;
        self.edited = false;
        self.has_project = true;
    }

    /// Marks the project as edited.
    pub fn mark_edited(&mut self)
        ensures
            final(self).edited,
            final(self).has_project == old(self).has_project,
            final(self).saved_hash == old(self).saved_hash,
            final(self).saved_content_hash == old(self).saved_content_hash,
    {
        self.edited = true;
    }

    /// After an interaction with the graph: a graph whose hash differs
    /// from the saved one was edited.
    pub fn check_hash_changed(&mut self, current_hash: u64)
        ensures
            final(self).edited == (old(self).edited || (old(self).saved_hash is Some && old(self).saved_hash
                != Some(current_hash))),
            final(self).has_project == old(self).has_project,
            final(self).saved_hash == old(self).saved_hash,
            final(self).saved_content_hash == old(self).saved_content_hash,
    {
        match self.saved_hash {
            Some(h) => {
                if current_hash != h {
                    self.edited = true;
                }
            },
            None => {},
        }
    }

    /// Whether the only unsaved changes are to the view: the content hash
    /// equals the saved one.
    pub fn has_only_view_unsaved_changes(&self, current_content_hash: Option<u64>) -> (r: bool)
        ensures
            r == (self.has_project && self.saved_content_hash is Some && current_content_hash is Some
                && self.saved_content_hash == current_content_hash),
    {
        if !self.has_project {
            return false;
        }
        match (self.saved_content_hash, current_content_hash) {
            (Some(a), Some(b)) => a == b,
            _ => false,
        }
    }

    /// Records a save with the graph's new hashes; an error when no project
    /// is open.
    pub fn saved(&mut self, hash: Option<u64>, content_hash: Option<u64>) -> (r: Result<(), String>)
        ensures
            !old(self).has_project ==> (r matches Err(e) && e@ == "No project is currently open"@) && *final(self)
                == *old(self),
            old(self).has_project ==> r is Ok && !final(self).edited && final(self).has_project
                && final(self).saved_hash == hash && final(self).saved_content_hash == content_hash,
    {
        if !self.has_project {
            return Err(String::from_str("No project is currently open"));
        }
        self.saved_hash = hash;
        self.saved_content_hash = content_hash;
        self.edited = false;
        Ok(())
    }
}

/// What the editor does when its window is asked to close.
#[derive(Clone, Copy, Debug, PartialEq, Eq, Structural)]
pub enum CloseDecision {
    /// Nothing unsaved (or already exiting): let the window close.
    Close,
    /// Only the view changed: save quietly and close.
    SaveAndClose,
    /// Content changed: keep the window open and ask the user.
    AskUser,
}

/// The answer to a close request: ask only when content is unsaved.
pub fn close_decision(exiting: bool, has_project: bool, unsaved: bool, only_view_unsaved: bool) -> (r: CloseDecision)
    ensures
        r == (if exiting || !(has_project && unsaved) {
            CloseDecision::Close
        } else if only_view_unsaved {
            CloseDecision::SaveAndClose
        } else {
            CloseDecision::AskUser
        }),
{
    if exiting || !(has_project && unsaved) {
        CloseDecision::Close
    } else if only_view_unsaved {
        CloseDecision::SaveAndClose
    } else {
        CloseDecision::AskUser
    }
}

/// The user's answer to the unsaved-changes prompt.
#[derive(Clone, Copy, Debug, PartialEq, Eq, Structural)]
pub enum PromptChoice {
    SaveAndExit,
    DiscardAndExit,
    Cancel,
}

/// What the prompt's answer leads to: (save first, close the window).
pub fn prompt_outcome(choice: PromptChoice) -> (r: (bool, bool))
    ensures
        r == match choice {
            PromptChoice::SaveAndExit => (true, true),
            PromptChoice::DiscardAndExit => (false, true),
            PromptChoice::Cancel => (false, false),
        },
{
    match choice {
        PromptChoice::SaveAndExit => (true, true),
        PromptChoice::DiscardAndExit => (false, true),
        PromptChoice::Cancel => (false, false),
    }
}

/// Whether the app saves when it exits without going through the close
/// flow (an unexpected exit): only when unsaved changes remain.
pub fn save_on_unexpected_exit(exiting: bool, unsaved: bool) -> (r: bool)
    ensures
        r == (!exiting && unsaved),
{
    !exiting && unsaved
}

/// Milliseconds to wait before the next repaint: none while playing,
/// fifty while paused (`None` while no engine runs: repaint on input only).
pub fn repaint_delay_ms(engine_running: bool, playing: bool) -> (r: Option<u64>)
    ensures
        r == (if !engine_running {
            None
        } else if playing {
            Some(0u64)
        } else {
            Some(50u64)
        }),
{
    if !engine_running {
        None
    } else if playing {
        Some(0)
    } else {
        Some(50)
    }
}

/// Errors waiting to be shown to the user, one popup at a time, oldest
/// first.
#[derive(Debug)]
pub struct ErrorQueue {
    queue: Vec<String>,
}

impl View for ErrorQueue {
    type V = Seq<Seq<char>>;

    closed spec fn view(&self) -> Seq<Seq<char>> {
        crate::sorted::views(self.queue@)
    }
}

impl ErrorQueue {
    /// No errors.
    pub fn new() -> (r: Self)
        ensures
            r@ == Seq::<Seq<char>>::empty(),
    {
        let r = ErrorQueue { queue: Vec::new() };
        assert(r@ =~= Seq::<Seq<char>>::empty());
        r
    }

    /// Queues an error.
    pub fn push(&mut self, error: String)
        ensures
            final(self)@ == old(self)@.push(error@),
    {
        let ghost e = error@;
        self.queue.push(error);
        assert(self@ =~= old(self)@.push(e));
    }

    /// The error the popup shows: the oldest.
    pub fn current(&self) -> (r: Option<&String>)
        ensures
            self@.len() == 0 ==> r is None,
            self@.len() > 0 ==> (r matches Some(e) && e@ == self@[0]),
    {
        if self.queue.len() == 0 {
            None
        } else {
            Some(&self.queue[0])
        }
    }

    /// The user acknowledged the shown error.
    pub fn acknowledge(&mut self)
        ensures
            final(self)@ == (if old(self)@.len() == 0 {
                old(self)@
            } else {
                old(self)@.drop_first()
            }),
    {
        if self.queue.len() > 0 {
            self.queue.remove(0);
            assert(self@ =~= old(self)@.drop_first());
        }
    }

    /// "<n> additional error(s) remaining", counting the errors behind the
    /// shown one.
    pub fn remaining_label(&self) -> (r: String)
        requires
            self@.len() > 0,
        ensures
            r@ == decimal((self@.len() - 1) as nat) + " additional error"@ + (if self@.len() - 1 != 1 {
                "s"@
            } else {
                ""@
            }) + " remaining"@,
    {
        let remaining = self.queue.len() - 1;
        let mut s = String::new();
        crate::text::push_decimal(&mut s, remaining);
        assert(Seq::<char>::empty() + decimal(remaining as nat) =~= decimal(remaining as nat));
        s.append(" additional error");
        if remaining != 1 {
            s.append("s");
        } else {
            s.append("");
        }
        s.append(" remaining");
        s
    }
}

/// The program that opens a folder in the system's file explorer.
#[derive(Clone, Copy, Debug, PartialEq, Eq, Structural)]
pub enum HostOs {
    Windows,
    MacOs,
    Linux,
}

/// `explorer` on Windows, `open` on macOS, `xdg-open` on Linux.
pub fn file_explorer_program(os: HostOs) -> (r: &'static str)
    ensures
        r@ == match os {
            HostOs::Windows => "explorer"@,
            HostOs::MacOs => "open"@,
            HostOs::Linux => "xdg-open"@,
        },
{
    match os {
        HostOs::Windows => "explorer",
        HostOs::MacOs => "open",
        HostOs::Linux => "xdg-open",
    }
}

} // verus!
