//! Messages between launcher instances.
//!
//! The first launcher instance holds the instance lock and receives
//! one-byte messages that later instances append to a shared file; a later
//! instance sends its messages and exits. This module holds the message
//! encoding, the receiving queue, the sender's decisions and the lock file's
//! data; the file work itself is done by the caller.
use vstd::prelude::*;
use vstd::string::StringExecFns;
use crate::text::text_eq;

verus! {

/// A message from one launcher instance to the main one.
#[derive(Clone, Copy, Debug, PartialEq, Eq, Structural, Hash)]
pub enum OIMsg {
    /// Another instance was launched and is exiting: focus this one.
    Focus,
    /// An editor saved a project.
    ProjectUpdated,
    /// An editor could not open a project.
    ProjectOpenFailed,
    /// An editor asks the launcher to close.
    Close,
}

/// A byte that encodes no message.
#[derive(Clone, Copy, Debug, PartialEq, Eq, Structural, Hash, PartialOrd, Ord)]
pub struct InvalidOIMsgByte(pub u8);

/// The byte that encodes a message: `F`, `U`, `O`, `C`.
pub open spec fn msg_byte(msg: OIMsg) -> u8 {
    match msg {
        OIMsg::Focus => 70,
        OIMsg::ProjectUpdated => 85,
        OIMsg::ProjectOpenFailed => 79,
        OIMsg::Close => 67,
    }
}

/// The message a byte encodes.
pub open spec fn byte_msg(byte: u8) -> Option<OIMsg> {
    if byte == 70 {
        Some(OIMsg::Focus)
    } else if byte == 85 {
        Some(OIMsg::ProjectUpdated)
    } else if byte == 79 {
        Some(OIMsg::ProjectOpenFailed)
    } else if byte == 67 {
        Some(OIMsg::Close)
    } else {
        None
    }
}

impl OIMsg {
    /// The byte that encodes this message.
    pub fn to_byte(self) -> (r: u8)
        ensures
            r == msg_byte(self),
    {
        match self {
            OIMsg::Focus => 70,
            OIMsg::ProjectUpdated => 85,
            OIMsg::ProjectOpenFailed => 79,
            OIMsg::Close => 67,
        }
    }

    /// The character that encodes this message.
    pub fn to_char(self) -> (r: char)
        ensures
            r as int == msg_byte(self) as int,
    {
        match self {
            OIMsg::Focus => 'F',
            OIMsg::ProjectUpdated => 'U',
            OIMsg::ProjectOpenFailed => 'O',
            OIMsg::Close => 'C',
        }
    }

    /// The message a byte encodes, or the byte back as an error.
    pub fn try_from_byte(byte: u8) -> (r: Result<OIMsg, InvalidOIMsgByte>)
        ensures
            match byte_msg(byte) {
                Some(m) => r == Ok::<OIMsg, InvalidOIMsgByte>(m),
                None => r == Err::<OIMsg, InvalidOIMsgByte>(InvalidOIMsgByte(byte)),
            },
    {
        if byte == 70 {
            Ok(OIMsg::Focus)
        } else if byte == 85 {
            Ok(OIMsg::ProjectUpdated)
        } else if byte == 79 {
            Ok(OIMsg::ProjectOpenFailed)
        } else if byte == 67 {
            Ok(OIMsg::Close)
        } else {
            Err(InvalidOIMsgByte(byte))
        }
    }
}

/// Decoding a message's byte gives the message back, and a byte that
/// decodes to a message is that message's byte.
pub proof fn lemma_msg_byte_round_trip(msg: OIMsg, byte: u8)
    ensures
        byte_msg(msg_byte(msg)) == Some(msg),
        byte_msg(byte) matches Some(m) ==> msg_byte(m) == byte,
{
}

/// The messages in a buffer of bytes, in order, invalid bytes skipped.
pub open spec fn decode_spec(bytes: Seq<u8>) -> Seq<OIMsg>
    decreases bytes.len(),
{
    if bytes.len() == 0 {
        Seq::empty()
    } else {
        let rest = decode_spec(bytes.drop_last());
        match byte_msg(bytes.last()) {
            Some(m) => rest.push(m),
            None => rest,
        }
    }
}

/// The bytes that encode a list of messages.
pub open spec fn encode_spec(msgs: Seq<OIMsg>) -> Seq<u8> {
    msgs.map_values(|m: OIMsg| msg_byte(m))
}

/// Messages written by senders are read back unchanged and in order.
pub proof fn lemma_decode_encode(msgs: Seq<OIMsg>)
    ensures
        decode_spec(encode_spec(msgs)) == msgs,
    decreases msgs.len(),
{
    if msgs.len() > 0 {
        lemma_decode_encode(msgs.drop_last());
        assert(encode_spec(msgs).drop_last() =~= encode_spec(msgs.drop_last()));
        assert(msgs.drop_last().push(msgs.last()) =~= msgs);
    }
}

/// Messages received but not yet handled, oldest first.
#[derive(Debug)]
pub struct MessageQueue {
    queue: Vec<OIMsg>,
}

impl View for MessageQueue {
    type V = Seq<OIMsg>;

    closed spec fn view(&self) -> Seq<OIMsg> {
        self.queue@
    }
}

impl MessageQueue {
    /// An empty queue.
    pub fn new() -> (r: Self)
        ensures
            r@ == Seq::<OIMsg>::empty(),
    {
        MessageQueue { queue: Vec::new() }
    }

    /// Takes the oldest message, if any.
    pub fn pop(&mut self) -> (r: Option<OIMsg>)
        ensures
            old(self)@.len() == 0 ==> r is None && final(self)@ == old(self)@,
            old(self)@.len() > 0 ==> r == Some(old(self)@[0]) && final(self)@ == old(self)@.drop_first(),
    {
        if self.queue.len() == 0 {
            None
        } else {
            let m = self.queue.remove(0);
            assert(self.queue@ =~= old(self)@.drop_first());
            Some(m)
        }
    }

    /// Queues the messages in bytes read from the shared file, skipping
    /// bytes that encode no message.
    pub fn push_bytes(&mut self, bytes: &Vec<u8>)
        ensures
            final(self)@ == old(self)@ + decode_spec(bytes@),
    {
        let ghost start = self.queue@;
        let mut i: usize = 0;
        while i < bytes.len()
            invariant
                i <= bytes@.len(),
                self.queue@ == start + decode_spec(bytes@.take(i as int)),
            decreases bytes.len() - i,
        {
            assert(bytes@.take(i + 1).drop_last() =~= bytes@.take(i as int));
            match OIMsg::try_from_byte(bytes[i]) {
                Ok(m) => self.queue.push(m),
                Err(_) => {},
            }
            assert(self.queue@ =~= start + decode_spec(bytes@.take(i + 1)));
            i = i + 1;
        }
        assert(bytes@.take(i as int) =~= bytes@);
    }
}

/// A process exit status.
#[derive(Clone, Copy, Debug, PartialEq, Eq, Structural)]
pub enum ExitStatus {
    Success,
    Failure,
}

/// A role flag given plainly (give up quietly) or with force (fail).
#[derive(Clone, Copy, Debug, PartialEq, Eq, Structural, Hash)]
pub enum ForcibleFlag {
    /// Exit successfully if this instance can't take the role.
    True,
    /// Exit with an error if this instance can't take the role.
    Force,
}

/// The launcher's command line.
#[derive(Debug)]
pub struct Args {
    /// A custom command that launches the editor (a project id is appended).
    pub editor_cmd: Vec<String>,
    /// Require this instance to be a sender.
    pub send_only: Option<ForcibleFlag>,
    /// Require this instance to be the receiver.
    pub receive_only: Option<ForcibleFlag>,
    /// As a sender, do not ask the main instance to focus.
    pub no_focus: bool,
    /// As a sender, tell the main instance that a project changed.
    pub rescan_projects: bool,
    /// As a sender, tell the main instance that a project failed to open.
    pub project_open_failed: bool,
    /// Print the version (to a file, if one is given) and exit.
    pub version: Option<Option<String>>,
}

/// A sender that was told to be the receiver exits at once: with failure
/// when forced, quietly otherwise. `None`: carry on sending.
pub fn receive_only_exit(receive_only: Option<ForcibleFlag>) -> (r: Option<ExitStatus>)
    ensures
        r == match receive_only {
            Some(ForcibleFlag::Force) => Some(ExitStatus::Failure),
            Some(ForcibleFlag::True) => Some(ExitStatus::Success),
            None => None,
        },
{
    match receive_only {
        Some(ForcibleFlag::Force) => Some(ExitStatus::Failure),
        Some(ForcibleFlag::True) => Some(ExitStatus::Success),
        None => None,
    }
}

/// A receiver that was told to only send exits at once, as no other
/// instance receives: with failure when forced, quietly otherwise. `None`:
/// carry on receiving.
pub fn send_only_exit(send_only: Option<ForcibleFlag>) -> (r: Option<ExitStatus>)
    ensures
        r == match send_only {
            Some(ForcibleFlag::Force) => Some(ExitStatus::Failure),
            Some(ForcibleFlag::True) => Some(ExitStatus::Success),
            None => None,
        },
{
    match send_only {
        Some(ForcibleFlag::Force) => Some(ExitStatus::Failure),
        Some(ForcibleFlag::True) => Some(ExitStatus::Success),
        None => None,
    }
}

/// How a sender exits when no receiver can be reached: with failure only
/// when sending was forced.
pub fn unreachable_receiver_exit(send_only: Option<ForcibleFlag>) -> (r: ExitStatus)
    ensures
        r == (if send_only == Some(ForcibleFlag::Force) {
            ExitStatus::Failure
        } else {
            ExitStatus::Success
        }),
{
    match send_only {
        Some(ForcibleFlag::Force) => ExitStatus::Failure,
        _ => ExitStatus::Success,
    }
}

/// The messages a sender sends, in order: focus (unless told not to), then
/// the project notices it was asked to give.
pub open spec fn messages_to_send_spec(no_focus: bool, rescan_projects: bool, project_open_failed: bool) -> Seq<OIMsg> {
    (if no_focus { seq![] } else { seq![OIMsg::Focus] }) + (if rescan_projects {
        seq![OIMsg::ProjectUpdated]
    } else {
        seq![]
    }) + (if project_open_failed {
        seq![OIMsg::ProjectOpenFailed]
    } else {
        seq![]
    })
}

/// See [messages_to_send_spec].
pub fn messages_to_send(args: &Args) -> (r: Vec<OIMsg>)
    ensures
        r@ == messages_to_send_spec(args.no_focus, args.rescan_projects, args.project_open_failed),
{
    let mut r: Vec<OIMsg> = Vec::new();
    if !args.no_focus {
        r.push(OIMsg::Focus);
    }
    let ghost a = r@;
    if args.rescan_projects {
        r.push(OIMsg::ProjectUpdated);
    }
    let ghost b = r@;
    if args.project_open_failed {
        r.push(OIMsg::ProjectOpenFailed);
    }
    assert(r@ =~= messages_to_send_spec(args.no_focus, args.rescan_projects, args.project_open_failed));
    r
}

/// A sender fails if any of its messages could not be sent.
pub fn exit_after_sending(sent: &Vec<bool>) -> (r: ExitStatus)
    ensures
        r == (if exists|i: int| 0 <= i < sent@.len() && !(#[trigger] sent@[i]) {
            ExitStatus::Failure
        } else {
            ExitStatus::Success
        }),
{
    let mut i: usize = 0;
    while i < sent.len()
        invariant
            i <= sent@.len(),
            forall|j: int| 0 <= j < i ==> #[trigger] sent@[j],
        decreases sent.len() - i,
    {
        if !sent[i] {
            return ExitStatus::Failure;
        }
        i = i + 1;
    }
    ExitStatus::Success
}

/// What the main instance's worker tells its UI about a message.
#[derive(Clone, Copy, Debug, PartialEq, Eq, Structural)]
pub enum RelayedMsg {
    Focus,
    ProjectOpenFailed,
    Close,
}

/// Focus, open failures and close requests are relayed to the UI; project
/// updates are handled by the worker itself.
pub fn relay_to_ui(msg: OIMsg) -> (r: Option<RelayedMsg>)
    ensures
        r == match msg {
            OIMsg::Focus => Some(RelayedMsg::Focus),
            OIMsg::ProjectOpenFailed => Some(RelayedMsg::ProjectOpenFailed),
            OIMsg::Close => Some(RelayedMsg::Close),
            OIMsg::ProjectUpdated => None,
        },
{
    match msg {
        OIMsg::Focus => Some(RelayedMsg::Focus),
        OIMsg::ProjectOpenFailed => Some(RelayedMsg::ProjectOpenFailed),
        OIMsg::Close => Some(RelayedMsg::Close),
        OIMsg::ProjectUpdated => None,
    }
}

/// Work iterations between two scheduled project scans (one scan per
/// twenty seconds at four iterations per second).
pub const ITERATIONS_BETWEEN_RESCANS: usize = 79;

/// Whether the worker rescans the projects after this iteration, and the
/// count of iterations since the last scan afterwards: it rescans when a
/// message asked for it or when the scheduled interval has passed.
pub fn rescan_step(early_rescan_required: bool, iterations_since_rescan: usize) -> (r: (bool, usize))
    requires
        iterations_since_rescan <= ITERATIONS_BETWEEN_RESCANS,
    ensures
        r.0 == (early_rescan_required || iterations_since_rescan >= ITERATIONS_BETWEEN_RESCANS),
        r.1 == (if r.0 {
            0
        } else {
            iterations_since_rescan + 1
        }),
        r.1 <= ITERATIONS_BETWEEN_RESCANS,
{
    if !early_rescan_required && iterations_since_rescan < ITERATIONS_BETWEEN_RESCANS {
        (false, iterations_since_rescan + 1)
    } else {
        (true, 0)
    }
}

/// The iteration count after `n` iterations without early rescans,
/// starting from `c`.
pub open spec fn count_after(c: nat, n: nat) -> nat
    decreases n,
{
    if n == 0 {
        c
    } else {
        let prev = count_after(c, (n - 1) as nat);
        if prev >= ITERATIONS_BETWEEN_RESCANS {
            0
        } else {
            prev + 1
        }
    }
}

/// Counting up from a scan, the count after `k` iterations is `k` for
/// every `k` up to the interval.
pub proof fn lemma_count_up(k: nat)
    requires
        k <= ITERATIONS_BETWEEN_RESCANS,
    ensures
        count_after(0, k) == k,
    decreases k,
{
    if k > 0 {
        lemma_count_up((k - 1) as nat);
    }
}

/// Without early rescans, the worker scans the projects once every
/// `ITERATIONS_BETWEEN_RESCANS + 1` iterations: the count is back at zero
/// (a scan happened) exactly then, and not before.
pub proof fn lemma_scheduled_rescan(k: nat)
    requires
        0 < k <= ITERATIONS_BETWEEN_RESCANS,
    ensures
        count_after(0, k) != 0,
        count_after(0, (ITERATIONS_BETWEEN_RESCANS + 1) as nat) == 0,
{
    lemma_count_up(k);
    lemma_count_up(ITERATIONS_BETWEEN_RESCANS as nat);
}

/// The data of the instance lock file: the app version that wrote it and
/// the launcher's persisted data.
#[derive(Debug)]
pub struct InstanceLockData<T> {
    pub app_version: String,
    pub data: T,
}

impl<T> InstanceLockData<T> {
    /// Lock file data written by app version `app_version`.
    pub fn new(data: T, app_version: &str) -> (r: Self)
        ensures
            r.app_version@ == app_version@,
            r.data == data,
    {
        InstanceLockData { app_version: String::from_str(app_version), data }
    }

    /// Brings data read from an existing lock file up to `app_version`;
    /// returns whether the file was written by another version.
    pub fn upgrade_version(&mut self, app_version: &str) -> (r: bool)
        ensures
            r == (old(self).app_version@ != app_version@),
            final(self).app_version@ == app_version@,
            final(self).data == old(self).data,
    {
        if !text_eq(self.app_version.as_str(), app_version) {
            self.app_version = String::from_str(app_version);
            true
        } else {
            false
        }
    }
}

/// Why the instance lock could not be taken.
#[derive(Debug)]
pub enum InstanceLockError {
    /// Another instance holds it.
    Locked,
    /// The lock file could not be read or written.
    SavedFileError(String),
}

/// Which role a launcher instance takes.
#[derive(Clone, Copy, Debug, PartialEq, Eq, Structural)]
pub enum LauncherRole {
    /// The instance lock was taken: this is the main instance.
    Receiver,
    /// Another instance holds the lock: send to it and exit.
    Sender,
    /// The lock could not be tried: exit with failure.
    Fail,
}

/// The role of an instance after trying the instance lock.
pub fn launcher_role<T>(lock: &Result<T, InstanceLockError>) -> (r: LauncherRole)
    ensures
        r == match lock {
            Ok(_) => LauncherRole::Receiver,
            Err(InstanceLockError::Locked) => LauncherRole::Sender,
            Err(_) => LauncherRole::Fail,
        },
{
    match lock {
        Ok(_) => LauncherRole::Receiver,
        Err(InstanceLockError::Locked) => LauncherRole::Sender,
        Err(_) => LauncherRole::Fail,
    }
}

} // verus!
