//! The process supervisor's decision logic: command-line construction,
//! spawn registration, output fan-out, processing-state transitions,
//! interrupt and kill plans, and teardown. The host performs process
//! and signal work; everything it must decide is decided here.

use vstd::prelude::*;
use crate::bus::Channel;
use crate::registry::{Registry, JsonLive, PtyLive};
use crate::session::SessionRow;
use crate::strutil::{
    contains_seq, contains_sub, replace_all, str_replace, tilde_expanded, expand_tilde, is_ws,
};

verus! {

/// Capacity of the global status channel.
pub const STATUS_CHANNEL_CAPACITY: usize = 64;

/// A lifecycle or list-mutation event on the global status bus.
pub enum GlobalEvent {
    /// A session started or stopped running.
    SessionStatus {
        /// The session.
        session_id: String,
        /// Whether a child now runs for it.
        running: bool,
    },
    /// A structured session entered or left its processing state.
    ProcessingStatus {
        /// The session.
        session_id: String,
        /// Whether the agent is processing.
        processing: bool,
    },
    /// A session row was created.
    SessionCreated {
        /// The new row.
        session: SessionRow,
    },
    /// A session row was updated.
    SessionUpdated {
        /// The updated row.
        session: SessionRow,
    },
    /// A session row was deleted.
    SessionDeleted {
        /// The deleted session.
        session_id: String,
    },
}

/// Why a spawn was refused before any process was started.
#[derive(Debug, PartialEq, Eq, Clone, Copy)]
pub enum SpawnError {
    /// The invocation string is empty or whitespace.
    EmptyCommand,
}

/// How to interrupt a session.
pub enum InterruptAction {
    /// Deliver an interrupt signal to this child process.
    SigInt {
        /// The child's process id.
        pid: u32,
    },
    /// Write these bytes into the terminal master: exactly one
    /// end-of-text byte.
    WriteBytes {
        /// The bytes to write.
        bytes: Vec<u8>,
    },
    /// The session is not running.
    NotFound,
}

/// How to kill a child: a term signal, a grace period, then a kill
/// signal.
pub struct KillPlan {
    /// The child's process id.
    pub pid: u32,
    /// Milliseconds to wait between the two signals.
    pub grace_ms: u64,
}

/// The rewritten invocation for a terminal session, as a specification:
/// an agent invocation resumed into an existing foreign session keeps
/// its permission flag; anything else runs unchanged.
pub open spec fn spec_pty_command(
    cmd: Seq<char>,
    foreign_id: Option<Seq<char>>,
    resume: bool,
) -> Seq<char> {
    if contains_seq(cmd, "agent"@) && foreign_id is Some && resume {
        if contains_seq(cmd, "--dangerously-skip-permissions"@) {
            "agent --resume "@ + foreign_id->Some_0 + " --dangerously-skip-permissions"@
        } else {
            "agent --resume "@ + foreign_id->Some_0
        }
    } else {
        cmd
    }
}

/// Whether an invocation runs through the user's login-interactive
/// shell: agent commands do, to inherit the real environment.
pub open spec fn spec_use_login_shell(cmd: Seq<char>) -> bool {
    contains_seq(cmd, "agent"@) || contains_seq(cmd, "aider"@) || contains_seq(cmd, "codex"@)
}

/// The invocation a terminal session runs, and whether it goes through
/// the login shell.
pub struct PtyInvocation {
    /// The command string.
    pub cmd: String,
    /// Whether to run it through the user's login-interactive shell.
    pub use_login_shell: bool,
}

/// Builds a terminal session's invocation: resuming an agent session
/// rewrites the command to resume the recorded foreign identifier.
pub fn build_pty_invocation(cmd: &str, foreign_id: Option<&str>, resume: bool) -> (r:
    PtyInvocation)
    ensures
        r.cmd@ == spec_pty_command(cmd@, match foreign_id {
            Some(c) => Some(c@),
            None => None,
        }, resume),
        r.use_login_shell == spec_use_login_shell(r.cmd@),
{
    let rewritten: String = match foreign_id {
        Some(cid) => {
            if resume && contains_sub(cmd, "agent") {
                let mut s = String::from_str("agent --resume ");
                s.append(cid);
                if contains_sub(cmd, "--dangerously-skip-permissions") {
                    s.append(" --dangerously-skip-permissions");
                    assert(s@ =~= "agent --resume "@ + cid@
                        + " --dangerously-skip-permissions"@);
                } else {
                    assert(s@ =~= "agent --resume "@ + cid@);
                }
                s
            } else {
                cmd.to_owned()
            }
        },
        None => cmd.to_owned(),
    };
    let use_login_shell = contains_sub(rewritten.as_str(), "agent") || contains_sub(
        rewritten.as_str(),
        "aider",
    ) || contains_sub(rewritten.as_str(), "codex");
    PtyInvocation { cmd: rewritten, use_login_shell }
}

/// The augmented search path a child receives, as a specification:
/// well-known tool directories under the home directory, the system
/// ones, then whatever the host already had.
pub open spec fn spec_enhanced_path(home: Seq<char>, existing: Seq<char>) -> Seq<char> {
    home + "/.local/bin:"@ + home + "/.nvm/versions/node/v24.10.0/bin:"@ + home
        + "/.cargo/bin:/opt/homebrew/bin:/opt/homebrew/sbin:/usr/local/bin:"@ + existing
}

/// Builds the augmented search path for a child process.
pub fn enhanced_path(home: &str, existing: &str) -> (r: String)
    ensures
        r@ == spec_enhanced_path(home@, existing@),
{
    let mut s = home.to_owned();
    s.append("/.local/bin:");
    s.append(home);
    s.append("/.nvm/versions/node/v24.10.0/bin:");
    s.append(home);
    s.append("/.cargo/bin:/opt/homebrew/bin:/opt/homebrew/sbin:/usr/local/bin:");
    s.append(existing);
    s
}

/// The working directory a terminal session runs in: a tilde expanded
/// against the home directory when one is known, the home directory
/// when none was requested.
pub fn resolve_working_dir(dir: Option<&str>, home: Option<&str>) -> (r: Option<String>)
    ensures
        match (dir, home) {
            (Some(d), Some(h)) => r matches Some(w) && w@ == tilde_expanded(d@, h@),
            (Some(d), None) => r matches Some(w) && w@ == d@,
            (None, Some(h)) => r matches Some(w) && w@ == h@,
            (None, None) => r is None,
        },
{
    match (dir, home) {
        (Some(d), Some(h)) => Some(expand_tilde(d, h)),
        (Some(d), None) => Some(d.to_owned()),
        (None, Some(h)) => Some(h.to_owned()),
        (None, None) => None,
    }
}

/// The rewritten invocation for a structured session, as a
/// specification: resuming inserts the resume flag after the agent
/// name, unless one is already present.
pub open spec fn spec_json_command(
    cmd: Seq<char>,
    foreign_id: Option<Seq<char>>,
    resume: bool,
) -> Seq<char> {
    if foreign_id is Some && resume && !contains_seq(cmd, "--resume"@) {
        replace_all(cmd, "agent "@, "agent --resume "@ + foreign_id->Some_0 + seq![' '])
    } else {
        cmd
    }
}

/// Builds a structured session's invocation, inserting a resume flag
/// for a recorded foreign identifier.
pub fn build_json_command(cmd: &str, foreign_id: Option<&str>, resume: bool) -> (r: String)
    ensures
        r@ == spec_json_command(cmd@, match foreign_id {
            Some(c) => Some(c@),
            None => None,
        }, resume),
{
    match foreign_id {
        Some(cid) => {
            if resume && !contains_sub(cmd, "--resume") {
                let mut repl = String::from_str("agent --resume ");
                repl.append(cid);
                repl.append(" ");
                proof {
                    reveal_strlit(" ");
                    assert(" "@ =~= seq![' ']);
                }
                assert(repl@ =~= "agent --resume "@ + cid@ + seq![' ']);
                str_replace(cmd, "agent ", repl.as_str())
            } else {
                cmd.to_owned()
            }
        },
        None => cmd.to_owned(),
    }
}

/// Refuses an empty or all-whitespace invocation before any spawn.
pub fn validate_command(cmd: &str) -> (r: Result<(), SpawnError>)
    ensures
        r == Err::<(), SpawnError>(SpawnError::EmptyCommand) <==> (forall|k: int|
            0 <= k < cmd@.len() ==> is_ws(cmd@[k])),
{
    if crate::strutil::is_blank(cmd) {
        Err(SpawnError::EmptyCommand)
    } else {
        Ok(())
    }
}

/// The back-off schedule, in milliseconds, for polling the foreign
/// session detector after a spawn.
pub fn detection_delays() -> (r: Vec<u64>)
    ensures
        r@ =~= seq![500u64, 1000u64, 2000u64, 3000u64, 5000u64],
{
    let mut v: Vec<u64> = Vec::new();
    v.push(500);
    v.push(1000);
    v.push(2000);
    v.push(3000);
    v.push(5000);
    v
}

/// Registers a freshly spawned structured session and announces it: the
/// live entry and its broadcast channel are installed first, and the
/// `running = true` status event is broadcast in the same step, before
/// the session's channel carries any output. A caller redirected to the
/// session immediately after this call will find it.
pub fn register_json_spawn(
    reg: &mut Registry,
    status: &mut Channel<GlobalEvent>,
    session_id: &str,
    child_id: u32,
)
    requires
        old(reg).wf(),
        old(status).wf(),
        old(status).history@.len() < u64::MAX,
    ensures
        final(reg).wf(),
        final(status).wf(),
        final(reg).json_live.has(session_id@),
        final(reg).json_chans.has(session_id@),
        final(reg).is_live(session_id@),
        final(reg).json_live.spec_get(session_id@) matches Some(p)
            && final(reg).json_live.spec_get(session_id@)->Some_0.child_id == child_id
            && final(reg).json_live.spec_get(session_id@)->Some_0.stdin@.len() == 0
            && !final(reg).json_live.spec_get(session_id@)->Some_0.processing,
        // The session's channel starts empty: no output precedes the
        // status announcement below.
        final(reg).json_chans.spec_get(session_id@) matches Some(c)
            && final(reg).json_chans.spec_get(session_id@)->Some_0.history@.len() == 0,
        final(status).history@ == old(status).history@.push(final(status).history@.last()),
        (final(status).history@.last() matches GlobalEvent::SessionStatus {
            session_id: sid,
            running: run,
        } && sid@ == session_id@ && run == true),
        forall|k: Seq<char>|
            k != session_id@ ==> final(reg).json_chans.spec_get(k) == old(
                reg,
            ).json_chans.spec_get(k) && final(reg).json_live.spec_get(k) == old(
                reg,
            ).json_live.spec_get(k),
        final(reg).pty_live == old(reg).pty_live,
        final(reg).pty_chans == old(reg).pty_chans,
{
    let live = JsonLive { child_id, stdin: Vec::new(), processing: false };
    reg.install_json(session_id.to_owned(), live);
    status.send(
        GlobalEvent::SessionStatus { session_id: session_id.to_owned(), running: true },
    );
}

/// Registers a freshly spawned terminal session and announces it, in
/// the same step: live entry and channel first, `running = true` next,
/// before any output byte is produced.
pub fn register_pty_spawn(
    reg: &mut Registry,
    status: &mut Channel<GlobalEvent>,
    session_id: &str,
    cols: u16,
    rows: u16,
)
    requires
        old(reg).wf(),
        old(status).wf(),
        old(status).history@.len() < u64::MAX,
    ensures
        final(reg).wf(),
        final(status).wf(),
        final(reg).pty_live.has(session_id@),
        final(reg).pty_chans.has(session_id@),
        final(reg).is_live(session_id@),
        final(reg).pty_chans.spec_get(session_id@) matches Some(c)
            && final(reg).pty_chans.spec_get(session_id@)->Some_0.history@.len() == 0,
        final(status).history@ == old(status).history@.push(final(status).history@.last()),
        (final(status).history@.last() matches GlobalEvent::SessionStatus {
            session_id: sid,
            running: run,
        } && sid@ == session_id@ && run == true),
        final(reg).json_live == old(reg).json_live,
        final(reg).json_chans == old(reg).json_chans,
{
    let live = PtyLive { cols, rows };
    reg.install_pty(session_id.to_owned(), live);
    status.send(
        GlobalEvent::SessionStatus { session_id: session_id.to_owned(), running: true },
    );
}

/// The processing-state change a structured message of this type
/// implies: an assistant message starts processing, a result message
/// ends it, anything else changes nothing.
pub open spec fn spec_processing_event(msg_type: Option<Seq<char>>) -> Option<bool> {
    if msg_type == Some("assistant"@) {
        Some(true)
    } else if msg_type == Some("result"@) {
        Some(false)
    } else {
        None
    }
}

/// The processing-state change implied by a parsed message type.
pub fn processing_change(msg_type: Option<&str>) -> (r: Option<bool>)
    ensures
        r == spec_processing_event(match msg_type {
            Some(t) => Some(t@),
            None => None,
        }),
{
    match msg_type {
        Some(t) => {
            if crate::strutil::str_eq(t, "assistant") {
                Some(true)
            } else if crate::strutil::str_eq(t, "result") {
                Some(false)
            } else {
                None
            }
        },
        None => None,
    }
}

/// Handles one stdout line of a structured session: the line is
/// broadcast verbatim on the session's channel — parseable or not — and
/// an assistant or result message additionally broadcasts the implied
/// processing-state change. Returns whether the session was live.
pub fn handle_json_line(
    reg: &mut Registry,
    status: &mut Channel<GlobalEvent>,
    session_id: &str,
    line: String,
    msg_type: Option<&str>,
) -> (r: bool)
    requires
        old(reg).wf(),
        old(status).wf(),
        old(status).history@.len() < u64::MAX,
        old(reg).json_chans.spec_get(session_id@) matches Some(c) ==> c.history@.len() + 1
            <= u64::MAX,
    ensures
        final(reg).wf(),
        final(status).wf(),
        r == old(reg).json_chans.has(session_id@),
        r ==> (final(reg).json_chans.spec_get(session_id@) matches Some(c2)
            && old(reg).json_chans.spec_get(session_id@) matches Some(c1)
            && final(reg).json_chans.spec_get(session_id@)->Some_0.history@ == old(
            reg,
        ).json_chans.spec_get(session_id@)->Some_0.history@.push(line)),
        (r && (spec_processing_event(match msg_type {
            Some(t) => Some(t@),
            None => None,
        }) matches Some(p))) ==> final(status).history@ == old(status).history@.push(
            final(status).history@.last(),
        ) && (final(status).history@.last() matches GlobalEvent::ProcessingStatus {
            session_id: sid,
            processing,
        } && sid@ == session_id@ && processing == spec_processing_event(match msg_type {
            Some(t) => Some(t@),
            None => None,
        })->Some_0),
        r && (spec_processing_event(match msg_type {
            Some(t) => Some(t@),
            None => None,
        }) is None) ==> final(status).history@ == old(status).history@ && final(reg).json_live == old(reg).json_live,
        // The session's recorded processing flag follows the implied
        // transition, so a later subscriber reads the current state.
        (r && (spec_processing_event(match msg_type {
            Some(t) => Some(t@),
            None => None,
        }) matches Some(p))) ==> (final(reg).json_live.spec_get(session_id@) matches Some(l)
            && final(reg).json_live.spec_get(session_id@)->Some_0.processing
            == spec_processing_event(match msg_type {
            Some(t) => Some(t@),
            None => None,
        })->Some_0 && final(reg).json_live.spec_get(session_id@)->Some_0.child_id == old(
            reg,
        ).json_live.spec_get(session_id@)->Some_0.child_id && final(reg).json_live.spec_get(session_id@)->Some_0.stdin@ == old(
            reg,
        ).json_live.spec_get(session_id@)->Some_0.stdin@),
        forall|k: Seq<char>|
            k != session_id@ ==> final(reg).json_live.spec_get(k) == old(
                reg,
            ).json_live.spec_get(k),
        !r ==> *final(reg) == *old(reg) && final(status).history@ == old(status).history@,
    {
        let sent = reg.send_json_output(session_id, line);
        if !sent {
            return false;
        }
        match processing_change(msg_type) {
            Some(p) => {
                reg.set_json_processing(session_id, p);
                status.send(
                    GlobalEvent::ProcessingStatus {
                        session_id: session_id.to_owned(),
                        processing: p,
                    },
                );
            },
            None => {},
        }
        true
    }

/// Tears a structured session down after its child exited: both
/// registry tables are purged in one step, the scrollback snapshots are
/// untouched, and `running = false` is broadcast as the session's last
/// event.
pub fn on_json_exit(reg: &mut Registry, status: &mut Channel<GlobalEvent>, session_id: &str)
    requires
        old(reg).wf(),
        old(status).wf(),
        old(status).history@.len() < u64::MAX,
    ensures
        final(reg).wf(),
        final(status).wf(),
        !final(reg).json_live.has(session_id@),
        !final(reg).json_chans.has(session_id@),
        final(status).history@ == old(status).history@.push(final(status).history@.last()),
        (final(status).history@.last() matches GlobalEvent::SessionStatus {
            session_id: sid,
            running: run,
        } && sid@ == session_id@ && run == false),
        forall|k: Seq<char>|
            k != session_id@ ==> final(reg).json_chans.spec_get(k) == old(
                reg,
            ).json_chans.spec_get(k) && final(reg).json_live.spec_get(k) == old(
                reg,
            ).json_live.spec_get(k),
        final(reg).pty_live == old(reg).pty_live,
        final(reg).pty_chans == old(reg).pty_chans,
{
    reg.remove_json(session_id);
    status.send(
        GlobalEvent::SessionStatus { session_id: session_id.to_owned(), running: false },
    );
}

/// Tears a terminal session down at end of stream: both registry tables
/// are purged in one step and `running = false` is broadcast.
pub fn on_pty_eof(reg: &mut Registry, status: &mut Channel<GlobalEvent>, session_id: &str)
    requires
        old(reg).wf(),
        old(status).wf(),
        old(status).history@.len() < u64::MAX,
    ensures
        final(reg).wf(),
        final(status).wf(),
        !final(reg).pty_live.has(session_id@),
        !final(reg).pty_chans.has(session_id@),
        final(status).history@ == old(status).history@.push(final(status).history@.last()),
        (final(status).history@.last() matches GlobalEvent::SessionStatus {
            session_id: sid,
            running: run,
        } && sid@ == session_id@ && run == false),
        final(reg).json_live == old(reg).json_live,
        final(reg).json_chans == old(reg).json_chans,
{
    reg.remove_pty(session_id);
    status.send(
        GlobalEvent::SessionStatus { session_id: session_id.to_owned(), running: false },
    );
}

/// How to interrupt a session: an interrupt signal for a structured
/// session's child, exactly one end-of-text byte written into a
/// terminal session's master, nothing for a session that is not
/// running.
pub fn interrupt_action(reg: &Registry, session_id: &str) -> (r: InterruptAction)
    requires
        reg.wf(),
    ensures
        match r {
            InterruptAction::SigInt { pid } => reg.json_live.spec_get(session_id@)
                matches Some(p) && reg.json_live.spec_get(session_id@)->Some_0.child_id == pid
                && pid > 0,
            InterruptAction::WriteBytes { bytes } => !reg.json_chans.has(session_id@)
                && reg.pty_chans.has(session_id@) && bytes@ =~= seq![3u8] && bytes@.len() == 1,
            InterruptAction::NotFound => !(reg.json_live.spec_get(session_id@)
                matches Some(p) && reg.json_live.spec_get(session_id@)->Some_0.child_id > 0)
                && (reg.json_chans.has(session_id@) || !reg.pty_chans.has(session_id@)),
        },
{
    if reg.json_chans.contains(session_id) {
        match reg.json_live.get(session_id) {
            Some(p) => {
                if p.child_id > 0 {
                    InterruptAction::SigInt { pid: p.child_id }
                } else {
                    InterruptAction::NotFound
                }
            },
            None => InterruptAction::NotFound,
        }
    } else if reg.pty_chans.contains(session_id) {
        let mut bytes: Vec<u8> = Vec::new();
        bytes.push(3u8);
        proof {
            assert(bytes@ =~= seq![3u8]);
        }
        InterruptAction::WriteBytes { bytes }
    } else {
        InterruptAction::NotFound
    }
}

/// The plan for killing a structured session's child: a term signal,
/// half a second of grace, then a kill signal. The registry entries are
/// purged by the exit path, so the live table and the channel table
/// always leave together.
pub fn kill_json_plan(reg: &Registry, session_id: &str) -> (r: Option<KillPlan>)
    requires
        reg.wf(),
    ensures
        match r {
            Some(plan) => reg.json_live.spec_get(session_id@) matches Some(p)
                && reg.json_live.spec_get(session_id@)->Some_0.child_id == plan.pid
                && plan.grace_ms == 500,
            None => !reg.json_live.has(session_id@),
        },
{
    match reg.json_live.get(session_id) {
        Some(p) => Some(KillPlan { pid: p.child_id, grace_ms: 500 }),
        None => {
            proof {
                crate::registry::lemma_has_iff_some(reg.json_live, session_id@);
            }
            None
        },
    }
}

} // verus!
