//! Decision logic of the authenticated REST surface: listing sessions
//! joined with live status, creating sessions, starting and
//! interrupting them, and the address list for remote access. The
//! transport and the spawning are the host's; every decision is here.

use vstd::prelude::*;
use crate::auth::generate_token;
use crate::bus::Channel;
use crate::registry::Registry;
use crate::session::{SessionRow, spec_command_for, spec_auto_name, command_for_agent_type,
    auto_session_name};
use crate::store::{Store, has_session, session_ids, sorted_rows};
use crate::supervisor::GlobalEvent;
use crate::table::find_key;

verus! {

/// The first port the server tries.
pub const WEB_PORT_BASE: u16 = 3847;

/// The first port a development build tries.
pub const WEB_PORT_BASE_DEV: u16 = 3857;

/// The smallest sort order among the rows, or zero when there are none:
/// new sessions are placed above it.
pub open spec fn min_order(rows: Seq<SessionRow>) -> int
    decreases rows.len(),
{
    if rows.len() == 0 {
        0
    } else {
        let rest = min_order(rows.drop_last());
        if rows.last().sort_order < rest {
            rows.last().sort_order as int
        } else {
            rest
        }
    }
}

fn min_order_exec(rows: &Vec<SessionRow>) -> (r: i32)
    ensures
        r as int == min_order(rows@),
{
    let n = rows.len();
    let mut m: i32 = 0;
    let mut i: usize = 0;
    proof {
        assert(rows@.take(0) =~= Seq::<SessionRow>::empty());
    }
    while i < n
        invariant
            n == rows@.len(),
            i <= n,
            m as int == min_order(rows@.take(i as int)),
        decreases n - i,
    {
        proof {
            assert(rows@.take(i + 1).drop_last() =~= rows@.take(i as int));
            assert(rows@.take(i + 1).last() == rows@[i as int]);
        }
        if rows[i].sort_order < m {
            m = rows[i].sort_order;
        }
        i = i + 1;
    }
    proof {
        assert(rows@.take(n as int) =~= rows@);
    }
    m
}

/// Creates a session row from a request: the display name falls back
/// to an automatic one, the command follows the agent kind, and the new
/// row sorts above every existing one. The row is stored and the
/// matching created-or-updated event is broadcast.
pub fn api_create_session(
    store: &mut Store,
    status: &mut Channel<GlobalEvent>,
    name: Option<String>,
    agent_type: String,
    custom_command: Option<String>,
    working_dir: Option<String>,
    folder_id: Option<String>,
    shell: &str,
    now_rfc: String,
) -> (r: SessionRow)
    requires
        old(store).wf(),
        old(status).wf(),
        old(status).history@.len() < u64::MAX,
        old(store).sessions@.len() < u64::MAX,
    ensures
        final(store).wf(),
        final(status).wf(),
        r.name@ == (match name {
            Some(n) => n@,
            None => spec_auto_name(agent_type@, old(store).sessions@.len()),
        }),
        r.agent_type == agent_type,
        r.command@ == spec_command_for(agent_type@, match custom_command {
            Some(c) => Some(c@),
            None => None,
        }, shell@),
        r.working_dir@ == (match working_dir {
            Some(w) => w@,
            None => "~/dev/pplsi"@,
        }),
        r.created_at == now_rfc,
        r.foreign_session_id is None,
        r.running_pid is None,
        r.folder_id == folder_id,
        r.sort_order as int == (if min_order(old(store).sessions@) > i32::MIN {
            min_order(old(store).sessions@) - 1
        } else {
            i32::MIN as int
        }),
        has_session(final(store).sessions@, r.id@),
        ({
            let i = find_key(session_ids(old(store).sessions@), r.id@);
            if i >= 0 {
                final(store).sessions@ =~= old(store).sessions@.update(i, r)
            } else {
                final(store).sessions@ =~= old(store).sessions@.push(r)
            }
        }),
        final(status).history@ == old(status).history@.push(final(status).history@.last()),
        !has_session(old(store).sessions@, r.id@) ==> (final(status).history@.last()
            matches GlobalEvent::SessionCreated { session } && session == r),
        has_session(old(store).sessions@, r.id@) ==> (final(status).history@.last()
            matches GlobalEvent::SessionUpdated { session } && session == r),
        final(store).folders@ == old(store).folders@,
        final(store).recently_closed@ == old(store).recently_closed@,
        final(store).buffers == old(store).buffers,
{
    let session_id = generate_token();
    let command = command_for_agent_type(agent_type.as_str(), custom_command, shell);
    let count = store.sessions.len();
    let session_name = match name {
        Some(n) => n,
        None => auto_session_name(agent_type.as_str(), count as u64),
    };
    let wd = match working_dir {
        Some(w) => w,
        None => String::from_str("~/dev/pplsi"),
    };
    let m = min_order_exec(&store.sessions);
    let sort_order = if m > i32::MIN {
        m - 1
    } else {
        i32::MIN
    };
    let row = SessionRow {
        id: session_id,
        name: session_name,
        agent_type,
        command,
        working_dir: wd,
        created_at: now_rfc,
        foreign_session_id: None,
        sort_order,
        folder_id,
        running_pid: None,
    };
    let result = row.clone();
    let is_new = store.save_session(row);
    if is_new {
        status.send(GlobalEvent::SessionCreated { session: result.clone() });
    } else {
        status.send(GlobalEvent::SessionUpdated { session: result.clone() });
    }
    result
}

/// Deletes a session: the row and its scrollback snapshot go together,
/// everything else stays, and the deletion is broadcast.
pub fn api_delete_session(
    store: &mut Store,
    status: &mut Channel<GlobalEvent>,
    session_id: &str,
)
    requires
        old(store).wf(),
        old(status).wf(),
        old(status).history@.len() < u64::MAX,
    ensures
        final(store).wf(),
        final(status).wf(),
        !has_session(final(store).sessions@, session_id@),
        !final(store).buffers.has(session_id@),
        ({
            let i = find_key(session_ids(old(store).sessions@), session_id@);
            if i >= 0 {
                final(store).sessions@ =~= old(store).sessions@.remove(i)
            } else {
                final(store).sessions@ =~= old(store).sessions@
            }
        }),
        forall|k: Seq<char>|
            k != session_id@ ==> final(store).buffers.spec_get(k) == old(
                store,
            ).buffers.spec_get(k),
        final(store).folders@ == old(store).folders@,
        final(store).recently_closed@ == old(store).recently_closed@,
        final(status).history@ == old(status).history@.push(final(status).history@.last()),
        (final(status).history@.last() matches GlobalEvent::SessionDeleted { session_id: sid }
            && sid@ == session_id@),
{
    store.delete_session(session_id);
    status.send(GlobalEvent::SessionDeleted { session_id: session_id.to_owned() });
}

/// What starting a session comes to.
pub enum StartDecision {
    /// A child already runs for this session; nothing is spawned.
    AlreadyRunning,
    /// No session row has this identifier.
    NotFound,
    /// Spawn the structured variant for this row.
    StartJson {
        /// The session row to start.
        session: SessionRow,
        /// Whether to resume the recorded foreign session.
        resume: bool,
    },
    /// Spawn the terminal variant for this row at the default size.
    StartPty {
        /// The session row to start.
        session: SessionRow,
        /// Whether to resume the recorded foreign session.
        resume: bool,
        /// Default terminal width.
        cols: u16,
        /// Default terminal height.
        rows: u16,
    },
}

/// Decides a start request. A session that is already running — in
/// either variant — is reported as such and nothing else happens, so a
/// repeated start never spawns a second child. Otherwise the stored row
/// determines the variant; a row with a recorded foreign identifier is
/// resumed.
pub fn start_decision(reg: &Registry, store: &Store, session_id: &str) -> (r: StartDecision)
    requires
        reg.wf(),
        store.wf(),
    ensures
        (r is AlreadyRunning) <==> (reg.pty_chans.has(session_id@) || reg.json_chans.has(
            session_id@,
        )),
        (r is NotFound) <==> (!reg.pty_chans.has(session_id@) && !reg.json_chans.has(
            session_id@,
        ) && !has_session(store.sessions@, session_id@)),
        match r {
            StartDecision::StartJson { session, resume } => ({
                &&& has_session(store.sessions@, session_id@)
                &&& session == store.sessions@[find_key(
                    session_ids(store.sessions@),
                    session_id@,
                )]
                &&& session.agent_type@ == "json-agent"@
                &&& resume == (session.foreign_session_id is Some)
            }),
            StartDecision::StartPty { session, resume, cols, rows } => ({
                &&& has_session(store.sessions@, session_id@)
                &&& session == store.sessions@[find_key(
                    session_ids(store.sessions@),
                    session_id@,
                )]
                &&& session.agent_type@ != "json-agent"@
                &&& resume == (session.foreign_session_id is Some)
                &&& cols == 120 && rows == 30
            }),
            _ => true,
        },
{
    if reg.pty_chans.contains(session_id) || reg.json_chans.contains(session_id) {
        return StartDecision::AlreadyRunning;
    }
    match store.find_session(session_id) {
        None => StartDecision::NotFound,
        Some(i) => {
            proof {
                crate::table::lemma_find_key(session_ids(store.sessions@), session_id@);
            }
            let session = store.sessions[i].clone();
            let resume = session.foreign_session_id.is_some();
            if crate::strutil::str_eq(session.agent_type.as_str(), "json-agent") {
                StartDecision::StartJson { session, resume }
            } else {
                StartDecision::StartPty { session, resume, cols: 120, rows: 30 }
            }
        },
    }
}

/// Lists all sessions in listing order, each joined with whether a
/// child currently runs for it. The flags answer from the live
/// registry, never from the stored crash-recovery hint.
pub fn api_list_sessions(store: &Store, reg: &Registry) -> (r: (Vec<SessionRow>, Vec<bool>))
    requires
        reg.wf(),
    ensures
        sorted_rows(r.0@),
        r.0@.to_multiset() == store.sessions@.to_multiset(),
        r.1@.len() == r.0@.len(),
        forall|i: int|
            0 <= i < r.0@.len() ==> r.1@[i] == (reg.pty_chans.has(r.0@[i].id@)
                || reg.json_chans.has(r.0@[i].id@)),
{
    let rows = store.load_sessions();
    let n = rows.len();
    let mut flags: Vec<bool> = Vec::new();
    let mut i: usize = 0;
    while i < n
        invariant
            n == rows@.len(),
            i <= n,
            reg.wf(),
            flags@.len() == i,
            forall|k: int|
                0 <= k < i ==> flags@[k] == (reg.pty_chans.has(rows@[k].id@)
                    || reg.json_chans.has(rows@[k].id@)),
        decreases n - i,
    {
        let running = reg.pty_chans.contains(rows[i].id.as_str()) || reg.json_chans.contains(
            rows[i].id.as_str(),
        );
        flags.push(running);
        i = i + 1;
    }
    (rows, flags)
}

/// One network interface address, as the host read it.
pub struct IpInfo {
    /// The address, as text.
    pub text: String,
    /// Whether it is a loopback address.
    pub loopback: bool,
    /// Whether it is a link-local address of the newer address family.
    pub v6_link_local: bool,
}

/// Whether `ips` already holds the address text `x`.
pub open spec fn has_ip(ips: Seq<String>, x: Seq<char>) -> bool {
    exists|i: int| 0 <= i < ips.len() && ips[i]@ == x
}

fn contains_ip(ips: &Vec<String>, x: &str) -> (r: bool)
    ensures
        r == has_ip(ips@, x@),
{
    let n = ips.len();
    let mut i: usize = 0;
    while i < n
        invariant
            n == ips@.len(),
            i <= n,
            forall|j: int| 0 <= j < i ==> ips@[j]@ != x@,
        decreases n - i,
    {
        if crate::strutil::str_eq(ips[i].as_str(), x) {
            return true;
        }
        i = i + 1;
    }
    false
}

/// The address list after considering the interfaces in order: each
/// usable, unseen address is appended.
pub open spec fn spec_collect_ips(acc: Seq<String>, ifaces: Seq<IpInfo>) -> Seq<String>
    decreases ifaces.len(),
{
    if ifaces.len() == 0 {
        acc
    } else {
        let ip = ifaces[0];
        let acc2 = if ip.loopback || ip.v6_link_local || has_ip(acc, ip.text@) {
            acc
        } else {
            acc.push(ip.text)
        };
        spec_collect_ips(acc2, ifaces.drop_first())
    }
}

/// The addresses shown for remote access: the primary address first,
/// then every other interface address that is not loopback, not
/// link-local, and not already listed.
pub fn collect_local_ips(primary: Option<String>, ifaces: &Vec<IpInfo>) -> (r: Vec<String>)
    ensures
        r@ == spec_collect_ips(
            match primary {
                Some(p) => seq![p],
                None => Seq::empty(),
            },
            ifaces@,
        ),
{
    let mut out: Vec<String> = Vec::new();
    match primary {
        Some(p) => {
            let ghost pv = p;
            out.push(p);
            proof {
                assert(out@ =~= seq![pv]);
            }
        },
        None => {
            proof {
                assert(out@ =~= Seq::<String>::empty());
            }
        },
    }
    let n = ifaces.len();
    let mut i: usize = 0;
    proof {
        assert(ifaces@.skip(0) =~= ifaces@);
    }
    while i < n
        invariant
            n == ifaces@.len(),
            i <= n,
            spec_collect_ips(out@, ifaces@.skip(i as int)) == spec_collect_ips(
                match primary {
                    Some(p) => seq![p],
                    None => Seq::<String>::empty(),
                },
                ifaces@,
            ),
        decreases n - i,
    {
        proof {
            assert(ifaces@.skip(i as int)[0] == ifaces@[i as int]);
            assert(ifaces@.skip(i as int).drop_first() =~= ifaces@.skip(i + 1));
        }
        let usable = !ifaces[i].loopback && !ifaces[i].v6_link_local;
        if usable && !contains_ip(&out, ifaces[i].text.as_str()) {
            out.push(ifaces[i].text.clone());
        }
        i = i + 1;
    }
    proof {
        assert(ifaces@.skip(n as int).len() == 0);
    }
    out
}

/// The ports the server tries in order: `attempts` consecutive ports
/// from `base`.
pub fn port_candidates(base: u16, attempts: u16) -> (r: Vec<u16>)
    requires
        base + attempts <= u16::MAX,
    ensures
        r@.len() == attempts,
        forall|i: int| 0 <= i < attempts ==> r@[i] == base + i,
{
    let mut out: Vec<u16> = Vec::new();
    let mut i: u16 = 0;
    while i < attempts
        invariant
            base + attempts <= u16::MAX,
            i <= attempts,
            out@.len() == i,
            forall|j: int| 0 <= j < i ==> out@[j] == base + j,
        decreases attempts - i,
    {
        out.push(base + i);
        i = i + 1;
    }
    out
}

} // verus!
