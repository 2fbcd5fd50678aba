//! The multiplexed mobile connection's state machine: authentication,
//! subscription management, message send and interrupt, and the fan-out
//! of events to subscribed clients. Each inbound frame maps to an exact
//! list of actions for the host to perform, in order — per client,
//! outbound messages are delivered in the order they are produced here.

use vstd::prelude::*;
use crate::auth::PairedDevice;
use crate::registry::Registry;
use crate::table::Table;

verus! {

/// An inbound frame from a mobile client, already reduced to plain
/// values. Absent or empty fields arrive as `None`.
pub enum MobileFrame {
    /// The frame was not valid JSON.
    Invalid,
    /// Authenticate with a bearer token.
    Auth {
        /// The presented token, if any.
        token: Option<String>,
    },
    /// Subscribe to a session's output.
    Subscribe {
        /// The session to subscribe to.
        session_id: Option<String>,
    },
    /// Unsubscribe from a session's output.
    Unsubscribe {
        /// The session to unsubscribe from.
        session_id: Option<String>,
    },
    /// Write a message to a session's input.
    SendMessage {
        /// The target session.
        session_id: Option<String>,
        /// The message content, already rendered to text.
        content: Option<String>,
    },
    /// Interrupt a session.
    Interrupt {
        /// The target session.
        session_id: Option<String>,
    },
    /// Any other frame type.
    Unknown {
        /// The unrecognized type tag.
        msg_type: String,
    },
}

/// A message for this client's outbound queue.
pub enum OutboundMsg {
    /// Authentication succeeded.
    AuthSuccess,
    /// Authentication failed; the state is unchanged.
    AuthError,
    /// A structured error message.
    ErrorMsg {
        /// The human-readable message.
        message: String,
    },
    /// The full session-list snapshot, with folders and settings.
    SessionList,
    /// The stored chat history of a session, if any.
    ChatHistory {
        /// The session whose history to deliver.
        session_id: String,
    },
    /// A session's current status.
    SessionStatus {
        /// The session.
        session_id: String,
        /// Whether a child runs for it.
        running: bool,
        /// Whether its agent is processing.
        processing: bool,
    },
}

/// One step the host must perform for a handled frame, in order.
pub enum MobileAction {
    /// Enqueue this message on the client's outbound queue.
    SendToClient(OutboundMsg),
    /// Write this content to the session's standard input.
    WriteToSession {
        /// The target session.
        session_id: String,
        /// The content to write.
        content: String,
    },
    /// Echo this content on the session's broadcast channel so every
    /// other observer mirrors the input.
    EchoToSession {
        /// The session.
        session_id: String,
        /// The echoed content.
        content: String,
    },
    /// Surface this input to the embedded desktop view.
    EmitUiInput {
        /// The session.
        session_id: String,
        /// The content typed remotely.
        content: String,
    },
    /// Deliver an interrupt to the session per its variant.
    InterruptSession {
        /// The session.
        session_id: String,
    },
}

/// One mobile client's connection state.
pub struct MobileClientState {
    /// Whether the client has authenticated.
    pub authenticated: bool,
    /// The sessions the client is subscribed to; no duplicates.
    pub subscriptions: Vec<String>,
}

/// The subscription set holds each session at most once.
pub open spec fn subs_wf(subs: Seq<String>) -> bool {
    forall|i: int, j: int| 0 <= i < j < subs.len() ==> subs[i]@ != subs[j]@
}

/// Whether `subs` holds `id`.
pub open spec fn subs_has(subs: Seq<String>, id: Seq<char>) -> bool {
    exists|i: int| 0 <= i < subs.len() && subs[i]@ == id
}

impl Clone for MobileClientState {
    fn clone(&self) -> (r: Self)
        ensures
            r.authenticated == self.authenticated,
            r.subscriptions@ == self.subscriptions@,
    {
        let mut subscriptions: Vec<String> = Vec::new();
        let n = self.subscriptions.len();
        let mut i: usize = 0;
        while i < n
            invariant
                n == self.subscriptions@.len(),
                i <= n,
                subscriptions@ == self.subscriptions@.take(i as int),
            decreases n - i,
        {
            subscriptions.push(self.subscriptions[i].clone());
            proof {
                assert(self.subscriptions@.take(i + 1) =~= self.subscriptions@.take(
                    i as int,
                ).push(self.subscriptions@[i as int]));
            }
            i = i + 1;
        }
        proof {
            assert(self.subscriptions@.take(n as int) =~= self.subscriptions@);
        }
        MobileClientState { authenticated: self.authenticated, subscriptions }
    }
}

impl MobileClientState {
    /// A fresh, unauthenticated connection with no subscriptions.
    pub fn new() -> (r: MobileClientState)
        ensures
            !r.authenticated,
            r.subscriptions@ =~= Seq::<String>::empty(),
            subs_wf(r.subscriptions@),
    {
        MobileClientState { authenticated: false, subscriptions: Vec::new() }
    }
}

fn subs_contains(subs: &Vec<String>, id: &str) -> (r: bool)
    ensures
        r == subs_has(subs@, id@),
{
    let n = subs.len();
    let mut i: usize = 0;
    while i < n
        invariant
            n == subs@.len(),
            i <= n,
            forall|j: int| 0 <= j < i ==> subs@[j]@ != id@,
        decreases n - i,
    {
        if crate::strutil::str_eq(subs[i].as_str(), id) {
            return true;
        }
        i = i + 1;
    }
    false
}

fn subs_remove(subs: &mut Vec<String>, id: &str)
    requires
        subs_wf(old(subs)@),
    ensures
        subs_wf(final(subs)@),
        !subs_has(final(subs)@, id@),
        forall|k: Seq<char>|
            k != id@ ==> (subs_has(final(subs)@, k) <==> subs_has(old(subs)@, k)),
{
    let ghost orig = subs@;
    let n = subs.len();
    let mut i: usize = 0;
    while i < n
        invariant
            n == subs@.len(),
            subs@ == orig,
            subs_wf(orig),
            orig == old(subs)@,
            i <= n,
            forall|j: int| 0 <= j < i ==> subs@[j]@ != id@,
        decreases n - i,
    {
        if crate::strutil::str_eq(subs[i].as_str(), id) {
            subs.remove(i);
            proof {
                let fk = i as int;
                assert forall|a: int, b: int|
                    0 <= a < b < subs@.len() implies subs@[a]@ != subs@[b]@ by {
                    let a0 = if a < fk {
                        a
                    } else {
                        a + 1
                    };
                    let b0 = if b < fk {
                        b
                    } else {
                        b + 1
                    };
                    assert(subs@[a] == orig.remove(fk)[a]);
                    assert(orig.remove(fk) =~= orig.subrange(0, fk) + orig.subrange(
                        fk + 1,
                        orig.len() as int,
                    ));
                    assert(subs@[a] == orig[a0]);
                    assert(subs@[b] == orig[b0]);
                }
                assert forall|k: int| 0 <= k < subs@.len() implies subs@[k]@ != id@ by {
                    assert(orig.remove(fk) =~= orig.subrange(0, fk) + orig.subrange(
                        fk + 1,
                        orig.len() as int,
                    ));
                    let k0 = if k < fk {
                        k
                    } else {
                        k + 1
                    };
                    assert(subs@[k] == orig[k0]);
                }
                assert forall|k: Seq<char>|
                    k != id@ implies (subs_has(subs@, k) <==> subs_has(orig, k)) by {
                    assert(orig.remove(fk) =~= orig.subrange(0, fk) + orig.subrange(
                        fk + 1,
                        orig.len() as int,
                    ));
                    if subs_has(subs@, k) {
                        let w = choose|w: int| 0 <= w < subs@.len() && subs@[w]@ == k;
                        let w0 = if w < fk {
                            w
                        } else {
                            w + 1
                        };
                        assert(orig[w0]@ == k);
                    }
                    if subs_has(orig, k) {
                        let w = choose|w: int| 0 <= w < orig.len() && orig[w]@ == k;
                        assert(w != fk);
                        let w1 = if w < fk {
                            w
                        } else {
                            w - 1
                        };
                        assert(subs@[w1] == orig[w]);
                    }
                }
            }
            return ;
        }
        i = i + 1;
    }
    proof {
        assert forall|k: int| 0 <= k < subs@.len() implies subs@[k]@ != id@ by {}
    }
}

fn subs_insert(subs: &mut Vec<String>, id: String)
    requires
        subs_wf(old(subs)@),
    ensures
        subs_wf(final(subs)@),
        subs_has(final(subs)@, id@),
        forall|k: Seq<char>|
            k != id@ ==> (subs_has(final(subs)@, k) <==> subs_has(old(subs)@, k)),
{
    if !subs_contains(subs, id.as_str()) {
        let ghost orig = subs@;
        let ghost idv = id@;
        subs.push(id);
        proof {
            assert(subs@[subs@.len() - 1]@ == idv);
            assert forall|a: int, b: int|
                0 <= a < b < subs@.len() implies subs@[a]@ != subs@[b]@ by {
                if b == subs@.len() - 1 {
                    assert(subs@[a] == orig[a]);
                    if subs@[a]@ == idv {
                        assert(subs_has(orig, idv));
                    }
                }
            }
            assert forall|k: Seq<char>|
                k != idv implies (subs_has(subs@, k) <==> subs_has(orig, k)) by {
                if subs_has(subs@, k) {
                    let w = choose|w: int| 0 <= w < subs@.len() && subs@[w]@ == k;
                    assert(w != subs@.len() - 1);
                    assert(orig[w]@ == k);
                }
                if subs_has(orig, k) {
                    let w = choose|w: int| 0 <= w < orig.len() && orig[w]@ == k;
                    assert(subs@[w]@ == k);
                }
            }
        }
    }
}

/// Handles one inbound frame from a mobile client: updates the client's
/// state and returns, in order, the actions the host performs. The
/// rules are those of the remote protocol: only `auth` is accepted
/// before authentication; a successful `auth` immediately pushes a
/// session-list snapshot; `subscribe` replies with the stored history
/// and the session's current status; `send_message` mirrors the input
/// to every observer; `unsubscribe` needs no authentication.
pub fn handle_mobile_frame(
    state: &mut MobileClientState,
    frame: MobileFrame,
    devices: &Table<PairedDevice>,
    reg: &Registry,
) -> (actions: Vec<MobileAction>)
    requires
        subs_wf(old(state).subscriptions@),
        reg.wf(),
    ensures
        subs_wf(final(state).subscriptions@),
        match frame {
            MobileFrame::Invalid => *final(state) == *old(state) && actions@.len() == 1 && (
            actions@[0] matches MobileAction::SendToClient(OutboundMsg::ErrorMsg { message })),
            MobileFrame::Auth { token } => {
                let ok = devices.len() == 0 || (token matches Some(t) && devices.has(t@));
                if ok {
                    &&& final(state).authenticated
                    &&& final(state).subscriptions@ == old(state).subscriptions@
                    &&& actions@.len() == 2
                    &&& actions@[0] == MobileAction::SendToClient(OutboundMsg::AuthSuccess)
                    &&& actions@[1] == MobileAction::SendToClient(OutboundMsg::SessionList)
                } else {
                    &&& *final(state) == *old(state)
                    &&& actions@.len() == 1
                    &&& actions@[0] == MobileAction::SendToClient(OutboundMsg::AuthError)
                }
            },
            MobileFrame::Subscribe { session_id } => {
                if !old(state).authenticated || session_id is None {
                    *final(state) == *old(state) && actions@.len() == 1 && (actions@[0]
                        matches MobileAction::SendToClient(OutboundMsg::ErrorMsg { message }))
                } else {
                    &&& final(state).authenticated == old(state).authenticated
                    &&& subs_has(final(state).subscriptions@, session_id->Some_0@)
                    &&& forall|k: Seq<char>|
                        k != session_id->Some_0@ ==> (subs_has(final(state).subscriptions@, k)
                            <==> subs_has(old(state).subscriptions@, k))
                    &&& actions@.len() == 2
                    &&& (actions@[0] matches MobileAction::SendToClient(
                        OutboundMsg::ChatHistory { session_id: sid },
                    ) && sid@ == session_id->Some_0@)
                    &&& (actions@[1] matches MobileAction::SendToClient(
                        OutboundMsg::SessionStatus { session_id: sid, running, processing },
                    ) && sid@ == session_id->Some_0@ && running == reg.json_chans.has(
                        session_id->Some_0@,
                    ) && processing == (match reg.json_live.spec_get(session_id->Some_0@) {
                        Some(l) => l.processing,
                        None => false,
                    }))
                }
            },
            MobileFrame::Unsubscribe { session_id } => {
                &&& final(state).authenticated == old(state).authenticated
                &&& actions@.len() == 0
                &&& (session_id matches Some(sid) ==> !subs_has(
                    final(state).subscriptions@,
                    session_id->Some_0@,
                ) && forall|k: Seq<char>|
                    k != session_id->Some_0@ ==> (subs_has(final(state).subscriptions@, k)
                        <==> subs_has(old(state).subscriptions@, k)))
                &&& (session_id is None ==> *final(state) == *old(state))
            },
            MobileFrame::SendMessage { session_id, content } => {
                if !old(state).authenticated || session_id is None || content is None {
                    *final(state) == *old(state) && actions@.len() == 1 && (actions@[0]
                        matches MobileAction::SendToClient(OutboundMsg::ErrorMsg { message }))
                } else {
                    &&& *final(state) == *old(state)
                    &&& actions@.len() == 3
                    &&& (actions@[0] matches MobileAction::WriteToSession {
                        session_id: sid,
                        content: c,
                    } && sid@ == session_id->Some_0@ && c@ == content->Some_0@)
                    &&& (actions@[1] matches MobileAction::EchoToSession {
                        session_id: sid,
                        content: c,
                    } && sid@ == session_id->Some_0@ && c@ == content->Some_0@)
                    &&& (actions@[2] matches MobileAction::EmitUiInput {
                        session_id: sid,
                        content: c,
                    } && sid@ == session_id->Some_0@ && c@ == content->Some_0@)
                }
            },
            MobileFrame::Interrupt { session_id } => {
                &&& *final(state) == *old(state)
                &&& (!old(state).authenticated || session_id is None ==> actions@.len() == 0)
                &&& (old(state).authenticated && session_id is Some ==> actions@.len() == 1 && (
                actions@[0] matches MobileAction::InterruptSession { session_id: sid } && sid@
                    == session_id->Some_0@))
            },
            MobileFrame::Unknown { msg_type } => *final(state) == *old(state) && actions@.len()
                == 1 && (actions@[0] matches MobileAction::SendToClient(
                OutboundMsg::ErrorMsg { message },
            )),
        },
{
    let mut actions: Vec<MobileAction> = Vec::new();
    match frame {
        MobileFrame::Invalid => {
            actions.push(
                MobileAction::SendToClient(
                    OutboundMsg::ErrorMsg { message: String::from_str("Invalid JSON") },
                ),
            );
        },
        MobileFrame::Auth { token } => {
            let ok = match &token {
                Some(t) => devices.entries.len() == 0 || crate::auth::is_valid_token(
                    devices,
                    t.as_str(),
                ),
                None => devices.entries.len() == 0,
            };
            if ok {
                state.authenticated = true;
                actions.push(MobileAction::SendToClient(OutboundMsg::AuthSuccess));
                actions.push(MobileAction::SendToClient(OutboundMsg::SessionList));
            } else {
                actions.push(MobileAction::SendToClient(OutboundMsg::AuthError));
            }
        },
        MobileFrame::Subscribe { session_id } => {
            if !state.authenticated {
                actions.push(
                    MobileAction::SendToClient(
                        OutboundMsg::ErrorMsg { message: String::from_str("Not authenticated") },
                    ),
                );
            } else {
                match session_id {
                    None => {
                        actions.push(
                            MobileAction::SendToClient(
                                OutboundMsg::ErrorMsg {
                                    message: String::from_str("sessionId required"),
                                },
                            ),
                        );
                    },
                    Some(sid) => {
                        let running = reg.json_chans.contains(sid.as_str());
                        let processing = match reg.json_live.get(sid.as_str()) {
                            Some(l) => l.processing,
                            None => false,
                        };
                        subs_insert(&mut state.subscriptions, sid.clone());
                        actions.push(
                            MobileAction::SendToClient(
                                OutboundMsg::ChatHistory { session_id: sid.clone() },
                            ),
                        );
                        actions.push(
                            MobileAction::SendToClient(
                                OutboundMsg::SessionStatus {
                                    session_id: sid,
                                    running,
                                    processing,
                                },
                            ),
                        );
                    },
                }
            }
        },
        MobileFrame::Unsubscribe { session_id } => {
            match session_id {
                Some(sid) => {
                    subs_remove(&mut state.subscriptions, sid.as_str());
                },
                None => {},
            }
        },
        MobileFrame::SendMessage { session_id, content } => {
            if !state.authenticated {
                actions.push(
                    MobileAction::SendToClient(
                        OutboundMsg::ErrorMsg { message: String::from_str("Not authenticated") },
                    ),
                );
            } else {
                match (session_id, content) {
                    (Some(sid), Some(c)) => {
                        actions.push(
                            MobileAction::WriteToSession {
                                session_id: sid.clone(),
                                content: c.clone(),
                            },
                        );
                        actions.push(
                            MobileAction::EchoToSession {
                                session_id: sid.clone(),
                                content: c.clone(),
                            },
                        );
                        actions.push(MobileAction::EmitUiInput { session_id: sid, content: c });
                    },
                    _ => {
                        actions.push(
                            MobileAction::SendToClient(
                                OutboundMsg::ErrorMsg {
                                    message: String::from_str("sessionId and content required"),
                                },
                            ),
                        );
                    },
                }
            }
        },
        MobileFrame::Interrupt { session_id } => {
            if state.authenticated {
                match session_id {
                    Some(sid) => {
                        actions.push(MobileAction::InterruptSession { session_id: sid });
                    },
                    None => {},
                }
            }
        },
        MobileFrame::Unknown { msg_type } => {
            let mut message = String::from_str("Unknown message type: ");
            message.append(msg_type.as_str());
            actions.push(MobileAction::SendToClient(OutboundMsg::ErrorMsg { message }));
        },
    }
    actions
}

/// The client identifiers subscribed to `id`, in table order.
pub open spec fn spec_subscribers(
    entries: Seq<(String, MobileClientState)>,
    id: Seq<char>,
) -> Seq<String>
    decreases entries.len(),
{
    if entries.len() == 0 {
        Seq::empty()
    } else {
        let rest = spec_subscribers(entries.drop_last(), id);
        if subs_has(entries.last().1.subscriptions@, id) {
            rest.push(entries.last().0)
        } else {
            rest
        }
    }
}

/// The identifiers of the clients subscribed to `session_id`, in table
/// order: the targets of a per-session broadcast.
pub fn subscribers_of(clients: &Table<MobileClientState>, session_id: &str) -> (r: Vec<String>)
    ensures
        r@ == spec_subscribers(clients.entries@, session_id@),
{
    let n = clients.entries.len();
    let mut out: Vec<String> = Vec::new();
    let mut j: usize = 0;
    proof {
        assert(clients.entries@.take(0) =~= Seq::<(String, MobileClientState)>::empty());
    }
    while j < n
        invariant
            n == clients.entries@.len(),
            j <= n,
            out@ == spec_subscribers(clients.entries@.take(j as int), session_id@),
        decreases n - j,
    {
        proof {
            assert(clients.entries@.take(j + 1).drop_last() =~= clients.entries@.take(
                j as int,
            ));
            assert(clients.entries@.take(j + 1).last() == clients.entries@[j as int]);
        }
        if subs_contains(&clients.entries[j].1.subscriptions, session_id) {
            out.push(clients.entries[j].0.clone());
        }
        j = j + 1;
    }
    proof {
        assert(clients.entries@.take(n as int) =~= clients.entries@);
    }
    out
}

} // verus!
