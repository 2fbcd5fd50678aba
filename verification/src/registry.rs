//! The session registry: the single source of truth for which sessions
//! are live. For each variant it pairs a live-process table with a
//! broadcast-channel table; the two always hold exactly the same
//! session identifiers, because every installation and every removal
//! touches both in one step.

use vstd::prelude::*;
use crate::bus::{Channel, Subscriber, sub_ok};
use crate::table::{Table, find_key, lemma_find_key, lemma_entry_update, assoc_get};

verus! {

/// Capacity of every per-session broadcast channel.
pub const SESSION_CHANNEL_CAPACITY: usize = 256;

/// Capacity of a structured session's inbound stdin queue.
pub const STDIN_QUEUE_CAPACITY: usize = 100;

/// The live half of a terminal session: the terminal's current size.
/// The terminal pair and its writer live outside the verified state.
pub struct PtyLive {
    /// Terminal width in columns.
    pub cols: u16,
    /// Terminal height in rows.
    pub rows: u16,
}

/// The live half of a structured session: its child process id and the
/// bounded queue of pending stdin writes.
pub struct JsonLive {
    /// The child's process id.
    pub child_id: u32,
    /// Pending stdin lines, oldest first, at most `STDIN_QUEUE_CAPACITY`.
    pub stdin: Vec<String>,
    /// Whether the agent is currently processing: set by an assistant
    /// message, cleared by a result message.
    pub processing: bool,
}

/// Why a write to a session was refused.
#[derive(Debug, PartialEq, Eq, Clone, Copy)]
pub enum WriteError {
    /// No live session has this identifier.
    NotFound,
    /// The session's stdin queue is full; the write is dropped rather
    /// than blocking the caller.
    Full,
}

/// The registry of live sessions and their broadcast channels.
pub struct Registry {
    /// Live terminal sessions.
    pub pty_live: Table<PtyLive>,
    /// Terminal output channels, one per live terminal session.
    pub pty_chans: Table<Channel<Vec<u8>>>,
    /// Live structured sessions.
    pub json_live: Table<JsonLive>,
    /// Structured output channels, one per live structured session.
    pub json_chans: Table<Channel<String>>,
}

impl Registry {
    /// Well-formed: each live table and its channel table hold exactly
    /// the same identifiers, every channel is well-formed, and stdin
    /// queues respect their bound.
    pub open spec fn wf(self) -> bool {
        &&& self.pty_live.wf()
        &&& self.pty_chans.wf()
        &&& self.json_live.wf()
        &&& self.json_chans.wf()
        &&& forall|k: Seq<char>| self.pty_live.has(k) <==> self.pty_chans.has(k)
        &&& forall|k: Seq<char>| self.json_live.has(k) <==> self.json_chans.has(k)
        &&& forall|k: Seq<char>|
            (#[trigger] self.pty_chans.spec_get(k)) matches Some(c) ==> c.wf() && c.capacity
                == SESSION_CHANNEL_CAPACITY
        &&& forall|k: Seq<char>|
            (#[trigger] self.json_chans.spec_get(k)) matches Some(c) ==> c.wf() && c.capacity
                == SESSION_CHANNEL_CAPACITY
        &&& forall|k: Seq<char>|
            (#[trigger] self.json_live.spec_get(k)) matches Some(p) ==> p.stdin@.len()
                <= STDIN_QUEUE_CAPACITY
    }

    /// A session is live when either variant's table holds it.
    pub open spec fn is_live(self, id: Seq<char>) -> bool {
        self.pty_live.has(id) || self.json_live.has(id)
    }

    /// Creates an empty registry.
    pub fn new() -> (r: Registry)
        ensures
            r.wf(),
            forall|k: Seq<char>| !r.is_live(k),
            forall|k: Seq<char>| !r.pty_chans.has(k) && !r.json_chans.has(k),
    {
        Registry {
            pty_live: Table::new(),
            pty_chans: Table::new(),
            json_live: Table::new(),
            json_chans: Table::new(),
        }
    }

    /// Whether the session is live, in either variant.
    pub fn live(&self, id: &str) -> (r: bool)
        ensures
            r == self.is_live(id@),
    {
        self.pty_live.contains(id) || self.json_live.contains(id)
    }

    /// Installs a terminal session: the live entry and its broadcast
    /// channel appear together, before any output is produced.
    pub fn install_pty(&mut self, id: String, live: PtyLive)
        requires
            old(self).wf(),
        ensures
            final(self).wf(),
            final(self).pty_live.has(id@),
            final(self).pty_chans.has(id@),
            final(self).is_live(id@),
            final(self).pty_chans.spec_get(id@) matches Some(c) && c.history@ =~= Seq::<
                Vec<u8>,
            >::empty(),
            forall|k: Seq<char>|
                k != id@ ==> final(self).pty_live.spec_get(k) == old(self).pty_live.spec_get(k)
                    && final(self).pty_chans.spec_get(k) == old(self).pty_chans.spec_get(k),
            final(self).json_live == old(self).json_live,
            final(self).json_chans == old(self).json_chans,
    {
        let chan: Channel<Vec<u8>> = Channel::new(SESSION_CHANNEL_CAPACITY);
        self.pty_live.upsert(id.clone(), live);
        self.pty_chans.upsert(id, chan);
        proof {
            assert forall|k: Seq<char>| self.pty_live.has(k) <==> self.pty_chans.has(k) by {
                lemma_has_iff_some(self.pty_live, k);
                lemma_has_iff_some(self.pty_chans, k);
                lemma_has_iff_some(old(self).pty_live, k);
                lemma_has_iff_some(old(self).pty_chans, k);
            }
            assert forall|k: Seq<char>| self.json_live.has(k) <==> self.json_chans.has(k) by {
                lemma_has_iff_some(self.json_live, k);
                lemma_has_iff_some(self.json_chans, k);
                lemma_has_iff_some(old(self).json_live, k);
                lemma_has_iff_some(old(self).json_chans, k);
            }
        }
    }

    /// Removes a terminal session from both tables in one step.
    pub fn remove_pty(&mut self, id: &str)
        requires
            old(self).wf(),
        ensures
            final(self).wf(),
            !final(self).pty_live.has(id@),
            !final(self).pty_chans.has(id@),
            forall|k: Seq<char>|
                k != id@ ==> final(self).pty_live.spec_get(k) == old(self).pty_live.spec_get(k)
                    && final(self).pty_chans.spec_get(k) == old(self).pty_chans.spec_get(k),
            final(self).json_live == old(self).json_live,
            final(self).json_chans == old(self).json_chans,
    {
        self.pty_live.remove(id);
        self.pty_chans.remove(id);
        proof {
            assert forall|k: Seq<char>| self.pty_live.has(k) <==> self.pty_chans.has(k) by {
                lemma_has_iff_some(self.pty_live, k);
                lemma_has_iff_some(self.pty_chans, k);
                lemma_has_iff_some(old(self).pty_live, k);
                lemma_has_iff_some(old(self).pty_chans, k);
            }
            assert forall|k: Seq<char>| self.json_live.has(k) <==> self.json_chans.has(k) by {
                lemma_has_iff_some(self.json_live, k);
                lemma_has_iff_some(self.json_chans, k);
                lemma_has_iff_some(old(self).json_live, k);
                lemma_has_iff_some(old(self).json_chans, k);
            }
        }
    }

    /// Installs a structured session: the live entry and its broadcast
    /// channel appear together, before any output is produced.
    pub fn install_json(&mut self, id: String, live: JsonLive)
        requires
            old(self).wf(),
            live.stdin@.len() <= STDIN_QUEUE_CAPACITY,
        ensures
            final(self).wf(),
            final(self).json_live.has(id@),
            final(self).json_chans.has(id@),
            final(self).is_live(id@),
            final(self).json_live.spec_get(id@) == Some(live),
            final(self).json_chans.spec_get(id@) matches Some(c) && c.history@ =~= Seq::<
                String,
            >::empty(),
            forall|k: Seq<char>|
                k != id@ ==> final(self).json_live.spec_get(k) == old(
                    self,
                ).json_live.spec_get(k) && final(self).json_chans.spec_get(k) == old(
                    self,
                ).json_chans.spec_get(k),
            final(self).pty_live == old(self).pty_live,
            final(self).pty_chans == old(self).pty_chans,
    {
        let chan: Channel<String> = Channel::new(SESSION_CHANNEL_CAPACITY);
        self.json_live.upsert(id.clone(), live);
        self.json_chans.upsert(id, chan);
        proof {
            assert forall|k: Seq<char>| self.pty_live.has(k) <==> self.pty_chans.has(k) by {
                lemma_has_iff_some(self.pty_live, k);
                lemma_has_iff_some(self.pty_chans, k);
                lemma_has_iff_some(old(self).pty_live, k);
                lemma_has_iff_some(old(self).pty_chans, k);
            }
            assert forall|k: Seq<char>| self.json_live.has(k) <==> self.json_chans.has(k) by {
                lemma_has_iff_some(self.json_live, k);
                lemma_has_iff_some(self.json_chans, k);
                lemma_has_iff_some(old(self).json_live, k);
                lemma_has_iff_some(old(self).json_chans, k);
            }
        }
    }

    /// Removes a structured session from both tables in one step.
    pub fn remove_json(&mut self, id: &str)
        requires
            old(self).wf(),
        ensures
            final(self).wf(),
            !final(self).json_live.has(id@),
            !final(self).json_chans.has(id@),
            forall|k: Seq<char>|
                k != id@ ==> final(self).json_live.spec_get(k) == old(
                    self,
                ).json_live.spec_get(k) && final(self).json_chans.spec_get(k) == old(
                    self,
                ).json_chans.spec_get(k),
            final(self).pty_live == old(self).pty_live,
            final(self).pty_chans == old(self).pty_chans,
    {
        self.json_live.remove(id);
        self.json_chans.remove(id);
        proof {
            assert forall|k: Seq<char>| self.pty_live.has(k) <==> self.pty_chans.has(k) by {
                lemma_has_iff_some(self.pty_live, k);
                lemma_has_iff_some(self.pty_chans, k);
                lemma_has_iff_some(old(self).pty_live, k);
                lemma_has_iff_some(old(self).pty_chans, k);
            }
            assert forall|k: Seq<char>| self.json_live.has(k) <==> self.json_chans.has(k) by {
                lemma_has_iff_some(self.json_live, k);
                lemma_has_iff_some(self.json_chans, k);
                lemma_has_iff_some(old(self).json_live, k);
                lemma_has_iff_some(old(self).json_chans, k);
            }
        }
    }

    /// Broadcasts a chunk of terminal output on the session's channel.
    /// Returns whether the session was live; the send itself never
    /// blocks and never fails.
    pub fn send_pty_output(&mut self, id: &str, chunk: Vec<u8>) -> (r: bool)
        requires
            old(self).wf(),
            old(self).pty_chans.spec_get(id@) matches Some(c) ==> c.history@.len() + 1
                <= u64::MAX,
        ensures
            final(self).wf(),
            r == old(self).pty_chans.has(id@),
            !r ==> *final(self) == *old(self),
            r ==> (final(self).pty_chans.spec_get(id@) matches Some(c2)
                && old(self).pty_chans.spec_get(id@) matches Some(c1) && c2.history@
                == c1.history@.push(chunk)),
            forall|k: Seq<char>|
                k != id@ ==> final(self).pty_chans.spec_get(k) == old(
                    self,
                ).pty_chans.spec_get(k),
            final(self).pty_live == old(self).pty_live,
            final(self).json_live == old(self).json_live,
            final(self).json_chans == old(self).json_chans,
            final(self).pty_chans.keys() == old(self).pty_chans.keys(),
    {
        let ghost pre = self.pty_chans.entries@;
        match self.pty_chans.get_mut(id) {
            Some(chan) => {
                chan.send(chunk);
                proof {
                    let keys0 = pre.map_values(|e: (String, Channel<Vec<u8>>)| e.0@);
                    lemma_find_key(keys0, id@);
                    lemma_entry_update(
                        self.pty_chans,
                        pre,
                        id@,
                        self.pty_chans.entries@[find_key(keys0, id@)].1,
                    );
                    assert forall|k: Seq<char>|
                        self.pty_live.has(k) <==> self.pty_chans.has(k) by {
                        lemma_has_iff_some(self.pty_chans, k);
                        lemma_has_iff_some(old(self).pty_chans, k);
                        lemma_has_iff_some(self.pty_live, k);
                    }
                    assert forall|k: Seq<char>|
                        (#[trigger] self.pty_chans.spec_get(k)) is Some implies (
                        self.pty_chans.spec_get(k)->Some_0.wf() && self.pty_chans.spec_get(
                            k,
                        )->Some_0.capacity == SESSION_CHANNEL_CAPACITY) by {
                        if k != id@ {
                            assert(self.pty_chans.spec_get(k) == old(self).pty_chans.spec_get(
                                k,
                            ));
                        }
                    }
                }
                true
            },
            None => false,
        }
    }

    /// Broadcasts a structured output line on the session's channel.
    pub fn send_json_output(&mut self, id: &str, line: String) -> (r: bool)
        requires
            old(self).wf(),
            old(self).json_chans.spec_get(id@) matches Some(c) ==> c.history@.len() + 1
                <= u64::MAX,
        ensures
            final(self).wf(),
            r == old(self).json_chans.has(id@),
            !r ==> *final(self) == *old(self),
            r ==> (final(self).json_chans.spec_get(id@) matches Some(c2)
                && old(self).json_chans.spec_get(id@) matches Some(c1) && c2.history@
                == c1.history@.push(line)),
            forall|k: Seq<char>|
                k != id@ ==> final(self).json_chans.spec_get(k) == old(
                    self,
                ).json_chans.spec_get(k),
            final(self).pty_live == old(self).pty_live,
            final(self).pty_chans == old(self).pty_chans,
            final(self).json_live == old(self).json_live,
            final(self).json_chans.keys() == old(self).json_chans.keys(),
    {
        let ghost pre = self.json_chans.entries@;
        match self.json_chans.get_mut(id) {
            Some(chan) => {
                chan.send(line);
                proof {
                    let keys0 = pre.map_values(|e: (String, Channel<String>)| e.0@);
                    lemma_find_key(keys0, id@);
                    lemma_entry_update(
                        self.json_chans,
                        pre,
                        id@,
                        self.json_chans.entries@[find_key(keys0, id@)].1,
                    );
                    assert forall|k: Seq<char>|
                        self.json_live.has(k) <==> self.json_chans.has(k) by {
                        lemma_has_iff_some(self.json_chans, k);
                        lemma_has_iff_some(old(self).json_chans, k);
                        lemma_has_iff_some(self.json_live, k);
                    }
                    assert forall|k: Seq<char>|
                        (#[trigger] self.json_chans.spec_get(k)) is Some implies (
                        self.json_chans.spec_get(k)->Some_0.wf() && self.json_chans.spec_get(
                            k,
                        )->Some_0.capacity == SESSION_CHANNEL_CAPACITY) by {
                        if k != id@ {
                            assert(self.json_chans.spec_get(k) == old(
                                self,
                            ).json_chans.spec_get(k));
                        }
                    }
                }
                true
            },
            None => false,
        }
    }

    /// Subscribes to a structured session's channel, from this point
    /// forward only.
    pub fn subscribe_json(&self, id: &str) -> (r: Option<Subscriber>)
        requires
            self.wf(),
        ensures
            match r {
                Some(sub) => self.json_chans.spec_get(id@) matches Some(c) && sub.next
                    == c.history@.len() && sub_ok(c, sub),
                None => !self.json_chans.has(id@),
            },
    {
        match self.json_chans.get(id) {
            Some(chan) => Some(chan.subscribe()),
            None => None,
        }
    }

    /// Subscribes to a terminal session's channel, from this point
    /// forward only.
    pub fn subscribe_pty(&self, id: &str) -> (r: Option<Subscriber>)
        requires
            self.wf(),
        ensures
            match r {
                Some(sub) => self.pty_chans.spec_get(id@) matches Some(c) && sub.next
                    == c.history@.len() && sub_ok(c, sub),
                None => !self.pty_chans.has(id@),
            },
    {
        match self.pty_chans.get(id) {
            Some(chan) => Some(chan.subscribe()),
            None => None,
        }
    }

    /// Queues a line for a structured session's stdin. The queue is
    /// bounded: when it is full the write is refused, never blocked on.
    pub fn write_json_stdin(&mut self, id: &str, data: String) -> (r: Result<(), WriteError>)
        requires
            old(self).wf(),
        ensures
            final(self).wf(),
            !old(self).json_live.has(id@) <==> r == Err::<(), WriteError>(WriteError::NotFound),
            r matches Err(e) ==> (forall|k: Seq<char>|
                final(self).json_live.spec_get(k) == old(self).json_live.spec_get(k)) && (e
                == WriteError::Full ==> (old(self).json_live.spec_get(id@) matches Some(p)
                && old(self).json_live.spec_get(id@)->Some_0.stdin@.len()
                == STDIN_QUEUE_CAPACITY)),
            r matches Ok(u) ==> ({
                &&& old(self).json_live.spec_get(id@) matches Some(p)
                &&& old(self).json_live.spec_get(id@)->Some_0.stdin@.len()
                    < STDIN_QUEUE_CAPACITY
                &&& final(self).json_live.spec_get(id@) matches Some(p2)
                &&& final(self).json_live.spec_get(id@)->Some_0.stdin@ == old(
                    self,
                ).json_live.spec_get(id@)->Some_0.stdin@.push(data)
                &&& final(self).json_live.spec_get(id@)->Some_0.child_id == old(
                    self,
                ).json_live.spec_get(id@)->Some_0.child_id
            }),
            forall|k: Seq<char>|
                k != id@ ==> final(self).json_live.spec_get(k) == old(
                    self,
                ).json_live.spec_get(k),
            final(self).pty_live == old(self).pty_live,
            final(self).pty_chans == old(self).pty_chans,
            final(self).json_chans == old(self).json_chans,
            final(self).json_live.keys() == old(self).json_live.keys(),
    {
        let ghost pre = self.json_live.entries@;
        match self.json_live.get_mut(id) {
            Some(live) => {
                proof {
                    let keys0 = pre.map_values(|e: (String, JsonLive)| e.0@);
                    lemma_find_key(keys0, id@);
                    assert(assoc_get(pre, id@) is Some);
                }
                if live.stdin.len() == STDIN_QUEUE_CAPACITY {
                    proof {
                        let keys0 = pre.map_values(|e: (String, JsonLive)| e.0@);
                        lemma_entry_update(
                            self.json_live,
                            pre,
                            id@,
                            self.json_live.entries@[find_key(keys0, id@)].1,
                        );
                        assert(self.json_live.entries@ =~= pre);
                        assert forall|k: Seq<char>|
                            self.json_live.spec_get(k) == old(self).json_live.spec_get(k) by {
                            if k == id@ {
                                assert(self.json_live.entries@[find_key(keys0, id@)]
                                    == pre[find_key(keys0, id@)]);
                            }
                        }
                        assert forall|k: Seq<char>|
                            self.json_live.has(k) <==> self.json_chans.has(k) by {
                            lemma_has_iff_some(self.json_live, k);
                            lemma_has_iff_some(old(self).json_live, k);
                            lemma_has_iff_some(self.json_chans, k);
                        }
                        assert forall|k: Seq<char>|
                            (#[trigger] self.json_live.spec_get(k)) is Some implies self
                            .json_live.spec_get(k)->Some_0.stdin@.len()
                            <= STDIN_QUEUE_CAPACITY by {}
                    }
                    Err(WriteError::Full)
                } else {
                    live.stdin.push(data);
                    proof {
                        let keys0 = pre.map_values(|e: (String, JsonLive)| e.0@);
                        lemma_entry_update(
                            self.json_live,
                            pre,
                            id@,
                            self.json_live.entries@[find_key(keys0, id@)].1,
                        );
                        assert forall|k: Seq<char>|
                            self.json_live.has(k) <==> self.json_chans.has(k) by {
                            lemma_has_iff_some(self.json_live, k);
                            lemma_has_iff_some(old(self).json_live, k);
                            lemma_has_iff_some(self.json_chans, k);
                        }
                        assert forall|k: Seq<char>|
                            (#[trigger] self.json_live.spec_get(k)) is Some implies self
                            .json_live.spec_get(k)->Some_0.stdin@.len()
                            <= STDIN_QUEUE_CAPACITY by {
                            if k != id@ {
                                assert(self.json_live.spec_get(k) == old(
                                    self,
                                ).json_live.spec_get(k));
                            }
                        }
                    }
                    Ok(())
                }
            },
            None => Err(WriteError::NotFound),
        }
    }

    /// Takes the oldest pending stdin line of a structured session, for
    /// the writer that feeds the child process.
    pub fn pop_json_stdin(&mut self, id: &str) -> (r: Option<String>)
        requires
            old(self).wf(),
        ensures
            final(self).wf(),
            match r {
                Some(line) => ({
                    &&& old(self).json_live.spec_get(id@) matches Some(p)
                    &&& old(self).json_live.spec_get(id@)->Some_0.stdin@.len() > 0
                    &&& line == old(self).json_live.spec_get(id@)->Some_0.stdin@[0]
                    &&& final(self).json_live.spec_get(id@) matches Some(p2)
                    &&& final(self).json_live.spec_get(id@)->Some_0.stdin@ == old(
                        self,
                    ).json_live.spec_get(id@)->Some_0.stdin@.drop_first()
                    &&& final(self).json_live.spec_get(id@)->Some_0.child_id == old(
                        self,
                    ).json_live.spec_get(id@)->Some_0.child_id
                }),
                None => (forall|k: Seq<char>|
                    final(self).json_live.spec_get(k) == old(self).json_live.spec_get(k)) && (
                old(self).json_live.spec_get(id@) matches Some(p) ==> old(
                    self,
                ).json_live.spec_get(id@)->Some_0.stdin@.len() == 0),
            },
            forall|k: Seq<char>|
                k != id@ ==> final(self).json_live.spec_get(k) == old(
                    self,
                ).json_live.spec_get(k),
            final(self).pty_live == old(self).pty_live,
            final(self).pty_chans == old(self).pty_chans,
            final(self).json_chans == old(self).json_chans,
    {
        let ghost pre = self.json_live.entries@;
        match self.json_live.get_mut(id) {
            Some(live) => {
                proof {
                    let keys0 = pre.map_values(|e: (String, JsonLive)| e.0@);
                    lemma_find_key(keys0, id@);
                }
                if live.stdin.len() == 0 {
                    proof {
                        let keys0 = pre.map_values(|e: (String, JsonLive)| e.0@);
                        lemma_entry_update(
                            self.json_live,
                            pre,
                            id@,
                            self.json_live.entries@[find_key(keys0, id@)].1,
                        );
                        assert(self.json_live.entries@ =~= pre);
                        assert forall|k: Seq<char>|
                            self.json_live.spec_get(k) == old(self).json_live.spec_get(k) by {
                            if k == id@ {
                                assert(self.json_live.entries@[find_key(keys0, id@)]
                                    == pre[find_key(keys0, id@)]);
                            }
                        }
                        assert forall|k: Seq<char>|
                            self.json_live.has(k) <==> self.json_chans.has(k) by {
                            lemma_has_iff_some(self.json_live, k);
                            lemma_has_iff_some(old(self).json_live, k);
                            lemma_has_iff_some(self.json_chans, k);
                        }
                        assert forall|k: Seq<char>|
                            (#[trigger] self.json_live.spec_get(k)) is Some implies self
                            .json_live.spec_get(k)->Some_0.stdin@.len()
                            <= STDIN_QUEUE_CAPACITY by {}
                    }
                    None
                } else {
                    let line = live.stdin.remove(0);
                    proof {
                        let keys0 = pre.map_values(|e: (String, JsonLive)| e.0@);
                        let fk = find_key(keys0, id@);
                        assert(self.json_live.entries@[fk].1.stdin@ =~= pre[fk].1.stdin@
                            .drop_first());
                        lemma_entry_update(
                            self.json_live,
                            pre,
                            id@,
                            self.json_live.entries@[fk].1,
                        );
                        assert forall|k: Seq<char>|
                            self.json_live.has(k) <==> self.json_chans.has(k) by {
                            lemma_has_iff_some(self.json_live, k);
                            lemma_has_iff_some(old(self).json_live, k);
                            lemma_has_iff_some(self.json_chans, k);
                        }
                        assert forall|k: Seq<char>|
                            (#[trigger] self.json_live.spec_get(k)) is Some implies self
                            .json_live.spec_get(k)->Some_0.stdin@.len()
                            <= STDIN_QUEUE_CAPACITY by {
                            if k != id@ {
                                assert(self.json_live.spec_get(k) == old(
                                    self,
                                ).json_live.spec_get(k));
                            }
                        }
                    }
                    Some(line)
                }
            },
            None => None,
        }
    }
}

impl Registry {
    /// Records a structured session's processing state; the rest of the
    /// entry and every other table are untouched. Returns whether the
    /// session was live.
    pub fn set_json_processing(&mut self, id: &str, processing: bool) -> (r: bool)
        requires
            old(self).wf(),
        ensures
            final(self).wf(),
            r == old(self).json_live.has(id@),
            !r ==> *final(self) == *old(self),
            r ==> ({
                &&& old(self).json_live.spec_get(id@) matches Some(p1)
                &&& final(self).json_live.spec_get(id@) matches Some(p2)
                &&& final(self).json_live.spec_get(id@)->Some_0.processing == processing
                &&& final(self).json_live.spec_get(id@)->Some_0.child_id == old(
                    self,
                ).json_live.spec_get(id@)->Some_0.child_id
                &&& final(self).json_live.spec_get(id@)->Some_0.stdin@ == old(
                    self,
                ).json_live.spec_get(id@)->Some_0.stdin@
            }),
            forall|k: Seq<char>|
                k != id@ ==> final(self).json_live.spec_get(k) == old(
                    self,
                ).json_live.spec_get(k),
            final(self).pty_live == old(self).pty_live,
            final(self).pty_chans == old(self).pty_chans,
            final(self).json_chans == old(self).json_chans,
            final(self).json_live.keys() == old(self).json_live.keys(),
    {
        let ghost pre = self.json_live.entries@;
        match self.json_live.get_mut(id) {
            Some(live) => {
                proof {
                    let keys0 = pre.map_values(|e: (String, JsonLive)| e.0@);
                    lemma_find_key(keys0, id@);
                }
                live.processing = processing;
                proof {
                    let keys0 = pre.map_values(|e: (String, JsonLive)| e.0@);
                    lemma_entry_update(
                        self.json_live,
                        pre,
                        id@,
                        self.json_live.entries@[find_key(keys0, id@)].1,
                    );
                    assert forall|k: Seq<char>|
                        self.json_live.has(k) <==> self.json_chans.has(k) by {
                        lemma_has_iff_some(self.json_live, k);
                        lemma_has_iff_some(old(self).json_live, k);
                        lemma_has_iff_some(self.json_chans, k);
                    }
                    assert forall|k: Seq<char>|
                        (#[trigger] self.json_live.spec_get(k)) is Some implies self
                        .json_live.spec_get(k)->Some_0.stdin@.len()
                        <= STDIN_QUEUE_CAPACITY by {
                        if k != id@ {
                            assert(self.json_live.spec_get(k) == old(
                                self,
                            ).json_live.spec_get(k));
                        }
                    }
                }
                true
            },
            None => false,
        }
    }

    /// Records a terminal session's current size; the rest of the entry
    /// and every other table are untouched. Returns whether the session
    /// was live.
    pub fn set_pty_size(&mut self, id: &str, cols: u16, rows: u16) -> (r: bool)
        requires
            old(self).wf(),
        ensures
            final(self).wf(),
            r == old(self).pty_live.has(id@),
            !r ==> *final(self) == *old(self),
            r ==> (final(self).pty_live.spec_get(id@) matches Some(p)
                && final(self).pty_live.spec_get(id@)->Some_0.cols == cols
                && final(self).pty_live.spec_get(id@)->Some_0.rows == rows),
            forall|k: Seq<char>|
                k != id@ ==> final(self).pty_live.spec_get(k) == old(self).pty_live.spec_get(k),
            final(self).pty_chans == old(self).pty_chans,
            final(self).json_live == old(self).json_live,
            final(self).json_chans == old(self).json_chans,
            final(self).pty_live.keys() == old(self).pty_live.keys(),
    {
        let ghost pre = self.pty_live.entries@;
        match self.pty_live.get_mut(id) {
            Some(live) => {
                proof {
                    let keys0 = pre.map_values(|e: (String, PtyLive)| e.0@);
                    lemma_find_key(keys0, id@);
                }
                live.cols = cols;
                live.rows = rows;
                proof {
                    let keys0 = pre.map_values(|e: (String, PtyLive)| e.0@);
                    lemma_entry_update(
                        self.pty_live,
                        pre,
                        id@,
                        self.pty_live.entries@[find_key(keys0, id@)].1,
                    );
                    assert forall|k: Seq<char>|
                        self.pty_live.has(k) <==> self.pty_chans.has(k) by {
                        lemma_has_iff_some(self.pty_live, k);
                        lemma_has_iff_some(old(self).pty_live, k);
                        lemma_has_iff_some(self.pty_chans, k);
                    }
                }
                true
            },
            None => false,
        }
    }
}

/// A key is present exactly when its lookup yields a value.
pub proof fn lemma_has_iff_some<V>(t: Table<V>, k: Seq<char>)
    ensures
        t.has(k) <==> (t.spec_get(k) is Some),
{
}

/// The two halves of the registry agree: a session identifier is in the
/// live table exactly when it is in the broadcast table, for both
/// variants — there is no observable state in which one holds a session
/// and the other does not.
pub proof fn lemma_live_and_channel_tables_agree(r: Registry)
    requires
        r.wf(),
    ensures
        forall|k: Seq<char>| r.pty_live.has(k) <==> r.pty_chans.has(k),
        forall|k: Seq<char>| r.json_live.has(k) <==> r.json_chans.has(k),
        forall|k: Seq<char>| r.is_live(k) <==> r.pty_chans.has(k) || r.json_chans.has(k),
{
}

} // verus!
