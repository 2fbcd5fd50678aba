//! The persistence layer's model: sessions, folders, scrollback
//! snapshots and recently-closed entries, with the row-level invariants
//! that tie them together. Every operation states exactly how the tables
//! change; the durable backing store mirrors these tables.

use vstd::prelude::*;
use vstd::seq_lib::lemma_multiset_commutative;
use vstd::multiset::Multiset;
use crate::session::{SessionRow, FolderRow, RecentlyClosedRow};
use crate::strutil::{lex_le, lemma_lex_le_total, lemma_lex_le_trans, str_le};
use crate::table::{Table, find_key, lemma_find_key};
use crate::codec::{
    spec_encode_scrollback, spec_decode_scrollback, encode_scrollback, decode_scrollback,
};

verus! {

/// A stored scrollback snapshot: the encoded payload and its timestamp.
#[derive(Debug, PartialEq, Eq)]
pub struct BufferEntry {
    /// gzip-compressed, base64-encoded content.
    pub data: String,
    /// Time of the last write, RFC 3339 text.
    pub updated_at: String,
}

/// Why a store operation was refused.
#[derive(Debug, PartialEq, Eq, Clone, Copy)]
pub enum StoreError {
    /// The named session does not exist.
    NotFound,
    /// The scrollback payload could not be encoded or decoded.
    Codec,
}

/// The identifiers of a session sequence, in row order.
pub open spec fn session_ids(rows: Seq<SessionRow>) -> Seq<Seq<char>> {
    rows.map_values(|r: SessionRow| r.id@)
}

/// Whether `rows` holds a session with identifier `id`.
pub open spec fn has_session(rows: Seq<SessionRow>, id: Seq<char>) -> bool {
    find_key(session_ids(rows), id) >= 0
}

/// The identifiers of a folder sequence, in row order.
pub open spec fn folder_ids(rows: Seq<FolderRow>) -> Seq<Seq<char>> {
    rows.map_values(|r: FolderRow| r.id@)
}

/// The identifiers of a recently-closed sequence, in row order.
pub open spec fn recently_ids(rows: Seq<RecentlyClosedRow>) -> Seq<Seq<char>> {
    rows.map_values(|r: RecentlyClosedRow| r.id@)
}

/// `a` lists no later than `b`: lower sort order first, and within one
/// sort order the more recent creation time first.
pub open spec fn row_le(a: SessionRow, b: SessionRow) -> bool {
    a.sort_order < b.sort_order || (a.sort_order == b.sort_order && lex_le(
        b.created_at@,
        a.created_at@,
    ))
}

/// The session sequence is in listing order.
pub open spec fn sorted_rows(s: Seq<SessionRow>) -> bool {
    forall|i: int, j: int| 0 <= i < j < s.len() ==> row_le(s[i], s[j])
}

/// The recently-closed sequence is ordered most recent first.
pub open spec fn recently_sorted(s: Seq<RecentlyClosedRow>) -> bool {
    forall|i: int, j: int| 0 <= i < j < s.len() ==> lex_le(s[j].closed_at@, s[i].closed_at@)
}

/// The folder sequence is ordered by ascending sort order.
pub open spec fn folders_sorted(s: Seq<FolderRow>) -> bool {
    forall|i: int, j: int| 0 <= i < j < s.len() ==> s[i].sort_order <= s[j].sort_order
}

proof fn lemma_row_le_total(a: SessionRow, b: SessionRow)
    ensures
        row_le(a, b) || row_le(b, a),
{
    lemma_lex_le_total(a.created_at@, b.created_at@);
}

proof fn lemma_row_le_trans(a: SessionRow, b: SessionRow, c: SessionRow)
    requires
        row_le(a, b),
        row_le(b, c),
    ensures
        row_le(a, c),
{
    if a.sort_order == b.sort_order && b.sort_order == c.sort_order {
        lemma_lex_le_trans(c.created_at@, b.created_at@, a.created_at@);
    }
}

proof fn lemma_insert_to_multiset<A>(s: Seq<A>, i: int, x: A)
    requires
        0 <= i <= s.len(),
    ensures
        s.insert(i, x).to_multiset() =~= s.to_multiset().insert(x),
{
    broadcast use vstd::seq_lib::group_to_multiset_ensures;

    assert(s.insert(i, x) =~= s.take(i) + (seq![x] + s.skip(i)));
    assert(s =~= s.take(i) + s.skip(i));
    lemma_multiset_commutative(s.take(i), seq![x] + s.skip(i));
    lemma_multiset_commutative(seq![x], s.skip(i));
    lemma_multiset_commutative(s.take(i), s.skip(i));
    assert(seq![x] =~= Seq::<A>::empty().push(x));
    assert(Seq::<A>::empty().to_multiset() =~= Multiset::<A>::empty());
    assert(seq![x].to_multiset() =~= Multiset::<A>::empty().insert(x));
}

/// The durable store: all tables, with their invariants.
pub struct Store {
    /// Session rows, in insertion order.
    pub sessions: Vec<SessionRow>,
    /// Folder rows, in insertion order.
    pub folders: Vec<FolderRow>,
    /// Recently-closed rows, most recent first, at most ten.
    pub recently_closed: Vec<RecentlyClosedRow>,
    /// Scrollback snapshots, keyed by session identifier.
    pub buffers: Table<BufferEntry>,
}

impl Store {
    /// Well-formed: unique identifiers per table, the recently-closed
    /// table ordered and capped at ten rows, and a snapshot only for
    /// sessions that exist.
    pub open spec fn wf(self) -> bool {
        &&& forall|i: int, j: int|
            0 <= i < j < self.sessions@.len() ==> session_ids(self.sessions@)[i] != session_ids(
                self.sessions@,
            )[j]
        &&& forall|i: int, j: int|
            0 <= i < j < self.folders@.len() ==> folder_ids(self.folders@)[i] != folder_ids(
                self.folders@,
            )[j]
        &&& forall|i: int, j: int|
            0 <= i < j < self.recently_closed@.len() ==> recently_ids(self.recently_closed@)[i]
                != recently_ids(self.recently_closed@)[j]
        &&& self.recently_closed@.len() <= 10
        &&& recently_sorted(self.recently_closed@)
        &&& self.buffers.wf()
        &&& forall|k: Seq<char>| self.buffers.has(k) ==> has_session(self.sessions@, k)
    }

    /// Creates an empty store.
    pub fn new() -> (r: Store)
        ensures
            r.wf(),
            r.sessions@ =~= Seq::<SessionRow>::empty(),
            r.folders@ =~= Seq::<FolderRow>::empty(),
            r.recently_closed@ =~= Seq::<RecentlyClosedRow>::empty(),
            r.buffers.entries@ =~= Seq::<(String, BufferEntry)>::empty(),
    {
        let r = Store {
            sessions: Vec::new(),
            folders: Vec::new(),
            recently_closed: Vec::new(),
            buffers: Table::new(),
        };
        proof {
            assert(forall|k: Seq<char>| !r.buffers.has(k));
        }
        r
    }

    /// Finds the index of the session with identifier `id`.
    pub fn find_session(&self, id: &str) -> (r: Option<usize>)
        ensures
            match r {
                Some(i) => find_key(session_ids(self.sessions@), id@) == i as int,
                None => find_key(session_ids(self.sessions@), id@) == -1,
            },
    {
        let ghost keys = session_ids(self.sessions@);
        proof {
            lemma_find_key(keys, id@);
        }
        let n = self.sessions.len();
        let mut i: usize = 0;
        while i < n
            invariant
                n == self.sessions@.len(),
                i <= n,
                keys == session_ids(self.sessions@),
                forall|j: int| 0 <= j < i ==> keys[j] != id@,
            decreases n - i,
        {
            if crate::strutil::str_eq(self.sessions[i].id.as_str(), id) {
                proof {
                    lemma_find_key(keys, id@);
                    if find_key(keys, id@) != i as int {
                        assert(keys[i as int] == id@);
                    }
                }
                return Some(i);
            }
            i = i + 1;
        }
        proof {
            lemma_find_key(keys, id@);
            if find_key(keys, id@) >= 0 {
                assert(keys[find_key(keys, id@)] == id@);
            }
        }
        None
    }

    /// All sessions, ordered by sort order ascending, then creation time
    /// descending: the same rows, in listing order.
    pub fn load_sessions(&self) -> (r: Vec<SessionRow>)
        ensures
            sorted_rows(r@),
            r@.to_multiset() == self.sessions@.to_multiset(),
    {
        broadcast use vstd::seq_lib::group_to_multiset_ensures;

        let n = self.sessions.len();
        let mut out: Vec<SessionRow> = Vec::new();
        let mut i: usize = 0;
        proof {
            assert(self.sessions@.take(0) =~= Seq::<SessionRow>::empty());
            assert(out@.to_multiset() =~= self.sessions@.take(0).to_multiset());
        }
        while i < n
            invariant
                n == self.sessions@.len(),
                i <= n,
                sorted_rows(out@),
                out@.to_multiset() == self.sessions@.take(i as int).to_multiset(),
            decreases n - i,
        {
            let row = self.sessions[i].clone();
            proof {
                assert(self.sessions@.take(i + 1) =~= self.sessions@.take(i as int).push(
                    self.sessions@[i as int],
                ));
            }
            insert_sorted(&mut out, row);
            proof {
                self.sessions@.take(i as int).to_multiset_ensures();
                assert(self.sessions@.take(i as int).push(self.sessions@[i as int]).to_multiset()
                    =~= self.sessions@.take(i as int).to_multiset().insert(
                    self.sessions@[i as int],
                ));
            }
            i = i + 1;
        }
        proof {
            assert(self.sessions@.take(n as int) =~= self.sessions@);
        }
        out
    }

    /// Inserts or replaces the session row with its identifier, returning
    /// whether a new row was created. A replaced row is overwritten whole,
    /// including its recorded process id.
    pub fn save_session(&mut self, row: SessionRow) -> (is_new: bool)
        requires
            old(self).wf(),
        ensures
            final(self).wf(),
            is_new == !has_session(old(self).sessions@, row.id@),
            ({
                let i = find_key(session_ids(old(self).sessions@), row.id@);
                if i >= 0 {
                    final(self).sessions@ =~= old(self).sessions@.update(i, row)
                } else {
                    final(self).sessions@ =~= old(self).sessions@.push(row)
                }
            }),
            final(self).folders@ == old(self).folders@,
            final(self).recently_closed@ == old(self).recently_closed@,
            final(self).buffers == old(self).buffers,
            has_session(final(self).sessions@, row.id@),
    {
        let ghost keys0 = session_ids(self.sessions@);
        proof {
            lemma_find_key(keys0, row.id@);
        }
        match self.find_session(row.id.as_str()) {
            Some(i) => {
                let ghost rid = row.id@;
                self.sessions.set(i, row);
                proof {
                    assert(session_ids(self.sessions@) =~= keys0);
                    lemma_find_key(session_ids(self.sessions@), rid);
                }
                false
            },
            None => {
                let ghost rid = row.id@;
                self.sessions.push(row);
                proof {
                    assert(session_ids(self.sessions@) =~= keys0.push(rid));
                    crate::table::lemma_find_key(keys0.push(rid), rid);
                    assert forall|i: int, j: int|
                        0 <= i < j < self.sessions@.len() implies session_ids(self.sessions@)[i]
                        != session_ids(self.sessions@)[j] by {
                        if j == self.sessions@.len() - 1 {
                            lemma_find_key(keys0, rid);
                        }
                    }
                    assert forall|k: Seq<char>| self.buffers.has(k) implies has_session(
                        self.sessions@,
                        k,
                    ) by {
                        if k != rid {
                            crate::table::lemma_find_key(keys0, k);
                            lemma_find_key(keys0.push(rid), k);
                            lemma_find_key_push_any(keys0, rid, k);
                        } else {
                            lemma_find_key(keys0.push(rid), rid);
                            if find_key(keys0.push(rid), rid) < 0 {
                                assert(keys0.push(rid)[keys0.len() as int] == rid);
                            }
                        }
                    }
                    if find_key(session_ids(self.sessions@), rid) < 0 {
                        lemma_find_key(session_ids(self.sessions@), rid);
                        assert(session_ids(self.sessions@)[keys0.len() as int] == rid);
                    }
                }
                true
            },
        }
    }

    /// Removes the session with identifier `id`, and with it any
    /// scrollback snapshot it owned.
    pub fn delete_session(&mut self, id: &str)
        requires
            old(self).wf(),
        ensures
            final(self).wf(),
            ({
                let i = find_key(session_ids(old(self).sessions@), id@);
                if i >= 0 {
                    final(self).sessions@ =~= old(self).sessions@.remove(i)
                } else {
                    final(self).sessions@ =~= old(self).sessions@
                }
            }),
            !has_session(final(self).sessions@, id@),
            !final(self).buffers.has(id@),
            forall|k: Seq<char>|
                k != id@ ==> final(self).buffers.spec_get(k) == old(self).buffers.spec_get(k),
            final(self).folders@ == old(self).folders@,
            final(self).recently_closed@ == old(self).recently_closed@,
    {
        let ghost keys0 = session_ids(self.sessions@);
        proof {
            lemma_find_key(keys0, id@);
        }
        match self.find_session(id) {
            Some(i) => {
                self.sessions.remove(i);
                proof {
                    let ghost fk = find_key(keys0, id@);
                    assert(session_ids(self.sessions@) =~= keys0.remove(fk));
                    if find_key(session_ids(self.sessions@), id@) >= 0 {
                        lemma_find_key(session_ids(self.sessions@), id@);
                        let j = find_key(session_ids(self.sessions@), id@);
                        assert(session_ids(self.sessions@)[j] == id@);
                        if j < fk {
                            assert(keys0[j] == id@);
                        } else {
                            assert(keys0[j + 1] == id@);
                        }
                    }
                }
            },
            None => {},
        }
        self.buffers.remove(id);
        proof {
            let ghost fk = find_key(keys0, id@);
            assert forall|k: Seq<char>| self.buffers.has(k) implies has_session(
                self.sessions@,
                k,
            ) by {
                if k != id@ {
                    assert(self.buffers.spec_get(k) is Some);
                    assert(old(self).buffers.spec_get(k) is Some);
                    assert(old(self).buffers.has(k));
                    assert(has_session(old(self).sessions@, k));
                    if fk >= 0 {
                        lemma_find_key(keys0, k);
                        lemma_find_key(keys0, id@);
                        crate::table::lemma_find_key_remove(keys0, fk, k);
                    }
                } else {
                    assert(!self.buffers.has(k));
                }
            }
        }
    }

    /// Records or clears the last known process id of a session; other
    /// fields and rows are untouched.
    pub fn save_session_pid(&mut self, id: &str, pid: Option<i64>)
        requires
            old(self).wf(),
        ensures
            final(self).wf(),
            final(self).sessions@.len() == old(self).sessions@.len(),
            forall|k: int|
                0 <= k < old(self).sessions@.len() ==> final(self).sessions@[k] == (
                if old(self).sessions@[k].id@ == id@ {
                    SessionRow { running_pid: pid, ..old(self).sessions@[k] }
                } else {
                    old(self).sessions@[k]
                }),
            final(self).folders@ == old(self).folders@,
            final(self).recently_closed@ == old(self).recently_closed@,
            final(self).buffers == old(self).buffers,
    {
        let ghost orig = self.sessions@;
        let n = self.sessions.len();
        let mut j: usize = 0;
        while j < n
            invariant
                n == self.sessions@.len() == orig.len(),
                j <= n,
                forall|k: int|
                    0 <= k < j ==> self.sessions@[k] == (if orig[k].id@ == id@ {
                        SessionRow { running_pid: pid, ..orig[k] }
                    } else {
                        orig[k]
                    }),
                forall|k: int| j <= k < n ==> self.sessions@[k] == orig[k],
                self.folders@ == old(self).folders@,
                self.recently_closed@ == old(self).recently_closed@,
                self.buffers == old(self).buffers,
            decreases n - j,
        {
            if crate::strutil::str_eq(self.sessions[j].id.as_str(), id) {
                let mut row = self.sessions[j].clone();
                row.running_pid = pid;
                self.sessions.set(j, row);
            }
            j = j + 1;
        }
        proof {
            assert(session_ids(self.sessions@) =~= session_ids(orig));
        }
    }

    /// Returns the identifier and recorded process id of every session
    /// that had one, clearing every recorded process id: the startup
    /// recovery step. After it, no session row names a running process.
    pub fn take_orphan_pids(&mut self) -> (r: Vec<(String, i64)>)
        requires
            old(self).wf(),
        ensures
            final(self).wf(),
            final(self).sessions@.len() == old(self).sessions@.len(),
            forall|k: int|
                0 <= k < old(self).sessions@.len() ==> final(self).sessions@[k] == (SessionRow {
                    running_pid: None,
                    ..old(self).sessions@[k]
                }),
            forall|k: int|
                0 <= k < final(self).sessions@.len() ==> (final(self).sessions@[k].running_pid
                    is None),
            r@ == orphans_of(old(self).sessions@),
            final(self).folders@ == old(self).folders@,
            final(self).recently_closed@ == old(self).recently_closed@,
            final(self).buffers == old(self).buffers,
    {
        let ghost orig = self.sessions@;
        let n = self.sessions.len();
        let mut out: Vec<(String, i64)> = Vec::new();
        let mut j: usize = 0;
        proof {
            assert(orig.take(0) =~= Seq::<SessionRow>::empty());
        }
        while j < n
            invariant
                n == self.sessions@.len() == orig.len(),
                j <= n,
                out@ == orphans_of(orig.take(j as int)),
                forall|k: int|
                    0 <= k < j ==> self.sessions@[k] == (SessionRow {
                        running_pid: None,
                        ..orig[k]
                    }),
                forall|k: int| j <= k < n ==> self.sessions@[k] == orig[k],
                self.folders@ == old(self).folders@,
                self.recently_closed@ == old(self).recently_closed@,
                self.buffers == old(self).buffers,
            decreases n - j,
        {
            proof {
                assert(orig.take(j + 1).drop_last() =~= orig.take(j as int));
                assert(orig.take(j + 1).last() == orig[j as int]);
            }
            let has_pid = self.sessions[j].running_pid.is_some();
            if has_pid {
                let row = &self.sessions[j];
                let pid = match row.running_pid {
                    Some(p) => p,
                    None => 0,
                };
                out.push((row.id.clone(), pid));
                let mut updated = self.sessions[j].clone();
                updated.running_pid = None;
                self.sessions.set(j, updated);
            }
            j = j + 1;
        }
        proof {
            assert(orig.take(n as int) =~= orig);
            assert(session_ids(self.sessions@) =~= session_ids(orig));
        }
        out
    }
}

/// `r` with its sort order overridden when an order is given.
pub open spec fn with_order(r: SessionRow, o: Option<i32>) -> SessionRow {
    match o {
        Some(v) => SessionRow { sort_order: v, ..r },
        None => r,
    }
}

/// One `(identifier, order)` assignment applied to every matching row.
pub open spec fn apply_one_order(rows: Seq<SessionRow>, id: Seq<char>, ord: i32) -> Seq<
    SessionRow,
> {
    rows.map_values(
        |r: SessionRow|
            if r.id@ == id {
                SessionRow { sort_order: ord, ..r }
            } else {
                r
            },
    )
}

/// A list of `(identifier, order)` assignments applied in sequence.
pub open spec fn apply_orders(rows: Seq<SessionRow>, orders: Seq<(String, i32)>) -> Seq<
    SessionRow,
>
    decreases orders.len(),
{
    if orders.len() == 0 {
        rows
    } else {
        apply_orders(apply_one_order(rows, orders[0].0@, orders[0].1), orders.drop_first())
    }
}

/// The sort order that the last assignment for `id` in `orders` sets,
/// if any assignment names `id`.
pub open spec fn last_order_for(orders: Seq<(String, i32)>, id: Seq<char>) -> Option<i32>
    decreases orders.len(),
{
    if orders.len() == 0 {
        None
    } else {
        match last_order_for(orders.drop_first(), id) {
            Some(v) => Some(v),
            None => if orders[0].0@ == id {
                Some(orders[0].1)
            } else {
                None
            },
        }
    }
}

/// Applying an order list sets each row's sort order to the last
/// assignment that names it, and changes nothing else.
pub proof fn lemma_apply_orders_pointwise(rows: Seq<SessionRow>, orders: Seq<(String, i32)>)
    ensures
        apply_orders(rows, orders).len() == rows.len(),
        forall|k: int|
            0 <= k < rows.len() ==> apply_orders(rows, orders)[k] == with_order(
                rows[k],
                last_order_for(orders, rows[k].id@),
            ),
    decreases orders.len(),
{
    if orders.len() > 0 {
        let rows1 = apply_one_order(rows, orders[0].0@, orders[0].1);
        lemma_apply_orders_pointwise(rows1, orders.drop_first());
        assert forall|k: int| 0 <= k < rows.len() implies apply_orders(rows, orders)[k]
            == with_order(rows[k], last_order_for(orders, rows[k].id@)) by {
            assert(rows1[k].id@ == rows[k].id@);
            assert(apply_orders(rows, orders)[k] == with_order(
                rows1[k],
                last_order_for(orders.drop_first(), rows1[k].id@),
            ));
        }
    }
}

proof fn lemma_apply_orders_snoc(rows: Seq<SessionRow>, orders: Seq<(String, i32)>, o: (
    String,
    i32,
))
    ensures
        apply_orders(rows, orders.push(o)) == apply_one_order(
            apply_orders(rows, orders),
            o.0@,
            o.1,
        ),
    decreases orders.len(),
{
    if orders.len() == 0 {
        assert(orders.push(o)[0] == o);
        assert(orders.push(o).drop_first() =~= Seq::<(String, i32)>::empty());
        let rows1 = apply_one_order(rows, o.0@, o.1);
        assert(apply_orders(rows, orders.push(o)) == apply_orders(
            rows1,
            orders.push(o).drop_first(),
        ));
        assert(apply_orders(rows1, Seq::<(String, i32)>::empty()) == rows1);
        assert(apply_orders(rows, orders) == rows);
    } else {
        let rows1 = apply_one_order(rows, orders[0].0@, orders[0].1);
        lemma_apply_orders_snoc(rows1, orders.drop_first(), o);
        assert(orders.push(o)[0] == orders[0]);
        assert(orders.push(o).drop_first() =~= orders.drop_first().push(o));
    }
}

/// Applying the same order list twice yields the same rows as applying
/// it once: bulk sort-order updates are idempotent.
pub proof fn lemma_update_orders_idempotent(rows: Seq<SessionRow>, orders: Seq<(String, i32)>)
    ensures
        apply_orders(apply_orders(rows, orders), orders) == apply_orders(rows, orders),
{
    let once = apply_orders(rows, orders);
    lemma_apply_orders_pointwise(rows, orders);
    lemma_apply_orders_pointwise(once, orders);
    assert forall|k: int| 0 <= k < once.len() implies apply_orders(once, orders)[k]
        == once[k] by {
        assert(once[k].id@ == rows[k].id@);
        assert(once[k] == with_order(rows[k], last_order_for(orders, rows[k].id@)));
        assert(apply_orders(once, orders)[k] == with_order(
            once[k],
            last_order_for(orders, rows[k].id@),
        ));
    }
    assert(apply_orders(once, orders) =~= once);
}

impl Store {
    /// Applies a list of `(identifier, sort order)` assignments: each
    /// named session takes the last order assigned to it; sessions not
    /// named keep theirs.
    pub fn update_session_orders(&mut self, orders: &Vec<(String, i32)>)
        requires
            old(self).wf(),
        ensures
            final(self).wf(),
            final(self).sessions@ == apply_orders(old(self).sessions@, orders@),
            final(self).folders@ == old(self).folders@,
            final(self).recently_closed@ == old(self).recently_closed@,
            final(self).buffers == old(self).buffers,
    {
        let ghost orig = self.sessions@;
        let m = orders.len();
        let mut t: usize = 0;
        proof {
            assert(orders@.take(0) =~= Seq::<(String, i32)>::empty());
        }
        while t < m
            invariant
                old(self).wf(),
                m == orders@.len(),
                t <= m,
                orig == old(self).sessions@,
                self.sessions@ == apply_orders(orig, orders@.take(t as int)),
                self.folders@ == old(self).folders@,
                self.recently_closed@ == old(self).recently_closed@,
                self.buffers == old(self).buffers,
            decreases m - t,
        {
            let ghost before = self.sessions@;
            let id: &str = orders[t].0.as_str();
            let ord: i32 = orders[t].1;
            let n = self.sessions.len();
            let mut j: usize = 0;
            while j < n
                invariant
                    n == self.sessions@.len() == before.len(),
                    j <= n,
                    forall|k: int|
                        0 <= k < j ==> self.sessions@[k] == (if before[k].id@ == id@ {
                            SessionRow { sort_order: ord, ..before[k] }
                        } else {
                            before[k]
                        }),
                    forall|k: int| j <= k < n ==> self.sessions@[k] == before[k],
                    self.folders@ == old(self).folders@,
                    self.recently_closed@ == old(self).recently_closed@,
                    self.buffers == old(self).buffers,
                decreases n - j,
            {
                if crate::strutil::str_eq(self.sessions[j].id.as_str(), id) {
                    let mut row = self.sessions[j].clone();
                    row.sort_order = ord;
                    self.sessions.set(j, row);
                }
                j = j + 1;
            }
            proof {
                assert(self.sessions@ =~= apply_one_order(before, id@, ord));
                assert(orders@.take(t + 1).drop_last() =~= orders@.take(t as int));
                lemma_apply_orders_snoc(orig, orders@.take(t as int), orders@[t as int]);
                assert(orders@.take(t as int).push(orders@[t as int]) =~= orders@.take(t + 1));
            }
            t = t + 1;
        }
        proof {
            assert(orders@.take(m as int) =~= orders@);
            lemma_apply_orders_pointwise(orig, orders@);
            assert(session_ids(self.sessions@) =~= session_ids(orig));
        }
    }
}

/// The `(identifier, process id)` pairs of the rows that record a running
/// process, in row order.
pub open spec fn orphans_of(rows: Seq<SessionRow>) -> Seq<(String, i64)>
    decreases rows.len(),
{
    if rows.len() == 0 {
        Seq::empty()
    } else {
        let rest = orphans_of(rows.drop_last());
        match rows.last().running_pid {
            Some(p) => rest.push((rows.last().id, p)),
            None => rest,
        }
    }
}

proof fn lemma_find_key_push_any(keys: Seq<Seq<char>>, x: Seq<char>, k: Seq<char>)
    requires
        find_key(keys, k) >= 0,
    ensures
        find_key(keys.push(x), k) >= 0,
    decreases keys.len(),
{
    if keys.len() > 0 {
        if keys[0] == k {
            assert(keys.push(x)[0] == k);
        } else {
            lemma_find_key_push_any(keys.drop_first(), x, k);
            assert(keys.push(x).drop_first() =~= keys.drop_first().push(x));
            assert(keys.push(x)[0] == keys[0]);
        }
    }
}

/// One `(identifier, order)` assignment applied to every matching folder.
pub open spec fn apply_one_folder_order(rows: Seq<FolderRow>, id: Seq<char>, ord: i32) -> Seq<
    FolderRow,
> {
    rows.map_values(
        |r: FolderRow|
            if r.id@ == id {
                FolderRow { sort_order: ord, ..r }
            } else {
                r
            },
    )
}

/// A list of `(identifier, order)` assignments applied to folders in
/// sequence.
pub open spec fn apply_folder_orders(rows: Seq<FolderRow>, orders: Seq<(String, i32)>) -> Seq<
    FolderRow,
>
    decreases orders.len(),
{
    if orders.len() == 0 {
        rows
    } else {
        apply_folder_orders(
            apply_one_folder_order(rows, orders[0].0@, orders[0].1),
            orders.drop_first(),
        )
    }
}

proof fn lemma_apply_folder_orders_snoc(
    rows: Seq<FolderRow>,
    orders: Seq<(String, i32)>,
    o: (String, i32),
)
    ensures
        apply_folder_orders(rows, orders.push(o)) == apply_one_folder_order(
            apply_folder_orders(rows, orders),
            o.0@,
            o.1,
        ),
    decreases orders.len(),
{
    if orders.len() == 0 {
        assert(orders.push(o)[0] == o);
        assert(orders.push(o).drop_first() =~= Seq::<(String, i32)>::empty());
        let rows1 = apply_one_folder_order(rows, o.0@, o.1);
        assert(apply_folder_orders(rows, orders.push(o)) == apply_folder_orders(
            rows1,
            orders.push(o).drop_first(),
        ));
        assert(apply_folder_orders(rows1, Seq::<(String, i32)>::empty()) == rows1);
        assert(apply_folder_orders(rows, orders) == rows);
    } else {
        let rows1 = apply_one_folder_order(rows, orders[0].0@, orders[0].1);
        lemma_apply_folder_orders_snoc(rows1, orders.drop_first(), o);
        assert(orders.push(o)[0] == orders[0]);
        assert(orders.push(o).drop_first() =~= orders.drop_first().push(o));
    }
}

proof fn lemma_apply_folder_orders_ids(rows: Seq<FolderRow>, orders: Seq<(String, i32)>)
    ensures
        apply_folder_orders(rows, orders).len() == rows.len(),
        forall|k: int|
            0 <= k < rows.len() ==> apply_folder_orders(rows, orders)[k].id@ == rows[k].id@,
    decreases orders.len(),
{
    if orders.len() > 0 {
        let rows1 = apply_one_folder_order(rows, orders[0].0@, orders[0].1);
        lemma_apply_folder_orders_ids(rows1, orders.drop_first());
        assert forall|k: int| 0 <= k < rows.len() implies apply_folder_orders(
            rows,
            orders,
        )[k].id@ == rows[k].id@ by {
            assert(rows1[k].id@ == rows[k].id@);
            assert(apply_folder_orders(rows, orders)[k] == apply_folder_orders(
                rows1,
                orders.drop_first(),
            )[k]);
        }
    }
}

impl Store {
    /// Finds the index of the folder with identifier `id`.
    pub fn find_folder(&self, id: &str) -> (r: Option<usize>)
        ensures
            match r {
                Some(i) => find_key(folder_ids(self.folders@), id@) == i as int,
                None => find_key(folder_ids(self.folders@), id@) == -1,
            },
    {
        let ghost keys = folder_ids(self.folders@);
        proof {
            lemma_find_key(keys, id@);
        }
        let n = self.folders.len();
        let mut i: usize = 0;
        while i < n
            invariant
                n == self.folders@.len(),
                i <= n,
                keys == folder_ids(self.folders@),
                forall|j: int| 0 <= j < i ==> keys[j] != id@,
            decreases n - i,
        {
            if crate::strutil::str_eq(self.folders[i].id.as_str(), id) {
                proof {
                    lemma_find_key(keys, id@);
                    if find_key(keys, id@) != i as int {
                        assert(keys[i as int] == id@);
                    }
                }
                return Some(i);
            }
            i = i + 1;
        }
        proof {
            lemma_find_key(keys, id@);
            if find_key(keys, id@) >= 0 {
                assert(keys[find_key(keys, id@)] == id@);
            }
        }
        None
    }

    /// All folders, ordered by ascending sort order: the same rows, in
    /// listing order.
    pub fn load_folders(&self) -> (r: Vec<FolderRow>)
        ensures
            folders_sorted(r@),
            r@.to_multiset() == self.folders@.to_multiset(),
    {
        broadcast use vstd::seq_lib::group_to_multiset_ensures;

        let n = self.folders.len();
        let mut out: Vec<FolderRow> = Vec::new();
        let mut i: usize = 0;
        proof {
            assert(self.folders@.take(0) =~= Seq::<FolderRow>::empty());
            assert(out@.to_multiset() =~= self.folders@.take(0).to_multiset());
        }
        while i < n
            invariant
                n == self.folders@.len(),
                i <= n,
                folders_sorted(out@),
                out@.to_multiset() == self.folders@.take(i as int).to_multiset(),
            decreases n - i,
        {
            let row = self.folders[i].clone();
            proof {
                assert(self.folders@.take(i + 1) =~= self.folders@.take(i as int).push(
                    self.folders@[i as int],
                ));
            }
            insert_sorted_folder(&mut out, row);
            proof {
                self.folders@.take(i as int).to_multiset_ensures();
                assert(self.folders@.take(i as int).push(self.folders@[i as int]).to_multiset()
                    =~= self.folders@.take(i as int).to_multiset().insert(
                    self.folders@[i as int],
                ));
            }
            i = i + 1;
        }
        proof {
            assert(self.folders@.take(n as int) =~= self.folders@);
        }
        out
    }

    /// Inserts or replaces the folder row with its identifier.
    pub fn save_folder(&mut self, row: FolderRow)
        requires
            old(self).wf(),
        ensures
            final(self).wf(),
            ({
                let i = find_key(folder_ids(old(self).folders@), row.id@);
                if i >= 0 {
                    final(self).folders@ =~= old(self).folders@.update(i, row)
                } else {
                    final(self).folders@ =~= old(self).folders@.push(row)
                }
            }),
            final(self).sessions@ == old(self).sessions@,
            final(self).recently_closed@ == old(self).recently_closed@,
            final(self).buffers == old(self).buffers,
    {
        let ghost keys0 = folder_ids(self.folders@);
        proof {
            lemma_find_key(keys0, row.id@);
        }
        match self.find_folder(row.id.as_str()) {
            Some(i) => {
                let ghost rid = row.id@;
                self.folders.set(i, row);
                proof {
                    assert(folder_ids(self.folders@) =~= keys0);
                }
            },
            None => {
                let ghost rid = row.id@;
                self.folders.push(row);
                proof {
                    assert(folder_ids(self.folders@) =~= keys0.push(rid));
                    assert forall|i: int, j: int|
                        0 <= i < j < self.folders@.len() implies folder_ids(self.folders@)[i]
                        != folder_ids(self.folders@)[j] by {
                        if j == self.folders@.len() - 1 {
                            lemma_find_key(keys0, rid);
                        }
                    }
                }
            },
        }
    }

    /// Deletes a folder: its sessions become unfiled, and the folder row
    /// is removed.
    pub fn delete_folder(&mut self, id: &str)
        requires
            old(self).wf(),
        ensures
            final(self).wf(),
            final(self).sessions@.len() == old(self).sessions@.len(),
            forall|k: int|
                0 <= k < old(self).sessions@.len() ==> final(self).sessions@[k] == (
                if old(self).sessions@[k].folder_id matches Some(f) && f@ == id@ {
                    SessionRow { folder_id: None, ..old(self).sessions@[k] }
                } else {
                    old(self).sessions@[k]
                }),
            ({
                let i = find_key(folder_ids(old(self).folders@), id@);
                if i >= 0 {
                    final(self).folders@ =~= old(self).folders@.remove(i)
                } else {
                    final(self).folders@ =~= old(self).folders@
                }
            }),
            final(self).recently_closed@ == old(self).recently_closed@,
            final(self).buffers == old(self).buffers,
    {
        let ghost orig = self.sessions@;
        let n = self.sessions.len();
        let mut j: usize = 0;
        while j < n
            invariant
                n == self.sessions@.len() == orig.len(),
                j <= n,
                forall|k: int|
                    0 <= k < j ==> self.sessions@[k] == (if orig[k].folder_id matches Some(
                        f,
                    ) && f@ == id@ {
                        SessionRow { folder_id: None, ..orig[k] }
                    } else {
                        orig[k]
                    }),
                forall|k: int| j <= k < n ==> self.sessions@[k] == orig[k],
                self.folders@ == old(self).folders@,
                self.recently_closed@ == old(self).recently_closed@,
                self.buffers == old(self).buffers,
            decreases n - j,
        {
            let matches_folder = match &self.sessions[j].folder_id {
                Some(f) => crate::strutil::str_eq(f.as_str(), id),
                None => false,
            };
            if matches_folder {
                let mut row = self.sessions[j].clone();
                row.folder_id = None;
                self.sessions.set(j, row);
            }
            j = j + 1;
        }
        proof {
            assert(session_ids(self.sessions@) =~= session_ids(orig));
        }
        let ghost keys0 = folder_ids(self.folders@);
        proof {
            lemma_find_key(keys0, id@);
        }
        match self.find_folder(id) {
            Some(i) => {
                self.folders.remove(i);
                proof {
                    let ghost fk = find_key(keys0, id@);
                    assert(folder_ids(self.folders@) =~= keys0.remove(fk));
                }
            },
            None => {},
        }
    }

    /// Applies a list of `(identifier, sort order)` assignments to
    /// folders, last assignment winning.
    pub fn update_folder_orders(&mut self, orders: &Vec<(String, i32)>)
        requires
            old(self).wf(),
        ensures
            final(self).wf(),
            final(self).folders@ == apply_folder_orders(old(self).folders@, orders@),
            final(self).sessions@ == old(self).sessions@,
            final(self).recently_closed@ == old(self).recently_closed@,
            final(self).buffers == old(self).buffers,
    {
        let ghost orig = self.folders@;
        let m = orders.len();
        let mut t: usize = 0;
        proof {
            assert(orders@.take(0) =~= Seq::<(String, i32)>::empty());
        }
        while t < m
            invariant
                m == orders@.len(),
                t <= m,
                orig == old(self).folders@,
                self.folders@ == apply_folder_orders(orig, orders@.take(t as int)),
                self.sessions@ == old(self).sessions@,
                self.recently_closed@ == old(self).recently_closed@,
                self.buffers == old(self).buffers,
            decreases m - t,
        {
            let ghost before = self.folders@;
            let id: &str = orders[t].0.as_str();
            let ord: i32 = orders[t].1;
            let n = self.folders.len();
            let mut j: usize = 0;
            while j < n
                invariant
                    n == self.folders@.len() == before.len(),
                    j <= n,
                    forall|k: int|
                        0 <= k < j ==> self.folders@[k] == (if before[k].id@ == id@ {
                            FolderRow { sort_order: ord, ..before[k] }
                        } else {
                            before[k]
                        }),
                    forall|k: int| j <= k < n ==> self.folders@[k] == before[k],
                    self.sessions@ == old(self).sessions@,
                    self.recently_closed@ == old(self).recently_closed@,
                    self.buffers == old(self).buffers,
                decreases n - j,
            {
                if crate::strutil::str_eq(self.folders[j].id.as_str(), id) {
                    let mut row = self.folders[j].clone();
                    row.sort_order = ord;
                    self.folders.set(j, row);
                }
                j = j + 1;
            }
            proof {
                assert(self.folders@ =~= apply_one_folder_order(before, id@, ord));
                lemma_apply_folder_orders_snoc(orig, orders@.take(t as int), orders@[t as int]);
                assert(orders@.take(t as int).push(orders@[t as int]) =~= orders@.take(t + 1));
            }
            t = t + 1;
        }
        proof {
            assert(orders@.take(m as int) =~= orders@);
            lemma_apply_folder_orders_ids(orig, orders@);
            assert(folder_ids(self.folders@) =~= folder_ids(orig));
        }
    }

    /// Moves a session into a folder, or to unfiled.
    pub fn update_session_folder(&mut self, session_id: &str, folder_id: Option<String>)
        requires
            old(self).wf(),
        ensures
            final(self).wf(),
            final(self).sessions@.len() == old(self).sessions@.len(),
            forall|k: int|
                0 <= k < old(self).sessions@.len() ==> final(self).sessions@[k] == (
                if old(self).sessions@[k].id@ == session_id@ {
                    SessionRow { folder_id: folder_id, ..old(self).sessions@[k] }
                } else {
                    old(self).sessions@[k]
                }),
            final(self).folders@ == old(self).folders@,
            final(self).recently_closed@ == old(self).recently_closed@,
            final(self).buffers == old(self).buffers,
    {
        let ghost orig = self.sessions@;
        let n = self.sessions.len();
        let mut j: usize = 0;
        while j < n
            invariant
                n == self.sessions@.len() == orig.len(),
                j <= n,
                forall|k: int|
                    0 <= k < j ==> self.sessions@[k] == (if orig[k].id@ == session_id@ {
                        SessionRow { folder_id: folder_id, ..orig[k] }
                    } else {
                        orig[k]
                    }),
                forall|k: int| j <= k < n ==> self.sessions@[k] == orig[k],
                self.folders@ == old(self).folders@,
                self.recently_closed@ == old(self).recently_closed@,
                self.buffers == old(self).buffers,
            decreases n - j,
        {
            if crate::strutil::str_eq(self.sessions[j].id.as_str(), session_id) {
                let mut row = self.sessions[j].clone();
                row.folder_id = match &folder_id {
                    Some(f) => Some(f.clone()),
                    None => None,
                };
                self.sessions.set(j, row);
            }
            j = j + 1;
        }
        proof {
            assert(session_ids(self.sessions@) =~= session_ids(orig));
        }
    }

    /// Records the foreign agent identifier captured for a session.
    pub fn update_session_foreign_id(&mut self, session_id: &str, foreign_session_id: String)
        requires
            old(self).wf(),
        ensures
            final(self).wf(),
            final(self).sessions@.len() == old(self).sessions@.len(),
            forall|k: int|
                0 <= k < old(self).sessions@.len() ==> final(self).sessions@[k] == (
                if old(self).sessions@[k].id@ == session_id@ {
                    SessionRow {
                        foreign_session_id: Some(foreign_session_id),
                        ..old(self).sessions@[k]
                    }
                } else {
                    old(self).sessions@[k]
                }),
            final(self).folders@ == old(self).folders@,
            final(self).recently_closed@ == old(self).recently_closed@,
            final(self).buffers == old(self).buffers,
    {
        let ghost orig = self.sessions@;
        let n = self.sessions.len();
        let mut j: usize = 0;
        while j < n
            invariant
                n == self.sessions@.len() == orig.len(),
                j <= n,
                forall|k: int|
                    0 <= k < j ==> self.sessions@[k] == (if orig[k].id@ == session_id@ {
                        SessionRow { foreign_session_id: Some(foreign_session_id), ..orig[k] }
                    } else {
                        orig[k]
                    }),
                forall|k: int| j <= k < n ==> self.sessions@[k] == orig[k],
                self.folders@ == old(self).folders@,
                self.recently_closed@ == old(self).recently_closed@,
                self.buffers == old(self).buffers,
            decreases n - j,
        {
            if crate::strutil::str_eq(self.sessions[j].id.as_str(), session_id) {
                let mut row = self.sessions[j].clone();
                row.foreign_session_id = Some(foreign_session_id.clone());
                self.sessions.set(j, row);
            }
            j = j + 1;
        }
        proof {
            assert(session_ids(self.sessions@) =~= session_ids(orig));
        }
    }

    /// Sets a folder's collapsed flag.
    pub fn toggle_folder_collapsed(&mut self, folder_id: &str, collapsed: bool)
        requires
            old(self).wf(),
        ensures
            final(self).wf(),
            final(self).folders@.len() == old(self).folders@.len(),
            forall|k: int|
                0 <= k < old(self).folders@.len() ==> final(self).folders@[k] == (
                if old(self).folders@[k].id@ == folder_id@ {
                    FolderRow { collapsed: collapsed, ..old(self).folders@[k] }
                } else {
                    old(self).folders@[k]
                }),
            final(self).sessions@ == old(self).sessions@,
            final(self).recently_closed@ == old(self).recently_closed@,
            final(self).buffers == old(self).buffers,
    {
        let ghost orig = self.folders@;
        let n = self.folders.len();
        let mut j: usize = 0;
        while j < n
            invariant
                n == self.folders@.len() == orig.len(),
                j <= n,
                forall|k: int|
                    0 <= k < j ==> self.folders@[k] == (if orig[k].id@ == folder_id@ {
                        FolderRow { collapsed: collapsed, ..orig[k] }
                    } else {
                        orig[k]
                    }),
                forall|k: int| j <= k < n ==> self.folders@[k] == orig[k],
                self.sessions@ == old(self).sessions@,
                self.recently_closed@ == old(self).recently_closed@,
                self.buffers == old(self).buffers,
            decreases n - j,
        {
            if crate::strutil::str_eq(self.folders[j].id.as_str(), folder_id) {
                let mut row = self.folders[j].clone();
                row.collapsed = collapsed;
                self.folders.set(j, row);
            }
            j = j + 1;
        }
        proof {
            assert(folder_ids(self.folders@) =~= folder_ids(orig));
        }
    }
}

/// The position at which an entry closed at `t` belongs in a sequence
/// ordered most recent first: before the first entry closed at or before
/// `t`.
pub open spec fn rc_insert_pos(rows: Seq<RecentlyClosedRow>, t: Seq<char>) -> int
    decreases rows.len(),
{
    if rows.len() == 0 {
        0
    } else if lex_le(rows[0].closed_at@, t) {
        0
    } else {
        1 + rc_insert_pos(rows.drop_first(), t)
    }
}

proof fn lemma_remove_index<A>(s: Seq<A>, i: int, k: int)
    requires
        0 <= i < s.len(),
        0 <= k < s.len() - 1,
    ensures
        s.remove(i)[k] == (if k < i {
            s[k]
        } else {
            s[k + 1]
        }),
{
    assert(s.remove(i) =~= s.subrange(0, i) + s.subrange(i + 1, s.len() as int));
    if k < i {
        assert(s.remove(i)[k] == s.subrange(0, i)[k]);
    } else {
        assert(s.remove(i)[k] == s.subrange(i + 1, s.len() as int)[k - i]);
    }
}

proof fn lemma_rc_pos_skip(rows: Seq<RecentlyClosedRow>, t: Seq<char>, i: int)
    requires
        0 <= i <= rows.len(),
        forall|j: int| 0 <= j < i ==> !lex_le(rows[j].closed_at@, t),
    ensures
        rc_insert_pos(rows, t) == i + rc_insert_pos(rows.skip(i), t),
    decreases i,
{
    if i > 0 {
        lemma_rc_pos_skip(rows.drop_first(), t, i - 1);
        assert(rows.drop_first().skip(i - 1) =~= rows.skip(i));
    } else {
        assert(rows.skip(0) =~= rows);
    }
}

proof fn lemma_rc_remove(orig: Seq<RecentlyClosedRow>, fk: int)
    requires
        0 <= fk < orig.len(),
        recently_sorted(orig),
        forall|i: int, j: int|
            0 <= i < j < orig.len() ==> recently_ids(orig)[i] != recently_ids(orig)[j],
    ensures
        recently_sorted(orig.remove(fk)),
        forall|i: int, j: int|
            0 <= i < j < orig.remove(fk).len() ==> recently_ids(orig.remove(fk))[i]
                != recently_ids(orig.remove(fk))[j],
        forall|k: int|
            0 <= k < orig.remove(fk).len() ==> recently_ids(orig.remove(fk))[k] != recently_ids(
                orig,
            )[fk],
{
    let rem = orig.remove(fk);
    assert forall|i: int, j: int|
        0 <= i < j < rem.len() implies lex_le(rem[j].closed_at@, rem[i].closed_at@) by {
        lemma_remove_index(orig, fk, i);
        lemma_remove_index(orig, fk, j);
    }
    assert forall|i: int, j: int|
        0 <= i < j < rem.len() implies recently_ids(rem)[i] != recently_ids(rem)[j] by {
        lemma_remove_index(orig, fk, i);
        lemma_remove_index(orig, fk, j);
        let i0 = if i < fk { i } else { i + 1 };
        let j0 = if j < fk { j } else { j + 1 };
        assert(recently_ids(rem)[i] == rem[i].id@);
        assert(recently_ids(rem)[j] == rem[j].id@);
        assert(recently_ids(orig)[i0] == orig[i0].id@);
        assert(recently_ids(orig)[j0] == orig[j0].id@);
        assert(recently_ids(orig)[i0] != recently_ids(orig)[j0]);
    }
    assert forall|k: int| 0 <= k < rem.len() implies recently_ids(rem)[k] != recently_ids(
        orig,
    )[fk] by {
        lemma_remove_index(orig, fk, k);
        let k0 = if k < fk { k } else { k + 1 };
        assert(recently_ids(rem)[k] == rem[k].id@);
        assert(recently_ids(orig)[k0] == orig[k0].id@);
        if k0 < fk {
            assert(recently_ids(orig)[k0] != recently_ids(orig)[fk]);
        } else {
            assert(recently_ids(orig)[fk] != recently_ids(orig)[k0]);
        }
    }
}

proof fn lemma_rc_insert(pruned: Seq<RecentlyClosedRow>, p: int, row: RecentlyClosedRow)
    requires
        0 <= p <= pruned.len(),
        recently_sorted(pruned),
        forall|i: int, j: int|
            0 <= i < j < pruned.len() ==> recently_ids(pruned)[i] != recently_ids(pruned)[j],
        forall|k: int| 0 <= k < pruned.len() ==> recently_ids(pruned)[k] != row.id@,
        forall|j: int| 0 <= j < p ==> !lex_le(pruned[j].closed_at@, row.closed_at@),
        p < pruned.len() ==> lex_le(pruned[p].closed_at@, row.closed_at@),
    ensures
        recently_sorted(pruned.insert(p, row)),
        forall|i: int, j: int|
            0 <= i < j < pruned.insert(p, row).len() ==> recently_ids(pruned.insert(p, row))[i]
                != recently_ids(pruned.insert(p, row))[j],
{
    let ins = pruned.insert(p, row);
    assert forall|k: int| 0 <= k < p implies ins[k] == pruned[k] by {}
    assert(ins[p] == row);
    assert forall|k: int| p < k < ins.len() implies ins[k] == pruned[k - 1] by {}
    assert forall|a: int, b: int|
        0 <= a < b < ins.len() implies lex_le(ins[b].closed_at@, ins[a].closed_at@) by {
        if a < p && b == p {
            lemma_lex_le_total(pruned[a].closed_at@, row.closed_at@);
        } else if a == p && b > p {
            if b - 1 > p {
                lemma_lex_le_trans(
                    pruned[b - 1].closed_at@,
                    pruned[p].closed_at@,
                    row.closed_at@,
                );
            }
        }
    }
    assert forall|a: int, b: int|
        0 <= a < b < ins.len() implies recently_ids(ins)[a] != recently_ids(ins)[b] by {
        assert(recently_ids(ins)[a] == ins[a].id@);
        assert(recently_ids(ins)[b] == ins[b].id@);
        if a < p && b == p {
            lemma_lex_le_total(pruned[a].closed_at@, row.closed_at@);
            assert(recently_ids(pruned)[a] == pruned[a].id@);
            assert(recently_ids(pruned)[a] != row.id@);
        } else if a == p && b > p {
            if b - 1 > p {
                lemma_lex_le_trans(
                    pruned[b - 1].closed_at@,
                    pruned[p].closed_at@,
                    row.closed_at@,
                );
            }
            assert(recently_ids(pruned)[b - 1] == pruned[b - 1].id@);
            assert(recently_ids(pruned)[b - 1] != row.id@);
        } else if a < p && b > p {
            assert(recently_ids(pruned)[a] == pruned[a].id@);
            assert(recently_ids(pruned)[b - 1] == pruned[b - 1].id@);
            assert(recently_ids(pruned)[a] != recently_ids(pruned)[b - 1]);
        } else if b < p {
            assert(recently_ids(pruned)[a] == pruned[a].id@);
            assert(recently_ids(pruned)[b] == pruned[b].id@);
            assert(recently_ids(pruned)[a] != recently_ids(pruned)[b]);
        } else {
            assert(recently_ids(pruned)[a - 1] == pruned[a - 1].id@);
            assert(recently_ids(pruned)[b - 1] == pruned[b - 1].id@);
            assert(recently_ids(pruned)[a - 1] != recently_ids(pruned)[b - 1]);
        }
    }
}

impl Store {
    /// Appends a closed session to the recently-closed table, keeping it
    /// ordered most recent first and pruning it to the ten most recent
    /// entries in the same step.
    pub fn save_recently_closed(&mut self, row: RecentlyClosedRow)
        requires
            old(self).wf(),
        ensures
            final(self).wf(),
            final(self).recently_closed@.len() <= 10,
            ({
                let j = find_key(recently_ids(old(self).recently_closed@), row.id@);
                let pruned = if j >= 0 {
                    old(self).recently_closed@.remove(j)
                } else {
                    old(self).recently_closed@
                };
                let p = rc_insert_pos(pruned, row.closed_at@);
                let inserted = pruned.insert(p, row);
                final(self).recently_closed@ == (if inserted.len() <= 10 {
                    inserted
                } else {
                    inserted.take(10)
                })
            }),
            final(self).sessions@ == old(self).sessions@,
            final(self).folders@ == old(self).folders@,
            final(self).buffers == old(self).buffers,
    {
        let ghost orig = self.recently_closed@;
        let ghost keys0 = recently_ids(orig);
        proof {
            lemma_find_key(keys0, row.id@);
        }
        // Drop any previous entry for the same session.
        let n0 = self.recently_closed.len();
        let mut f: usize = 0;
        let mut found: Option<usize> = None;
        while f < n0
            invariant
                n0 == self.recently_closed@.len(),
                f <= n0,
                self.recently_closed@ == orig,
                keys0 == recently_ids(orig),
                match found {
                    Some(i) => find_key(keys0, row.id@) == i as int,
                    None => forall|j: int| 0 <= j < f ==> keys0[j] != row.id@,
                },
            decreases n0 - f,
        {
            if found.is_none() {
                if crate::strutil::str_eq(self.recently_closed[f].id.as_str(), row.id.as_str()) {
                    proof {
                        lemma_find_key(keys0, row.id@);
                        if find_key(keys0, row.id@) != f as int {
                            assert(keys0[f as int] == row.id@);
                        }
                    }
                    found = Some(f);
                }
            }
            f = f + 1;
        }
        proof {
            if found is None {
                lemma_find_key(keys0, row.id@);
                if find_key(keys0, row.id@) >= 0 {
                    assert(keys0[find_key(keys0, row.id@)] == row.id@);
                }
            }
        }
        match found {
            Some(i) => {
                self.recently_closed.remove(i);
            },
            None => {},
        }
        let ghost pruned = self.recently_closed@;
        let ghost fk = find_key(keys0, row.id@);
    proof {
            if fk >= 0 {
                assert(pruned == orig.remove(fk));
                lemma_find_key(keys0, row.id@);
                lemma_rc_remove(orig, fk);
                assert forall|k: int| 0 <= k < pruned.len() implies recently_ids(pruned)[k]
                    != row.id@ by {
                    assert(recently_ids(pruned)[k] != recently_ids(orig)[fk]);
                }
            } else {
                assert(pruned == orig);
                lemma_find_key(keys0, row.id@);
                assert forall|k: int| 0 <= k < pruned.len() implies recently_ids(pruned)[k]
                    != row.id@ by {}
            }
        }
        // Find the insertion point that keeps the table ordered.
        let n = self.recently_closed.len();
        let mut i: usize = 0;
        loop
            invariant
                n == self.recently_closed@.len(),
                self.recently_closed@ == pruned,
                i <= n,
                forall|j: int| 0 <= j < i ==> !lex_le(pruned[j].closed_at@, row.closed_at@),
            ensures
                i <= n,
                self.recently_closed@ == pruned,
                n == pruned.len(),
                rc_insert_pos(pruned, row.closed_at@) == i as int,
                forall|j: int| 0 <= j < i ==> !lex_le(pruned[j].closed_at@, row.closed_at@),
                i < n ==> lex_le(pruned[i as int].closed_at@, row.closed_at@),
            decreases n - i,
        {
            proof {
                lemma_rc_pos_skip(pruned, row.closed_at@, i as int);
            }
            if i == n {
                proof {
                    assert(pruned.skip(i as int).len() == 0);
                }
                break;
            }
            if str_le(self.recently_closed[i].closed_at.as_str(), row.closed_at.as_str()) {
                proof {
                    assert(pruned.skip(i as int)[0] == pruned[i as int]);
                }
                break;
            }
            i = i + 1;
        }
        let ghost grow = row;
        self.recently_closed.insert(i, row);
        let ghost inserted = self.recently_closed@;
        proof {
            let p = i as int;
            assert(inserted == pruned.insert(p, grow));
            lemma_rc_insert(pruned, p, grow);
        }
        if self.recently_closed.len() > 10 {
            self.recently_closed.truncate(10);
            proof {
                assert(self.recently_closed@ =~= inserted.take(10));
                assert forall|a: int, b: int|
                    0 <= a < b < self.recently_closed@.len() implies recently_ids(
                    self.recently_closed@,
                )[a] != recently_ids(self.recently_closed@)[b] by {
                    assert(recently_ids(self.recently_closed@)[a]
                        == self.recently_closed@[a].id@);
                    assert(recently_ids(self.recently_closed@)[b]
                        == self.recently_closed@[b].id@);
                    assert(self.recently_closed@[a] == inserted[a]);
                    assert(self.recently_closed@[b] == inserted[b]);
                    assert(recently_ids(inserted)[a] == inserted[a].id@);
                    assert(recently_ids(inserted)[b] == inserted[b].id@);
                    assert(recently_ids(inserted)[a] != recently_ids(inserted)[b]);
                }
            }
        }
    }

    /// The recently-closed entries, most recent first.
    pub fn get_recently_closed(&self) -> (r: Vec<RecentlyClosedRow>)
        ensures
            r@ == self.recently_closed@,
    {
        let n = self.recently_closed.len();
        let mut out: Vec<RecentlyClosedRow> = Vec::new();
        let mut i: usize = 0;
        while i < n
            invariant
                n == self.recently_closed@.len(),
                i <= n,
                out@ == self.recently_closed@.take(i as int),
            decreases n - i,
        {
            out.push(self.recently_closed[i].clone());
            proof {
                assert(self.recently_closed@.take(i + 1) =~= self.recently_closed@.take(
                    i as int,
                ).push(self.recently_closed@[i as int]));
            }
            i = i + 1;
        }
        proof {
            assert(self.recently_closed@.take(n as int) =~= self.recently_closed@);
        }
        out
    }

    /// Removes one recently-closed entry.
    pub fn delete_recently_closed(&mut self, id: &str)
        requires
            old(self).wf(),
        ensures
            final(self).wf(),
            ({
                let i = find_key(recently_ids(old(self).recently_closed@), id@);
                if i >= 0 {
                    final(self).recently_closed@ =~= old(self).recently_closed@.remove(i)
                } else {
                    final(self).recently_closed@ =~= old(self).recently_closed@
                }
            }),
            final(self).sessions@ == old(self).sessions@,
            final(self).folders@ == old(self).folders@,
            final(self).buffers == old(self).buffers,
    {
        let ghost orig = self.recently_closed@;
        let ghost keys0 = recently_ids(orig);
        proof {
            lemma_find_key(keys0, id@);
        }
        let n = self.recently_closed.len();
        let mut i: usize = 0;
        while i < n
            invariant
                n == self.recently_closed@.len(),
                i <= n,
                old(self).wf(),
                orig == old(self).recently_closed@,
                self.recently_closed@ == orig,
                keys0 == recently_ids(orig),
                forall|j: int| 0 <= j < i ==> keys0[j] != id@,
                self.sessions@ == old(self).sessions@,
                self.folders@ == old(self).folders@,
                self.buffers == old(self).buffers,
            decreases n - i,
        {
            if crate::strutil::str_eq(self.recently_closed[i].id.as_str(), id) {
                proof {
                    lemma_find_key(keys0, id@);
                    if find_key(keys0, id@) != i as int {
                        assert(keys0[i as int] == id@);
                    }
                }
                self.recently_closed.remove(i);
                proof {
                    let fk = i as int;
                    assert(self.recently_closed@ == orig.remove(fk));
                    assert(orig == old(self).recently_closed@);
                    assert forall|a: int, b: int|
                        0 <= a < b < orig.len() implies recently_ids(orig)[a] != recently_ids(
                        orig,
                    )[b] by {
                        assert(recently_ids(old(self).recently_closed@)[a] != recently_ids(
                            old(self).recently_closed@,
                        )[b]);
                    }
                    lemma_rc_remove(orig, fk);
                }
                return ;
            }
            i = i + 1;
        }
        proof {
            lemma_find_key(keys0, id@);
            if find_key(keys0, id@) >= 0 {
                assert(keys0[find_key(keys0, id@)] == id@);
            }
        }
    }
}

/// What loading the scrollback snapshot of `id` yields: no snapshot, the
/// decoded content, or a decoding error.
pub open spec fn spec_load_buffer(s: Store, id: Seq<char>) -> Result<
    Option<Seq<char>>,
    StoreError,
> {
    match s.buffers.spec_get(id) {
        None => Ok(None),
        Some(e) => match spec_decode_scrollback(e.data@) {
            Some(c) => Ok(Some(c)),
            None => Err(StoreError::Codec),
        },
    }
}

impl Store {
    /// Compresses and stores scrollback content for a session. Succeeds
    /// exactly when the session exists — compression into memory cannot
    /// fail — and then the stored text is the canonical encoding of the
    /// content and decodes back to it exactly.
    pub fn save_terminal_buffer(&mut self, session_id: &str, content: &str, now: String) -> (r:
        Result<(), StoreError>)
        requires
            old(self).wf(),
        ensures
            final(self).wf(),
            r is Ok <==> has_session(old(self).sessions@, session_id@),
            r matches Err(e) ==> *old(self) == *final(self) && e == StoreError::NotFound,
            r matches Ok(u) ==> {
                &&& (final(self).buffers.spec_get(session_id@) matches Some(e)
                    && e.data@ == spec_encode_scrollback(content@) && e.updated_at == now)
                &&& spec_decode_scrollback(spec_encode_scrollback(content@)) == Some(content@)
                &&& forall|k: Seq<char>|
                    k != session_id@ ==> final(self).buffers.spec_get(k) == old(
                        self,
                    ).buffers.spec_get(k)
                &&& final(self).sessions@ == old(self).sessions@
                &&& final(self).folders@ == old(self).folders@
                &&& final(self).recently_closed@ == old(self).recently_closed@
            },
    {
        let present = match self.find_session(session_id) {
            Some(_) => true,
            None => {
                proof {
                    lemma_find_key(session_ids(self.sessions@), session_id@);
                }
                false
            },
        };
        if !present {
            return Err(StoreError::NotFound);
        }
        let encoded = encode_scrollback(content);
        let entry = BufferEntry { data: encoded, updated_at: now };
        self.buffers.upsert(session_id.to_owned(), entry);
        proof {
            assert forall|k: Seq<char>| self.buffers.has(k) implies has_session(
                self.sessions@,
                k,
            ) by {
                if k != session_id@ {
                    assert(self.buffers.spec_get(k) is Some);
                    assert(old(self).buffers.spec_get(k) is Some);
                    assert(old(self).buffers.has(k));
                }
            }
        }
        Ok(())
    }

    /// Loads and decodes the scrollback snapshot of a session: no
    /// snapshot yields nothing, a stored snapshot yields its decoded
    /// content, and an undecodable snapshot is an error.
    pub fn load_terminal_buffer(&self, session_id: &str) -> (r: Result<
        Option<String>,
        StoreError,
    >)
        ensures
            ({
                let s = spec_load_buffer(*self, session_id@);
                match r {
                    Ok(Some(c)) => s == Ok::<Option<Seq<char>>, StoreError>(Some(c@)),
                    Ok(None) => s == Ok::<Option<Seq<char>>, StoreError>(None),
                    Err(e) => s == Err::<Option<Seq<char>>, StoreError>(e),
                }
            }),
    {
        match self.buffers.get(session_id) {
            None => Ok(None),
            Some(entry) => match decode_scrollback(entry.data.as_str()) {
                Some(content) => Ok(Some(content)),
                None => Err(StoreError::Codec),
            },
        }
    }

    /// Removes a session's scrollback snapshot.
    pub fn delete_terminal_buffer(&mut self, session_id: &str)
        requires
            old(self).wf(),
        ensures
            final(self).wf(),
            !final(self).buffers.has(session_id@),
            forall|k: Seq<char>|
                k != session_id@ ==> final(self).buffers.spec_get(k) == old(
                    self,
                ).buffers.spec_get(k),
            final(self).sessions@ == old(self).sessions@,
            final(self).folders@ == old(self).folders@,
            final(self).recently_closed@ == old(self).recently_closed@,
    {
        self.buffers.remove(session_id);
        proof {
            assert forall|k: Seq<char>| self.buffers.has(k) implies has_session(
                self.sessions@,
                k,
            ) by {
                if k != session_id@ {
                    assert(self.buffers.spec_get(k) is Some);
                    assert(old(self).buffers.spec_get(k) is Some);
                    assert(old(self).buffers.has(k));
                }
            }
        }
    }
}

/// Saving a scrollback snapshot and then loading it yields exactly the
/// saved content: what `save_terminal_buffer` guarantees of the stored
/// entry determines `load_terminal_buffer`'s answer.
pub proof fn lemma_buffer_round_trip(s: Store, id: Seq<char>, content: Seq<char>)
    requires
        s.buffers.spec_get(id) matches Some(e) && e.data@ == spec_encode_scrollback(content),
        spec_decode_scrollback(spec_encode_scrollback(content)) == Some(content),
    ensures
        spec_load_buffer(s, id) == Ok::<Option<Seq<char>>, StoreError>(Some(content)),
{
}

/// Saving the same content twice stores byte-identical text: the stored
/// encoding is a function of the content alone.
pub proof fn lemma_saved_bytes_deterministic(e1: BufferEntry, e2: BufferEntry, content: Seq<char>)
    requires
        e1.data@ == spec_encode_scrollback(content),
        e2.data@ == spec_encode_scrollback(content),
    ensures
        e1.data@ == e2.data@,
{
}

/// The recently-closed table never holds more than ten rows: the cap is
/// part of the store's invariant, which every operation preserves.
pub proof fn lemma_recently_closed_cap(s: Store)
    requires
        s.wf(),
    ensures
        s.recently_closed@.len() <= 10,
{
}

/// Inserts `x` into a folder sequence kept in ascending sort order.
fn insert_sorted_folder(out: &mut Vec<FolderRow>, x: FolderRow)
    requires
        folders_sorted(old(out)@),
    ensures
        folders_sorted(final(out)@),
        final(out)@.to_multiset() == old(out)@.to_multiset().insert(x),
{
    let n = out.len();
    let mut i: usize = 0;
    loop
        invariant
            n == out@.len(),
            i <= n,
            folders_sorted(out@),
            forall|j: int| 0 <= j < i ==> out@[j].sort_order <= x.sort_order,
        ensures
            i <= n,
            n == out@.len(),
            folders_sorted(out@),
            forall|j: int| 0 <= j < i ==> out@[j].sort_order <= x.sort_order,
            i < n ==> x.sort_order <= out@[i as int].sort_order,
        decreases n - i,
    {
        if i == n {
            break;
        }
        if out[i].sort_order > x.sort_order {
            break;
        }
        i = i + 1;
    }
    proof {
        lemma_insert_to_multiset(out@, i as int, x);
    }
    let ghost pre = out@;
    out.insert(i, x);
    proof {
        let iv = i as int;
        assert(out@ == pre.insert(iv, x));
        assert forall|k: int| 0 <= k < iv implies out@[k] == pre[k] by {}
        assert(out@[iv] == x);
        assert forall|k: int| iv < k < out@.len() implies out@[k] == pre[k - 1] by {}
    }
}

/// Inserts `x` into a session sequence kept in listing order.
fn insert_sorted(out: &mut Vec<SessionRow>, x: SessionRow)
    requires
        sorted_rows(old(out)@),
    ensures
        sorted_rows(final(out)@),
        final(out)@.to_multiset() == old(out)@.to_multiset().insert(x),
{
    let n = out.len();
    let mut i: usize = 0;
    loop
        invariant
            n == out@.len(),
            i <= n,
            sorted_rows(out@),
            forall|j: int| 0 <= j < i ==> row_le(out@[j], x),
        ensures
            i <= n,
            n == out@.len(),
            sorted_rows(out@),
            forall|j: int| 0 <= j < i ==> row_le(out@[j], x),
            i < n ==> row_le(x, out@[i as int]),
        decreases n - i,
    {
        if i == n {
            break;
        }
        let cand = &out[i];
        let le = if cand.sort_order < x.sort_order {
            true
        } else if cand.sort_order == x.sort_order {
            str_le(x.created_at.as_str(), cand.created_at.as_str())
        } else {
            false
        };
        if !le {
            proof {
                lemma_row_le_total(out@[i as int], x);
            }
            break;
        }
        i = i + 1;
    }
    proof {
        lemma_insert_to_multiset(out@, i as int, x);
    }
    let ghost pre = out@;
    out.insert(i, x);
    proof {
        let iv = i as int;
        assert(out@ == pre.insert(iv, x));
        assert forall|k: int| 0 <= k < iv implies out@[k] == pre[k] by {}
        assert(out@[iv] == x);
        assert forall|k: int| iv < k < out@.len() implies out@[k] == pre[k - 1] by {}
        assert forall|a: int, b: int| 0 <= a < b < out@.len() implies row_le(
            out@[a],
            out@[b],
        ) by {
            if a < iv && b == iv {
                assert(row_le(pre[a], x));
            } else if a == iv && b > iv {
                assert(row_le(x, pre[iv]));
                if b - 1 > iv {
                    lemma_row_le_trans(x, pre[iv], pre[b - 1]);
                }
            } else if a < iv && b > iv {
                assert(row_le(pre[a], pre[b - 1]));
            }
        }
    }
}

} // verus!
