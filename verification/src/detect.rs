//! The foreign-session detector's rules: how a working directory maps
//! to the agent's on-disk project folder, which file names look like
//! session records, and which record of a directory listing wins. The
//! host reads the directory; every decision about the listing is made
//! and proved here.

use vstd::prelude::*;
use crate::strutil::{replace_all, str_replace, count_char, count_char_exec};

verus! {

/// `s` with every leading dash removed.
pub open spec fn drop_leading_dashes(s: Seq<char>) -> Seq<char>
    decreases s.len(),
{
    if s.len() > 0 && s[0] == '-' {
        drop_leading_dashes(s.drop_first())
    } else {
        s
    }
}

proof fn lemma_drop_dashes_skip(s: Seq<char>, i: int)
    requires
        0 <= i <= s.len(),
        forall|j: int| 0 <= j < i ==> s[j] == '-',
    ensures
        drop_leading_dashes(s) == drop_leading_dashes(s.skip(i)),
    decreases i,
{
    if i > 0 {
        lemma_drop_dashes_skip(s.drop_first(), i - 1);
        assert(s.drop_first().skip(i - 1) =~= s.skip(i));
    } else {
        assert(s.skip(0) =~= s);
    }
}

/// The project folder name the agent derives from a working directory:
/// every path separator becomes a dash, leading dashes collapse, and a
/// single dash is prefixed.
pub open spec fn spec_project_folder(working_dir: Seq<char>) -> Seq<char> {
    seq!['-'] + drop_leading_dashes(replace_all(working_dir, "/"@, "-"@))
}

/// Maps a working directory to the agent's project folder name.
pub fn project_folder_name(working_dir: &str) -> (r: String)
    ensures
        r@ == spec_project_folder(working_dir@),
{
    proof {
        reveal_strlit("-");
    }
    let dashed = str_replace(working_dir, "/", "-");
    let len = dashed.as_str().unicode_len();
    let mut i: usize = 0;
    loop
        invariant
            len == dashed@.len(),
            i <= len,
            forall|j: int| 0 <= j < i ==> dashed@[j] == '-',
        ensures
            i <= len,
            len == dashed@.len(),
            forall|j: int| 0 <= j < i ==> dashed@[j] == '-',
            i < len ==> dashed@[i as int] != '-',
        decreases len - i,
    {
        if i == len {
            break;
        }
        if dashed.as_str().get_char(i) != '-' {
            break;
        }
        i = i + 1;
    }
    proof {
        lemma_drop_dashes_skip(dashed@, i as int);
        if i < len {
            assert(dashed@.skip(i as int)[0] == dashed@[i as int]);
        } else {
            assert(dashed@.skip(i as int).len() == 0);
        }
    }
    let stripped = dashed.as_str().substring_char(i, len);
    assert(stripped@ =~= dashed@.skip(i as int));
    let mut out = String::from_str("-");
    assert("-"@ =~= seq!['-']);
    out.append(stripped);
    out
}

/// Whether a file stem looks like a session record identifier: 36
/// characters with exactly four dashes.
pub fn is_uuid_like(s: &str) -> (r: bool)
    ensures
        r == (s@.len() == 36 && count_char(s@, '-') == 4),
{
    if s.unicode_len() != 36 {
        return false;
    }
    count_char_exec(s, '-') == 4
}

/// One entry of the project folder's listing, as the host read it.
pub struct FileEntry {
    /// The file name without its extension.
    pub stem: String,
    /// Whether the entry is a directory.
    pub is_dir: bool,
    /// Whether the file has the session-record extension.
    pub is_jsonl: bool,
    /// Modification time, in seconds.
    pub mtime: u64,
}

/// Whether a listing entry is a candidate session record modified
/// strictly after `min_time`.
pub open spec fn qualifies(e: FileEntry, min_time: u64) -> bool {
    &&& !e.is_dir
    &&& e.is_jsonl
    &&& e.stem@.len() == 36
    &&& count_char(e.stem@, '-') == 4
    &&& e.mtime > min_time
}

/// The index of the winning entry: among qualifying entries, the one
/// with the greatest modification time, earliest first on ties; `-1`
/// when none qualifies.
pub open spec fn best_entry(entries: Seq<FileEntry>, min_time: u64) -> int
    decreases entries.len(),
{
    if entries.len() == 0 {
        -1
    } else {
        let b = best_entry(entries.drop_last(), min_time);
        if !qualifies(entries.last(), min_time) {
            b
        } else if b == -1 {
            entries.len() - 1
        } else if entries.last().mtime > entries[b].mtime {
            entries.len() - 1
        } else {
            b
        }
    }
}

fn entry_qualifies(e: &FileEntry, min_time: u64) -> (r: bool)
    ensures
        r == qualifies(*e, min_time),
{
    !e.is_dir && e.is_jsonl && is_uuid_like(e.stem.as_str()) && e.mtime > min_time
}

/// Picks the foreign session identifier from a directory listing: the
/// stem of the newest qualifying record file, or nothing when no
/// record was modified after `min_time`.
pub fn detect_foreign_session_id(entries: &Vec<FileEntry>, min_time: u64) -> (r: Option<String>)
    ensures
        ({
            let b = best_entry(entries@, min_time);
            match r {
                Some(s) => b >= 0 && s@ == entries@[b].stem@,
                None => b == -1,
            }
        }),
{
    let n = entries.len();
    let mut best: Option<usize> = None;
    let mut j: usize = 0;
    proof {
        assert(entries@.take(0) =~= Seq::<FileEntry>::empty());
    }
    while j < n
        invariant
            n == entries@.len(),
            j <= n,
            match best {
                Some(b) => best_entry(entries@.take(j as int), min_time) == b as int && b < j,
                None => best_entry(entries@.take(j as int), min_time) == -1,
            },
        decreases n - j,
    {
        proof {
            assert(entries@.take(j + 1).drop_last() =~= entries@.take(j as int));
            assert(entries@.take(j + 1).last() == entries@[j as int]);
        }
        if entry_qualifies(&entries[j], min_time) {
            match best {
                Some(b) => {
                    if entries[j].mtime > entries[b].mtime {
                        best = Some(j);
                    }
                },
                None => {
                    best = Some(j);
                },
            }
        }
        j = j + 1;
    }
    proof {
        assert(entries@.take(n as int) =~= entries@);
    }
    match best {
        Some(b) => Some(entries[b].stem.clone()),
        None => None,
    }
}

/// The qualifying session records of a listing, newest first — what
/// the session browser shows for a working directory.
pub fn select_agent_sessions(entries: &Vec<FileEntry>, min_time: u64) -> (r: Vec<FileEntry>)
    ensures
        forall|a: int, b: int| 0 <= a < b < r@.len() ==> r@[a].mtime >= r@[b].mtime,
        forall|i: int| 0 <= i < r@.len() ==> qualifies(r@[i], min_time),
{
    let n = entries.len();
    let mut out: Vec<FileEntry> = Vec::new();
    let mut j: usize = 0;
    while j < n
        invariant
            n == entries@.len(),
            j <= n,
            forall|a: int, b: int| 0 <= a < b < out@.len() ==> out@[a].mtime >= out@[b].mtime,
            forall|i: int| 0 <= i < out@.len() ==> qualifies(out@[i], min_time),
        decreases n - j,
    {
        if entry_qualifies(&entries[j], min_time) {
            let e = FileEntry {
                stem: entries[j].stem.clone(),
                is_dir: entries[j].is_dir,
                is_jsonl: entries[j].is_jsonl,
                mtime: entries[j].mtime,
            };
            let m = out.len();
            let mut i: usize = 0;
            loop
                invariant
                    m == out@.len(),
                    i <= m,
                    forall|a: int, b: int|
                        0 <= a < b < out@.len() ==> out@[a].mtime >= out@[b].mtime,
                    forall|k: int| 0 <= k < out@.len() ==> qualifies(out@[k], min_time),
                    forall|k: int| 0 <= k < i ==> out@[k].mtime >= e.mtime,
                ensures
                    i <= m,
                    m == out@.len(),
                    forall|a: int, b: int|
                        0 <= a < b < out@.len() ==> out@[a].mtime >= out@[b].mtime,
                    forall|k: int| 0 <= k < out@.len() ==> qualifies(out@[k], min_time),
                    forall|k: int| 0 <= k < i ==> out@[k].mtime >= e.mtime,
                    i < m ==> out@[i as int].mtime < e.mtime,
                decreases m - i,
            {
                if i == m {
                    break;
                }
                if out[i].mtime < e.mtime {
                    break;
                }
                i = i + 1;
            }
            let ghost pre = out@;
            let ghost ev = e;
            out.insert(i, e);
            proof {
                let iv = i as int;
                assert(out@ == pre.insert(iv, ev));
                assert forall|k: int| 0 <= k < iv implies out@[k] == pre[k] by {}
                assert(out@[iv] == ev);
                assert forall|k: int| iv < k < out@.len() implies out@[k] == pre[k - 1] by {}
                assert(qualifies(ev, min_time));
            }
        }
        j = j + 1;
    }
    out
}

} // verus!
