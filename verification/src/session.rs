//! Session, folder and recently-closed records, and the rules that
//! derive a session's command line and display name from its agent kind.

use vstd::prelude::*;
use crate::strutil::{dec_chars, u64_to_dec};

verus! {

/// A persisted session row.
#[derive(Debug, PartialEq, Eq)]
pub struct SessionRow {
    /// Opaque session identifier.
    pub id: String,
    /// Display name.
    pub name: String,
    /// Agent kind tag: `pty-agent`, `json-agent`, `aider`, `shell` or `custom`.
    pub agent_type: String,
    /// Invocation string handed to the shell.
    pub command: String,
    /// Working directory the child runs in.
    pub working_dir: String,
    /// Creation timestamp, RFC 3339 text; its lexicographic order is its
    /// chronological order.
    pub created_at: String,
    /// Identifier the agent program itself assigned, captured post-spawn.
    pub foreign_session_id: Option<String>,
    /// Sort position; lower values list first.
    pub sort_order: i32,
    /// Owning folder, or none for unfiled.
    pub folder_id: Option<String>,
    /// Last known child process id; a crash-recovery hint only.
    pub running_pid: Option<i64>,
}

/// A folder grouping sessions in the list.
#[derive(Debug, PartialEq, Eq)]
pub struct FolderRow {
    /// Opaque folder identifier.
    pub id: String,
    /// Display name.
    pub name: String,
    /// Sort position; lower values list first.
    pub sort_order: i32,
    /// Whether the folder is drawn collapsed.
    pub collapsed: bool,
}

/// A recently-closed session kept for undo.
#[derive(Debug, PartialEq, Eq)]
pub struct RecentlyClosedRow {
    /// Identifier of the closed session.
    pub id: String,
    /// Display name at close time.
    pub name: String,
    /// Agent kind tag.
    pub agent_type: String,
    /// Invocation string.
    pub command: String,
    /// Working directory.
    pub working_dir: String,
    /// Foreign agent identifier, if one had been captured.
    pub foreign_session_id: Option<String>,
    /// Close timestamp, RFC 3339 text.
    pub closed_at: String,
}

fn clone_opt_string(o: &Option<String>) -> (r: Option<String>)
    ensures
        r == *o,
{
    match o {
        Some(s) => Some(s.clone()),
        None => None,
    }
}

impl Clone for SessionRow {
    fn clone(&self) -> (r: Self)
        ensures
            r == *self,
    {
        SessionRow {
            id: self.id.clone(),
            name: self.name.clone(),
            agent_type: self.agent_type.clone(),
            command: self.command.clone(),
            working_dir: self.working_dir.clone(),
            created_at: self.created_at.clone(),
            foreign_session_id: clone_opt_string(&self.foreign_session_id),
            sort_order: self.sort_order,
            folder_id: clone_opt_string(&self.folder_id),
            running_pid: self.running_pid,
        }
    }
}

impl Clone for FolderRow {
    fn clone(&self) -> (r: Self)
        ensures
            r == *self,
    {
        FolderRow {
            id: self.id.clone(),
            name: self.name.clone(),
            sort_order: self.sort_order,
            collapsed: self.collapsed,
        }
    }
}

impl Clone for RecentlyClosedRow {
    fn clone(&self) -> (r: Self)
        ensures
            r == *self,
    {
        RecentlyClosedRow {
            id: self.id.clone(),
            name: self.name.clone(),
            agent_type: self.agent_type.clone(),
            command: self.command.clone(),
            working_dir: self.working_dir.clone(),
            foreign_session_id: clone_opt_string(&self.foreign_session_id),
            closed_at: self.closed_at.clone(),
        }
    }
}

/// The invocation string a given agent kind runs, as a specification.
/// Unknown kinds fall back to the default agent command.
pub open spec fn spec_command_for(
    agent_type: Seq<char>,
    custom_command: Option<Seq<char>>,
    shell: Seq<char>,
) -> Seq<char> {
    if agent_type == "pty-agent"@ {
        "agent --dangerously-skip-permissions"@
    } else if agent_type == "json-agent"@ {
        "agent --print --verbose --input-format stream-json --output-format stream-json --dangerously-skip-permissions"@
    } else if agent_type == "aider"@ {
        "aider"@
    } else if agent_type == "shell"@ {
        shell
    } else if agent_type == "custom"@ {
        match custom_command {
            Some(c) => c,
            None => "/bin/zsh"@,
        }
    } else {
        "agent --dangerously-skip-permissions"@
    }
}

/// The invocation string for `agent_type`; `shell` is the user's login
/// shell, used for `shell` sessions.
pub fn command_for_agent_type(agent_type: &str, custom_command: Option<String>, shell: &str) -> (
    r: String)
    ensures
        r@ == spec_command_for(agent_type@, match custom_command {
            Some(c) => Some(c@),
            None => None,
        }, shell@),
{
    if crate::strutil::str_eq(agent_type, "pty-agent") {
        String::from_str("agent --dangerously-skip-permissions")
    } else if crate::strutil::str_eq(agent_type, "json-agent") {
        String::from_str(
            "agent --print --verbose --input-format stream-json --output-format stream-json --dangerously-skip-permissions",
        )
    } else if crate::strutil::str_eq(agent_type, "aider") {
        String::from_str("aider")
    } else if crate::strutil::str_eq(agent_type, "shell") {
        shell.to_owned()
    } else if crate::strutil::str_eq(agent_type, "custom") {
        match custom_command {
            Some(c) => c,
            None => String::from_str("/bin/zsh"),
        }
    } else {
        String::from_str("agent --dangerously-skip-permissions")
    }
}

/// The display label for an agent kind, as a specification.
pub open spec fn spec_agent_label(agent_type: Seq<char>) -> Seq<char> {
    if agent_type == "pty-agent"@ {
        "Agent"@
    } else if agent_type == "json-agent"@ {
        "Agent Chat"@
    } else if agent_type == "aider"@ {
        "Aider"@
    } else if agent_type == "shell"@ {
        "Shell"@
    } else if agent_type == "custom"@ {
        "Custom"@
    } else {
        "Session"@
    }
}

fn agent_label(agent_type: &str) -> (r: &'static str)
    ensures
        r@ == spec_agent_label(agent_type@),
{
    if crate::strutil::str_eq(agent_type, "pty-agent") {
        "Agent"
    } else if crate::strutil::str_eq(agent_type, "json-agent") {
        "Agent Chat"
    } else if crate::strutil::str_eq(agent_type, "aider") {
        "Aider"
    } else if crate::strutil::str_eq(agent_type, "shell") {
        "Shell"
    } else if crate::strutil::str_eq(agent_type, "custom") {
        "Custom"
    } else {
        "Session"
    }
}

/// The automatic name for the `count + 1`-th session of a kind:
/// the kind's label, a space, and the ordinal.
pub open spec fn spec_auto_name(agent_type: Seq<char>, count: nat) -> Seq<char> {
    spec_agent_label(agent_type) + seq![' '] + dec_chars(count + 1)
}

/// Builds the automatic display name for a new session when the caller
/// gave none: the agent label followed by the next ordinal.
pub fn auto_session_name(agent_type: &str, count: u64) -> (r: String)
    requires
        count < u64::MAX,
    ensures
        r@ == spec_auto_name(agent_type@, count as nat),
{
    proof {
        reveal_strlit(" ");
    }
    let mut s = agent_label(agent_type).to_owned();
    s.append(" ");
    assert(" "@ =~= seq![' ']);
    let num = u64_to_dec(count + 1);
    s.append(num.as_str());
    s
}

} // verus!
