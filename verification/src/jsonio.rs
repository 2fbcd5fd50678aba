//! The boundary to the JSON parser. Each extraction an inbound frame or
//! agent line needs is a small trusted call into serde_json whose result
//! is a function of the text alone; the named results below stand for
//! those functions, and every verified classifier here is specified
//! exactly over them.

use vstd::prelude::*;
use crate::protocol::MobileFrame;
use crate::strutil::{str_eq, split_lines, is_blank, is_ws, lines_of};

verus! {

/// serde_json's dynamic value, opaque to the verifier.
#[verifier::external_type_specification]
#[verifier::external_body]
pub struct ExValue(serde_json::Value);

/// Whether `serde_json::from_str::<Value>` accepts the text as a JSON
/// document.
pub uninterp spec fn json_parses(s: Seq<char>) -> bool;

/// The value of the document's field `key` when the text parses, the
/// document has that field and the field is a string; nothing
/// otherwise.
pub uninterp spec fn json_str_field(s: Seq<char>, key: Seq<char>) -> Option<Seq<char>>;

/// The value of the document's field `key` when the text parses, the
/// document has that field and the field is an unsigned integer;
/// nothing otherwise.
pub uninterp spec fn json_uint_field(s: Seq<char>, key: Seq<char>) -> Option<u64>;

/// The document's `content` field rendered to text: the string itself
/// when it is a string, its JSON rendering otherwise; nothing when the
/// text does not parse or has no such field.
pub uninterp spec fn json_content_text(s: Seq<char>) -> Option<Seq<char>>;

/// serde_json's re-rendering of the document parsed from the text;
/// present exactly when the text parses.
pub uninterp spec fn json_rerendered(s: Seq<char>) -> Option<Seq<char>>;

/// The re-rendered elements of the document when the text parses as a
/// JSON array; nothing otherwise.
pub uninterp spec fn json_array_items(s: Seq<char>) -> Option<Seq<Seq<char>>>;

/// Relies on `serde_json::from_str::<Value>`: it accepts a text or
/// rejects it, deterministically.
#[verifier::external_body]
fn text_parses(s: &str) -> (r: bool)
    ensures
        r == json_parses(s@),
{
    serde_json::from_str::<serde_json::Value>(s).is_ok()
}

/// Relies on serde_json's `from_str`, `Value::get` and `Value::as_str`:
/// the string field `key` of the document parsed from `s`.
#[verifier::external_body]
fn str_field(s: &str, key: &str) -> (r: Option<String>)
    ensures
        r matches Some(v) ==> json_str_field(s@, key@) == Some(v@),
        r is None ==> json_str_field(s@, key@) is None,
{
    serde_json::from_str::<serde_json::Value>(s)
        .ok()
        .and_then(|v| v.get(key).and_then(|f| f.as_str().map(|t| t.to_string())))
}

/// Relies on serde_json's `from_str`, `Value::get` and `Value::as_u64`:
/// the unsigned integer field `key` of the document parsed from `s`.
#[verifier::external_body]
fn uint_field(s: &str, key: &str) -> (r: Option<u64>)
    ensures
        r == json_uint_field(s@, key@),
{
    serde_json::from_str::<serde_json::Value>(s)
        .ok()
        .and_then(|v| v.get(key).and_then(|f| f.as_u64()))
}

/// Relies on serde_json's `from_str`, `Value::get`, `Value::as_str` and
/// `to_string`: the document's `content` field as text — the string
/// itself, or the JSON rendering of a structured value (rendering a
/// `Value` cannot fail: its maps are string-keyed).
#[verifier::external_body]
fn content_field(s: &str) -> (r: Option<String>)
    ensures
        r matches Some(v) ==> json_content_text(s@) == Some(v@),
        r is None ==> json_content_text(s@) is None,
{
    let v = serde_json::from_str::<serde_json::Value>(s).ok()?;
    let c = v.get("content")?;
    match c.as_str() {
        Some(t) => Some(t.to_string()),
        None => serde_json::to_string(c).ok(),
    }
}

/// Relies on serde_json's `from_str` and `to_string`: the canonical
/// re-rendering of a parsed document, which exists exactly when the
/// text parses (rendering a `Value` cannot fail: its maps are
/// string-keyed).
#[verifier::external_body]
fn rerender(s: &str) -> (r: Option<String>)
    ensures
        r matches Some(v) ==> json_rerendered(s@) == Some(v@),
        r is None ==> json_rerendered(s@) is None,
        r is Some <==> json_parses(s@),
{
    serde_json::from_str::<serde_json::Value>(s)
        .ok()
        .and_then(|v| serde_json::to_string(&v).ok())
}

/// Relies on serde_json's `from_str`, `Value::as_array` and
/// `to_string`: the re-rendered elements of a document that parses as
/// an array.
#[verifier::external_body]
fn array_items(s: &str) -> (r: Option<Vec<String>>)
    ensures
        r matches Some(v) ==> json_array_items(s@) == Some(v.deep_view()),
        r is None ==> json_array_items(s@) is None,
{
    let v = serde_json::from_str::<serde_json::Value>(s).ok()?;
    let items = v.as_array()?;
    items.iter().map(|e| serde_json::to_string(e).ok()).collect()
}

/// The index of the first opening brace in `s`, if any.
pub open spec fn first_brace(s: Seq<char>) -> int
    decreases s.len(),
{
    if s.len() == 0 {
        -1
    } else if s[0] == '{' {
        0
    } else {
        let r = first_brace(s.drop_first());
        if r < 0 {
            -1
        } else {
            r + 1
        }
    }
}

proof fn lemma_first_brace(s: Seq<char>)
    ensures
        first_brace(s) >= 0 ==> first_brace(s) < s.len() && s[first_brace(s)] == '{'
            && forall|j: int| 0 <= j < first_brace(s) ==> s[j] != '{',
        first_brace(s) < 0 ==> first_brace(s) == -1 && forall|j: int|
            0 <= j < s.len() ==> s[j] != '{',
    decreases s.len(),
{
    if s.len() > 0 && s[0] != '{' {
        lemma_first_brace(s.drop_first());
        let r = first_brace(s.drop_first());
        if r >= 0 {
            assert(s[r + 1] == s.drop_first()[r]);
            assert forall|j: int| 0 <= j < r + 1 implies s[j] != '{' by {
                if j > 0 {
                    assert(s.drop_first()[j - 1] != '{');
                }
            }
        } else {
            assert forall|j: int| 0 <= j < s.len() implies s[j] != '{' by {
                if j > 0 {
                    assert(s.drop_first()[j - 1] != '{');
                }
            }
        }
    }
}

/// The line with any leading non-JSON prefix removed: its suffix from
/// the first opening brace, or the whole line when it has none.
pub open spec fn spec_stripped(line: Seq<char>) -> Seq<char> {
    if first_brace(line) >= 0 {
        line.skip(first_brace(line))
    } else {
        line
    }
}

/// Strips any leading non-JSON prefix — terminal escape sequences that
/// some shells prepend — so that parsing starts at the first opening
/// brace. A line without a brace is returned whole.
pub fn strip_json_prefix(line: &str) -> (r: String)
    ensures
        r@ == spec_stripped(line@),
{
    proof {
        lemma_first_brace(line@);
    }
    let len = line.unicode_len();
    let mut i: usize = 0;
    while i < len
        invariant
            len == line@.len(),
            i <= len,
            forall|j: int| 0 <= j < i ==> line@[j] != '{',
        decreases len - i,
    {
        if line.get_char(i) == '{' {
            proof {
                lemma_first_brace(line@);
                if first_brace(line@) != i as int {
                    assert(line@[i as int] == '{');
                }
            }
            let rest = line.substring_char(i, len);
            assert(rest@ =~= line@.skip(i as int));
            return rest.to_owned();
        }
        i = i + 1;
    }
    proof {
        lemma_first_brace(line@);
        if first_brace(line@) >= 0 {
            assert(line@[first_brace(line@)] == '{');
        }
    }
    line.to_owned()
}

/// The view of an optional string.
pub open spec fn opt_view(o: Option<String>) -> Option<Seq<char>> {
    match o {
        Some(s) => Some(s@),
        None => None,
    }
}

/// An optional text with the empty text treated as absent: the shape in
/// which inbound frame fields reach the protocol handler.
pub open spec fn nonempty(o: Option<Seq<char>>) -> Option<Seq<char>> {
    match o {
        Some(s) => if s.len() > 0 {
            Some(s)
        } else {
            None
        },
        None => None,
    }
}

fn nonempty_or_none(s: Option<String>) -> (r: Option<String>)
    ensures
        opt_view(r) == nonempty(opt_view(s)),
{
    match s {
        Some(v) => if v.as_str().unicode_len() == 0 {
            None
        } else {
            Some(v)
        },
        None => None,
    }
}

/// The frame's type tag: its `type` string field, or the empty text
/// when the field is absent or not a string.
pub open spec fn frame_tag(s: Seq<char>) -> Seq<char> {
    match json_str_field(s, "type"@) {
        Some(t) => t,
        None => Seq::empty(),
    }
}

/// Reduces one inbound mobile text frame to plain values: a frame that
/// is not JSON is invalid; otherwise the `type` tag selects the frame
/// kind and the named fields carry over, empty texts treated as absent.
pub fn mobile_frame_of_text(text: &str) -> (r: MobileFrame)
    ensures
        (r is Invalid) <==> !json_parses(text@),
        json_parses(text@) ==> ({
            let tag = frame_tag(text@);
            &&& tag == "auth"@ ==> (r matches MobileFrame::Auth { token } && opt_view(token)
                == nonempty(json_str_field(text@, "token"@)))
            &&& tag == "subscribe"@ ==> (r matches MobileFrame::Subscribe { session_id }
                && opt_view(session_id) == nonempty(json_str_field(text@, "sessionId"@)))
            &&& tag == "unsubscribe"@ ==> (r matches MobileFrame::Unsubscribe { session_id }
                && opt_view(session_id) == nonempty(json_str_field(text@, "sessionId"@)))
            &&& tag == "send_message"@ ==> (r matches MobileFrame::SendMessage {
                session_id,
                content,
            } && opt_view(session_id) == nonempty(json_str_field(text@, "sessionId"@))
                && opt_view(content) == json_content_text(text@))
            &&& tag == "interrupt"@ ==> (r matches MobileFrame::Interrupt { session_id }
                && opt_view(session_id) == nonempty(json_str_field(text@, "sessionId"@)))
            &&& (tag != "auth"@ && tag != "subscribe"@ && tag != "unsubscribe"@ && tag
                != "send_message"@ && tag != "interrupt"@) ==> (r matches MobileFrame::Unknown {
                msg_type,
            } && msg_type@ == tag)
        }),
{
    proof {
        reveal_strlit("auth");
        reveal_strlit("subscribe");
        reveal_strlit("unsubscribe");
        reveal_strlit("send_message");
        reveal_strlit("interrupt");
        assert("auth"@.len() == 4 && "subscribe"@.len() == 9 && "unsubscribe"@.len() == 11
            && "send_message"@.len() == 12 && "interrupt"@.len() == 9);
        assert("auth"@ != "subscribe"@ && "auth"@ != "unsubscribe"@ && "auth"@
            != "send_message"@ && "auth"@ != "interrupt"@);
        assert("subscribe"@ != "unsubscribe"@ && "subscribe"@ != "send_message"@);
        assert("subscribe"@[0] == 's' && "interrupt"@[0] == 'i');
        assert("subscribe"@ != "interrupt"@);
        assert("unsubscribe"@ != "send_message"@ && "unsubscribe"@ != "interrupt"@);
        assert("send_message"@ != "interrupt"@);
    }
    if !text_parses(text) {
        return MobileFrame::Invalid;
    }
    let tag = match str_field(text, "type") {
        Some(t) => t,
        None => String::new(),
    };
    if str_eq(tag.as_str(), "auth") {
        MobileFrame::Auth { token: nonempty_or_none(str_field(text, "token")) }
    } else if str_eq(tag.as_str(), "subscribe") {
        MobileFrame::Subscribe { session_id: nonempty_or_none(str_field(text, "sessionId")) }
    } else if str_eq(tag.as_str(), "unsubscribe") {
        MobileFrame::Unsubscribe { session_id: nonempty_or_none(str_field(text, "sessionId")) }
    } else if str_eq(tag.as_str(), "send_message") {
        MobileFrame::SendMessage {
            session_id: nonempty_or_none(str_field(text, "sessionId")),
            content: content_field(text),
        }
    } else if str_eq(tag.as_str(), "interrupt") {
        MobileFrame::Interrupt { session_id: nonempty_or_none(str_field(text, "sessionId")) }
    } else {
        MobileFrame::Unknown { msg_type: tag }
    }
}

/// The type tag of a structured agent line: its `type` string field,
/// read after stripping any terminal-escape prefix.
pub open spec fn spec_agent_type(line: Seq<char>) -> Option<Seq<char>> {
    json_str_field(spec_stripped(line), "type"@)
}

/// The type tag of a structured agent line, after stripping any
/// terminal-escape prefix: it drives the processing-state transition.
pub fn agent_type_of_line(line: &str) -> (r: Option<String>)
    ensures
        opt_view(r) == spec_agent_type(line@),
{
    let stripped = strip_json_prefix(line);
    str_field(stripped.as_str(), "type")
}

/// Whether a structured agent line parses as a message: its brace
/// suffix — the whole line when it has no brace — is a JSON document.
pub fn agent_line_parses(line: &str) -> (r: bool)
    ensures
        r == json_parses(spec_stripped(line@)),
{
    let stripped = strip_json_prefix(line);
    text_parses(stripped.as_str())
}

/// An inbound text frame on a per-session raw stream: either a resize
/// control message or plain input for the child.
#[derive(Debug, PartialEq, Eq, Clone, Copy)]
pub enum WsInbound {
    /// Resize the terminal to this size.
    Resize {
        /// Columns.
        cols: u16,
        /// Rows.
        rows: u16,
    },
    /// Anything else: forward as input.
    Input,
}

/// What an inbound per-session text frame means: a document whose
/// `type` tag is `resize` with unsigned `cols` and `rows` fields is a
/// resize — the sizes truncated to the terminal's range — and anything
/// else is input.
pub open spec fn spec_ws_control(s: Seq<char>) -> WsInbound {
    if json_str_field(s, "type"@) == Some("resize"@) && json_uint_field(s, "cols"@) is Some
        && json_uint_field(s, "rows"@) is Some {
        WsInbound::Resize {
            cols: json_uint_field(s, "cols"@)->Some_0 as u16,
            rows: json_uint_field(s, "rows"@)->Some_0 as u16,
        }
    } else {
        WsInbound::Input
    }
}

/// Classifies an inbound text frame on a per-session stream: a resize
/// control message is performed and not forwarded; anything else is
/// input for the child.
pub fn ws_control_of_text(text: &str) -> (r: WsInbound)
    ensures
        r == spec_ws_control(text@),
{
    let is_resize = match str_field(text, "type") {
        Some(t) => str_eq(t.as_str(), "resize"),
        None => false,
    };
    if !is_resize {
        return WsInbound::Input;
    }
    match (uint_field(text, "cols"), uint_field(text, "rows")) {
        (Some(c), Some(w)) => WsInbound::Resize {
            cols: #[verifier::truncate] (c as u16),
            rows: #[verifier::truncate] (w as u16),
        },
        _ => WsInbound::Input,
    }
}

/// Every character of the line is whitespace.
pub open spec fn all_ws(l: Seq<char>) -> bool {
    forall|k: int| 0 <= k < l.len() ==> is_ws(l[k])
}

/// The re-rendered parseable lines of a newline-delimited record, blank
/// lines skipped, in order.
pub open spec fn rendered_lines(lines: Seq<Seq<char>>) -> Seq<Seq<char>>
    decreases lines.len(),
{
    if lines.len() == 0 {
        Seq::empty()
    } else {
        let rest = rendered_lines(lines.drop_last());
        let l = lines.last();
        if !all_ws(l) && json_rerendered(l) is Some {
            rest.push(json_rerendered(l)->Some_0)
        } else {
            rest
        }
    }
}

/// What a stored scrollback text yields as chat messages: the elements
/// of a JSON array, or failing that the parseable non-blank lines of a
/// newline-delimited record; nothing when no message is found.
pub open spec fn spec_history(buffer: Seq<char>) -> Option<Seq<Seq<char>>> {
    match json_array_items(buffer) {
        Some(items) => if items.len() > 0 {
            Some(items)
        } else {
            None
        },
        None => {
            let r = rendered_lines(lines_of(buffer));
            if r.len() > 0 {
                Some(r)
            } else {
                None
            }
        },
    }
}

/// Recovers the stored chat messages from a persisted scrollback text:
/// a JSON array yields its elements, re-rendered one per entry; any
/// other text is read as newline-delimited JSON, keeping the lines that
/// parse. Yields nothing when no message is found.
pub fn history_messages(buffer: &str) -> (r: Option<Vec<String>>)
    ensures
        match r {
            Some(v) => spec_history(buffer@) == Some(v.deep_view()) && v@.len() > 0,
            None => spec_history(buffer@) is None,
        },
{
    match array_items(buffer) {
        Some(items) => {
            if items.len() == 0 {
                return None;
            }
            return Some(items);
        },
        None => {},
    }
    let lines = split_lines(buffer);
    let n = lines.len();
    let mut out: Vec<String> = Vec::new();
    let mut i: usize = 0;
    proof {
        assert(lines.deep_view().take(0) =~= Seq::<Seq<char>>::empty());
        assert(out.deep_view() =~= rendered_lines(lines.deep_view().take(0)));
    }
    while i < n
        invariant
            i <= n,
            n == lines@.len(),
            lines.deep_view() == lines_of(buffer@),
            out.deep_view() == rendered_lines(lines.deep_view().take(i as int)),
        decreases n - i,
    {
        proof {
            assert(lines.deep_view().take(i + 1).drop_last() =~= lines.deep_view().take(
                i as int,
            ));
            assert(lines.deep_view().take(i + 1).last() == lines.deep_view()[i as int]);
            assert(lines.deep_view()[i as int] == lines@[i as int]@);
        }
        let ghost pre = out.deep_view();
        if !is_blank(lines[i].as_str()) {
            match rerender(lines[i].as_str()) {
                Some(t) => {
                    let ghost tv = t@;
                    out.push(t);
                    proof {
                        assert(out.deep_view() =~= pre.push(tv));
                    }
                },
                None => {},
            }
        }
        i = i + 1;
    }
    proof {
        assert(lines.deep_view().take(n as int) =~= lines.deep_view());
    }
    if out.len() == 0 {
        None
    } else {
        Some(out)
    }
}

/// A line carries dialog when its type tag is `user` or `assistant`.
pub open spec fn is_dialog_line(l: Seq<char>) -> bool {
    spec_agent_type(l) == Some("user"@) || spec_agent_type(l) == Some("assistant"@)
}

/// The dialog lines of a recorded conversation, in order.
pub open spec fn spec_dialog(lines: Seq<Seq<char>>) -> Seq<Seq<char>>
    decreases lines.len(),
{
    if lines.len() == 0 {
        Seq::empty()
    } else {
        let rest = spec_dialog(lines.drop_last());
        if is_dialog_line(lines.last()) {
            rest.push(lines.last())
        } else {
            rest
        }
    }
}

/// Keeps the lines of a recorded conversation that carry dialog: those
/// whose type tag is `user` or `assistant`, in order.
pub fn dialog_messages(lines: &Vec<String>) -> (r: Vec<String>)
    ensures
        r.deep_view() == spec_dialog(lines.deep_view()),
{
    let n = lines.len();
    let mut out: Vec<String> = Vec::new();
    let mut i: usize = 0;
    proof {
        assert(lines.deep_view().take(0) =~= Seq::<Seq<char>>::empty());
        assert(out.deep_view() =~= spec_dialog(lines.deep_view().take(0)));
    }
    while i < n
        invariant
            i <= n,
            n == lines@.len(),
            out.deep_view() == spec_dialog(lines.deep_view().take(i as int)),
        decreases n - i,
    {
        proof {
            assert(lines.deep_view().take(i + 1).drop_last() =~= lines.deep_view().take(
                i as int,
            ));
            assert(lines.deep_view().take(i + 1).last() == lines.deep_view()[i as int]);
            assert(lines.deep_view()[i as int] == lines@[i as int]@);
        }
        let ghost pre = out.deep_view();
        let keep = match agent_type_of_line(lines[i].as_str()) {
            Some(t) => str_eq(t.as_str(), "user") || str_eq(t.as_str(), "assistant"),
            None => false,
        };
        if keep {
            let ghost lv = lines@[i as int]@;
            out.push(lines[i].clone());
            proof {
                assert(out.deep_view() =~= pre.push(lv));
            }
        }
        i = i + 1;
    }
    proof {
        assert(lines.deep_view().take(n as int) =~= lines.deep_view());
    }
    out
}

} // verus!
