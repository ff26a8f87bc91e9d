//! The protocol spoken with the SDK bridge: where its files live, when it is
//! ready, and how its newline-delimited JSON replies are read.

use vstd::prelude::*;

use crate::json::{
    json_accepts, json_bool_field, json_bool_member, json_compact, json_is_valid, json_render,
    json_str_field, json_str_member,
};
use crate::text::{
    blank, is_blank, last_filled_line, lines_of, same_text, split_lines, string_views, trim,
    trimmed,
};

verus! {

broadcast use vstd::string::group_string_axioms;

/// Why a bridge command failed.
#[derive(Debug, PartialEq, Eq)]
pub enum BridgeError {
    /// The bridge script has not been written yet.
    NotSetUp,
    /// The SDK has not been installed next to the bridge.
    SdkMissing,
    /// The bridge printed no line that is not blank; `stderr` is what it
    /// printed on its error stream, trimmed.
    NoOutput { stderr: String },
    /// The bridge's last line is not JSON.
    Unparsable { line: String },
    /// The bridge answered `"ok": false`, with this message.
    Reported { message: String },
}

/// The text shown for a bridge that printed nothing, given its trimmed error
/// stream.
pub open spec fn no_output_message(stderr: Seq<char>) -> Seq<char> {
    if stderr.len() == 0 {
        "the SDK bridge produced no output"@
    } else {
        "the SDK bridge produced no output"@ + ":\n"@ + stderr
    }
}

impl BridgeError {
    /// The message shown to the user.
    pub fn message(&self) -> (r: String)
        ensures
            r@ == match self {
                BridgeError::NotSetUp =>
                    "the GhostNet SDK bridge isn't set up yet — run `ghostnet setup` first"@,
                BridgeError::SdkMissing =>
                    "the GhostNet SDK isn't installed yet — run `ghostnet setup` first"@,
                BridgeError::NoOutput { stderr } => no_output_message(stderr@),
                BridgeError::Unparsable { line } => "parsing bridge output: "@ + line@,
                BridgeError::Reported { message } => message@,
            },
    {
        match self {
            BridgeError::NotSetUp => "the GhostNet SDK bridge isn't set up yet — run `ghostnet setup` first".to_owned(),
            BridgeError::SdkMissing => "the GhostNet SDK isn't installed yet — run `ghostnet setup` first".to_owned(),
            BridgeError::NoOutput { stderr } => {
                let mut m = "the SDK bridge produced no output".to_owned();
                if stderr.as_str().is_empty() {
                    m
                } else {
                    m.append(":\n");
                    m.append(stderr.as_str());
                    m
                }
            },
            BridgeError::Unparsable { line } => {
                let mut m = "parsing bridge output: ".to_owned();
                m.append(line.as_str());
                m
            },
            BridgeError::Reported { message } => message.clone(),
        }
    }
}

/// The bridge can run only once its script is written and the SDK installed.
pub fn require_ready(script_exists: bool, sdk_installed: bool) -> (r: Result<(), BridgeError>)
    ensures
        r == if !script_exists {
            Err::<(), BridgeError>(BridgeError::NotSetUp)
        } else if !sdk_installed {
            Err(BridgeError::SdkMissing)
        } else {
            Ok(())
        },
{
    if !script_exists {
        return Err(BridgeError::NotSetUp);
    }
    if !sdk_installed {
        return Err(BridgeError::SdkMissing);
    }
    Ok(())
}

/// A successful bridge reply: one line of JSON.
pub struct BridgeReply {
    line: String,
}

impl View for BridgeReply {
    type V = Seq<char>;

    closed spec fn view(&self) -> Seq<char> {
        self.line@
    }
}

/// How a bridge run ends, given what it printed on its two streams.
pub open spec fn reply_outcome(stdout: Seq<char>, stderr: Seq<char>) -> Result<
    Seq<char>,
    BridgeErrorView,
> {
    match last_filled_line(lines_of(stdout)) {
        None => Err(BridgeErrorView::NoOutput(trimmed(stderr))),
        Some(line) => if !json_accepts(line) {
            Err(BridgeErrorView::Unparsable(line))
        } else if json_bool_member(line, "ok"@) == Some(false) {
            Err(
                BridgeErrorView::Reported(
                    match json_str_member(line, "error"@) {
                        Some(m) => m,
                        None => "bridge reported an error"@,
                    },
                ),
            )
        } else {
            Ok(line)
        },
    }
}

/// What a [`BridgeError`] holds.
pub enum BridgeErrorView {
    NotSetUp,
    SdkMissing,
    NoOutput(Seq<char>),
    Unparsable(Seq<char>),
    Reported(Seq<char>),
}

impl View for BridgeError {
    type V = BridgeErrorView;

    open spec fn view(&self) -> BridgeErrorView {
        match self {
            BridgeError::NotSetUp => BridgeErrorView::NotSetUp,
            BridgeError::SdkMissing => BridgeErrorView::SdkMissing,
            BridgeError::NoOutput { stderr } => BridgeErrorView::NoOutput(stderr@),
            BridgeError::Unparsable { line } => BridgeErrorView::Unparsable(line@),
            BridgeError::Reported { message } => BridgeErrorView::Reported(message@),
        }
    }
}

fn last_filled(lines: &Vec<String>) -> (r: Option<String>)
    ensures
        match r {
            Some(l) => last_filled_line(string_views(lines@)) == Some(l@),
            None => last_filled_line(string_views(lines@)) is None,
        },
{
    let mut i = lines.len();
    assert(string_views(lines@).take(i as int) =~= string_views(lines@));
    while i > 0
        invariant
            i <= lines@.len(),
            last_filled_line(string_views(lines@)) == last_filled_line(
                string_views(lines@).take(i as int),
            ),
        decreases i,
    {
        let ghost prefix = string_views(lines@).take(i as int);
        assert(prefix.last() == lines@[i - 1]@);
        assert(prefix.drop_last() =~= string_views(lines@).take(i - 1));
        if !blank(lines[i - 1].as_str()) {
            return Some(lines[i - 1].clone());
        }
        i -= 1;
    }
    assert(string_views(lines@).take(0) =~= Seq::<Seq<char>>::empty());
    None
}

/// Reads a bridge run's output: the last line on `stdout` that is not blank
/// must be JSON, and must not answer `"ok": false`.
pub fn parse_last_json(stdout: &str, stderr: &str) -> (r: Result<BridgeReply, BridgeError>)
    ensures
        match r {
            Ok(reply) => reply_outcome(stdout@, stderr@) == Ok::<Seq<char>, BridgeErrorView>(
                reply@,
            ),
            Err(e) => reply_outcome(stdout@, stderr@) == Err::<Seq<char>, BridgeErrorView>(e@),
        },
{
    let lines = split_lines(stdout);
    let line = match last_filled(&lines) {
        Some(line) => line,
        None => {
            return Err(BridgeError::NoOutput { stderr: trim(stderr) });
        },
    };
    if !json_is_valid(line.as_str()) {
        return Err(BridgeError::Unparsable { line });
    }
    if json_bool_field(line.as_str(), "ok") == Some(false) {
        let message = match json_str_field(line.as_str(), "error") {
            Some(m) => m,
            None => "bridge reported an error".to_owned(),
        };
        return Err(BridgeError::Reported { message });
    }
    Ok(BridgeReply { line })
}

/// The string the reply holds under `key`, or `(unknown)`.
pub open spec fn field_text(line: Seq<char>, key: Seq<char>) -> Seq<char> {
    match json_str_member(line, key) {
        Some(v) => v,
        None => "(unknown)"@,
    }
}

impl BridgeReply {
    /// The string the reply holds under `key`, or `(unknown)` when it holds no
    /// string there.
    pub fn field(&self, key: &str) -> (r: String)
        ensures
            r@ == field_text(self@, key@),
    {
        match json_str_field(self.line.as_str(), key) {
            Some(v) => v,
            None => "(unknown)".to_owned(),
        }
    }
}

/// The string the JSON line holds under `key`, or `default`.
pub open spec fn member_or(line: Seq<char>, key: Seq<char>, default: Seq<char>) -> Seq<char> {
    match json_str_member(line, key) {
        Some(v) => v,
        None => default,
    }
}

fn str_member_or(line: &str, key: &str, default: &str) -> (r: String)
    ensures
        r@ == member_or(line@, key@, default@),
{
    match json_str_field(line, key) {
        Some(v) => v,
        None => default.to_owned(),
    }
}

/// One line streamed by a listening bridge, as it is to be shown.
#[derive(Debug, PartialEq, Eq)]
pub enum ListenLine {
    /// A blank line: nothing to show.
    Blank,
    /// A line that is not JSON, shown as it is.
    Raw(String),
    /// The listening identity's node ID.
    Identity { node_id: String },
    /// Connected to the mesh.
    Connected,
    /// Disconnected from the mesh, for this reason.
    Disconnected { reason: String },
    /// A message from a peer.
    Message { from: String, data: String },
    /// An error reported by the bridge.
    Failure { error: String },
    /// Any other JSON event, rendered compactly.
    Other { rendered: String },
}

/// What a [`ListenLine`] holds.
pub enum ListenLineView {
    Blank,
    Raw(Seq<char>),
    Identity(Seq<char>),
    Connected,
    Disconnected(Seq<char>),
    Message(Seq<char>, Seq<char>),
    Failure(Seq<char>),
    Other(Seq<char>),
}

impl View for ListenLine {
    type V = ListenLineView;

    open spec fn view(&self) -> ListenLineView {
        match self {
            ListenLine::Blank => ListenLineView::Blank,
            ListenLine::Raw(l) => ListenLineView::Raw(l@),
            ListenLine::Identity { node_id } => ListenLineView::Identity(node_id@),
            ListenLine::Connected => ListenLineView::Connected,
            ListenLine::Disconnected { reason } => ListenLineView::Disconnected(reason@),
            ListenLine::Message { from, data } => ListenLineView::Message(from@, data@),
            ListenLine::Failure { error } => ListenLineView::Failure(error@),
            ListenLine::Other { rendered } => ListenLineView::Other(rendered@),
        }
    }
}

/// How a streamed line is shown: blank lines are skipped, lines that are not
/// JSON are shown raw, and JSON events are told apart by their `event` member.
pub open spec fn listen_line_view(line: Seq<char>) -> ListenLineView {
    if is_blank(line) {
        ListenLineView::Blank
    } else if !json_accepts(line) {
        ListenLineView::Raw(line)
    } else {
        let event = member_or(line, "event"@, ""@);
        if event == "identity"@ {
            ListenLineView::Identity(member_or(line, "nodeId"@, "(unknown)"@))
        } else if event == "connect"@ {
            ListenLineView::Connected
        } else if event == "disconnect"@ {
            ListenLineView::Disconnected(member_or(line, "reason"@, ""@))
        } else if event == "message"@ {
            ListenLineView::Message(member_or(line, "from"@, "?"@), member_or(line, "data"@, ""@))
        } else if event == "error"@ {
            ListenLineView::Failure(member_or(line, "error"@, "unknown error"@))
        } else {
            ListenLineView::Other(json_compact(line))
        }
    }
}

/// Classifies one line streamed by a listening bridge.
pub fn classify_listen_line(line: &str) -> (r: ListenLine)
    ensures
        r@ == listen_line_view(line@),
{
    if blank(line) {
        return ListenLine::Blank;
    }
    if !json_is_valid(line) {
        return ListenLine::Raw(line.to_owned());
    }
    let event = str_member_or(line, "event", "");
    let e = event.as_str();
    if same_text(e, "identity") {
        ListenLine::Identity { node_id: str_member_or(line, "nodeId", "(unknown)") }
    } else if same_text(e, "connect") {
        ListenLine::Connected
    } else if same_text(e, "disconnect") {
        ListenLine::Disconnected { reason: str_member_or(line, "reason", "") }
    } else if same_text(e, "message") {
        ListenLine::Message {
            from: str_member_or(line, "from", "?"),
            data: str_member_or(line, "data", ""),
        }
    } else if same_text(e, "error") {
        ListenLine::Failure { error: str_member_or(line, "error", "unknown error") }
    } else {
        ListenLine::Other { rendered: json_render(line) }
    }
}

proof fn lemma_last_filled_line_is_filled(ls: Seq<Seq<char>>)
    ensures
        last_filled_line(ls) matches Some(l) ==> !is_blank(l),
    decreases ls.len(),
{
    if ls.len() > 0 && is_blank(ls.last()) {
        lemma_last_filled_line_is_filled(ls.drop_last());
    }
}

/// A reply the library accepts is a line of JSON that is not blank and does
/// not answer `"ok": false`.
pub proof fn law_accepted_reply_is_json(stdout: Seq<char>, stderr: Seq<char>)
    ensures
        reply_outcome(stdout, stderr) matches Ok(line) ==> {
            &&& !is_blank(line)
            &&& json_accepts(line)
            &&& json_bool_member(line, "ok"@) != Some(false)
        },
{
    lemma_last_filled_line_is_filled(lines_of(stdout));
}

/// A JSON line whose `event` member is the string `event`.
pub open spec fn is_event(line: Seq<char>, event: Seq<char>) -> bool {
    !is_blank(line) && json_accepts(line) && json_str_member(line, "event"@) == Some(event)
}

proof fn lemma_event_words_differ()
    ensures
        "identity"@ != "connect"@,
        "identity"@ != "disconnect"@,
        "identity"@ != "message"@,
        "identity"@ != "error"@,
        "connect"@ != "disconnect"@,
        "connect"@ != "message"@,
        "connect"@ != "error"@,
        "disconnect"@ != "message"@,
        "disconnect"@ != "error"@,
        "message"@ != "error"@,
{
    reveal_strlit("identity");
    reveal_strlit("connect");
    reveal_strlit("disconnect");
    reveal_strlit("message");
    reveal_strlit("error");
    assert("identity"@[0] != "connect"@[0]);
    assert("identity"@[0] != "disconnect"@[0]);
    assert("identity"@[0] != "message"@[0]);
    assert("identity"@[0] != "error"@[0]);
    assert("connect"@[0] != "disconnect"@[0]);
    assert("connect"@[0] != "message"@[0]);
    assert("connect"@[0] != "error"@[0]);
    assert("disconnect"@[0] != "message"@[0]);
    assert("disconnect"@[0] != "error"@[0]);
    assert("message"@[0] != "error"@[0]);
}

/// An `error` event shows the string held under its `error` member, and
/// `unknown error` when it holds none.
pub proof fn law_error_event_shows_error_member(line: Seq<char>, s: Seq<char>)
    requires
        is_event(line, "error"@),
    ensures
        json_str_member(line, "error"@) == Some(s) ==> listen_line_view(line)
            == ListenLineView::Failure(s),
        json_str_member(line, "error"@) is None ==> listen_line_view(line)
            == ListenLineView::Failure("unknown error"@),
{
    lemma_event_words_differ();
}

/// A `disconnect` event shows the string held under its `reason` member, and
/// an empty reason when it holds none.
pub proof fn law_disconnect_event_shows_reason_member(line: Seq<char>, s: Seq<char>)
    requires
        is_event(line, "disconnect"@),
    ensures
        json_str_member(line, "reason"@) == Some(s) ==> listen_line_view(line)
            == ListenLineView::Disconnected(s),
        json_str_member(line, "reason"@) is None ==> listen_line_view(line)
            == ListenLineView::Disconnected(""@),
{
    lemma_event_words_differ();
    reveal_strlit("");
}

/// An `identity` event shows the string held under its `nodeId` member, and
/// `(unknown)` when it holds none.
pub proof fn law_identity_event_shows_node_id_member(line: Seq<char>, s: Seq<char>)
    requires
        is_event(line, "identity"@),
    ensures
        json_str_member(line, "nodeId"@) == Some(s) ==> listen_line_view(line)
            == ListenLineView::Identity(s),
        json_str_member(line, "nodeId"@) is None ==> listen_line_view(line)
            == ListenLineView::Identity("(unknown)"@),
{
}

/// A `message` event shows the sender held under `from` (or `?`) and the text
/// held under `data` (or nothing).
pub proof fn law_message_event_shows_from_and_data(
    line: Seq<char>,
    from: Seq<char>,
    data: Seq<char>,
)
    requires
        is_event(line, "message"@),
        json_str_member(line, "from"@) == Some(from),
        json_str_member(line, "data"@) == Some(data),
    ensures
        listen_line_view(line) == ListenLineView::Message(from, data),
{
    lemma_event_words_differ();
}

/// A `connect` event is shown as a connection, whatever else it holds.
pub proof fn law_connect_event(line: Seq<char>)
    requires
        is_event(line, "connect"@),
    ensures
        listen_line_view(line) == ListenLineView::Connected,
{
    lemma_event_words_differ();
}

/// A blank line is skipped, and a line that is not blank and not JSON is shown
/// as it is.
pub proof fn law_non_json_lines(line: Seq<char>)
    ensures
        is_blank(line) ==> listen_line_view(line) == ListenLineView::Blank,
        !is_blank(line) && !json_accepts(line) ==> listen_line_view(line) == ListenLineView::Raw(
            line,
        ),
{
}

} // verus!
