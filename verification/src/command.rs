//! The commands that the panel sends, one JSON object on each line.
use crate::lists;
use crate::text;
use serde_json::Value;
use vstd::prelude::*;

verus! {

// ---------------------------------------------------------------------------
// JSON
// ---------------------------------------------------------------------------
/// A JSON value, as far as commands are concerned.
pub enum Json {
    Null,
    Bool(bool),
    Number,
    Text(String),
    List,
    Object(Vec<(String, Member)>),
}

/// A member of a JSON object, as far as commands are concerned.
pub enum Member {
    Null,
    Bool(bool),
    Number,
    Text(String),
    List,
    Object,
}

/// What a [`Json`] holds.
pub enum JsonView {
    Null,
    Bool(bool),
    Number,
    Text(Seq<char>),
    List,
    Object(Seq<(Seq<char>, MemberView)>),
}

/// What a [`Member`] holds.
pub enum MemberView {
    Null,
    Bool(bool),
    Number,
    Text(Seq<char>),
    List,
    Object,
}

impl View for Member {
    type V = MemberView;

    open spec fn view(&self) -> MemberView {
        match self {
            Member::Null => MemberView::Null,
            Member::Bool(b) => MemberView::Bool(*b),
            Member::Number => MemberView::Number,
            Member::Text(t) => MemberView::Text(t@),
            Member::List => MemberView::List,
            Member::Object => MemberView::Object,
        }
    }
}

/// What the members of an object hold.
pub open spec fn members_view(members: Seq<(String, Member)>) -> Seq<(Seq<char>, MemberView)> {
    members.map_values(|m: (String, Member)| (m.0@, m.1@))
}

impl View for Json {
    type V = JsonView;

    open spec fn view(&self) -> JsonView {
        match self {
            Json::Null => JsonView::Null,
            Json::Bool(b) => JsonView::Bool(*b),
            Json::Number => JsonView::Number,
            Json::Text(t) => JsonView::Text(t@),
            Json::List => JsonView::List,
            Json::Object(members) => JsonView::Object(members_view(members@)),
        }
    }
}

/// What some JSON holds, if there is any.
pub open spec fn json_view(json: Option<Json>) -> Option<JsonView> {
    match json {
        Some(j) => Some(j@),
        None => None,
    }
}

/// The value that a line holds, where it is JSON.
pub uninterp spec fn json_in(line: Seq<u8>) -> Option<JsonView>;

/// `serde_json::from_slice` is a function of the bytes alone. What a number, a list
/// or an object inside an object holds is left out.
#[verifier::external_body]
fn parse(line: &[u8]) -> (r: Option<Json>)
    ensures
        json_view(r) == json_in(line@),
{
    Some(match serde_json::from_slice(line).ok()? {
        Value::Null => Json::Null,
        Value::Bool(b) => Json::Bool(b),
        Value::Number(_) => Json::Number,
        Value::String(s) => Json::Text(s),
        Value::Array(_) => Json::List,
        Value::Object(m) => Json::Object(m.into_iter().map(|(k, v)| (k, match v {
            Value::Null => Member::Null,
            Value::Bool(b) => Member::Bool(b),
            Value::Number(_) => Member::Number,
            Value::String(s) => Member::Text(s),
            Value::Array(_) => Member::List,
            Value::Object(_) => Member::Object,
        })).collect()),
    })
}

/// The longest line, in bytes.
pub const MAX_COMMAND: usize = 8192;

/// What a line of the panel holds, or why it cannot be taken. A line that is too
/// long is the last one that is read.
pub fn read_line(line: &[u8]) -> (r: Result<Json, &'static str>)
    ensures
        match r {
            Ok(j) => line@.len() <= MAX_COMMAND && json_in(line@) == Some(j@),
            Err(e) => if line@.len() > MAX_COMMAND {
                e@ == "Oversized JSON command; bridge input closed"@
            } else {
                json_in(line@) is None && e@ == "Invalid JSON command"@
            },
        },
{
    if line.len() > MAX_COMMAND {
        return Err("Oversized JSON command; bridge input closed");
    }
    match parse(line) {
        Some(j) => Ok(j),
        None => Err("Invalid JSON command"),
    }
}

// ---------------------------------------------------------------------------
// Commands
// ---------------------------------------------------------------------------
/// A command of the panel.
pub enum Command {
    /// Select the phone with this serial.
    Select(Option<String>),
    /// Share the clipboard, or do not.
    Enable(Option<bool>),
    /// Select no phone.
    Disconnect,
    /// Try again now.
    Refresh,
    /// Close the pairing by a QR code.
    QrCancel,
    /// Pair a phone by a QR code.
    QrStart,
    /// Pair with, or connect to, the phone at this address.
    Reach { pair: bool, address: Option<String>, code: String },
}

/// What a [`Command`] holds.
pub enum CommandView {
    Select(Option<Seq<char>>),
    Enable(Option<bool>),
    Disconnect,
    Refresh,
    QrCancel,
    QrStart,
    Reach { pair: bool, address: Option<Seq<char>>, code: Seq<char> },
}

impl View for Command {
    type V = CommandView;

    open spec fn view(&self) -> CommandView {
        match self {
            Command::Select(serial) => CommandView::Select(serial.deep_view()),
            Command::Enable(enabled) => CommandView::Enable(*enabled),
            Command::Disconnect => CommandView::Disconnect,
            Command::Refresh => CommandView::Refresh,
            Command::QrCancel => CommandView::QrCancel,
            Command::QrStart => CommandView::QrStart,
            Command::Reach { pair, address, code } => CommandView::Reach {
                pair: *pair,
                address: address.deep_view(),
                code: code@,
            },
        }
    }
}

/// The class of members with a name.
pub open spec fn member_named(name: Seq<char>) -> spec_fn((Seq<char>, MemberView)) -> bool {
    |m: (Seq<char>, MemberView)| m.0 == name
}

impl JsonView {
    /// The member with a name, where the value is an object that has one.
    pub open spec fn member(self, name: Seq<char>) -> Option<MemberView> {
        match self {
            JsonView::Object(members) => match lists::first_where(members, member_named(name)) {
                Some(i) => Some(members[i].1),
                None => None,
            },
            _ => None,
        }
    }

    /// The text with a name, where there is one.
    pub open spec fn text_at(self, name: Seq<char>) -> Option<Seq<char>> {
        match self.member(name) {
            Some(MemberView::Text(t)) => Some(t),
            _ => None,
        }
    }

    /// The truth value with a name, where there is one.
    pub open spec fn flag_at(self, name: Seq<char>) -> Option<bool> {
        match self.member(name) {
            Some(MemberView::Bool(b)) => Some(b),
            _ => None,
        }
    }
}

/// The command that a value stands for, or why it stands for none.
pub open spec fn command_in(json: JsonView) -> Result<CommandView, Seq<char>> {
    match json.text_at("op"@) {
        None => Err("Expected a JSON command object"@),
        Some(op) => if op == "select"@ {
            Ok(CommandView::Select(json.text_at("serial"@)))
        } else if op == "enable"@ {
            Ok(CommandView::Enable(json.flag_at("enabled"@)))
        } else if op == "disconnect"@ {
            Ok(CommandView::Disconnect)
        } else if op == "refresh"@ {
            Ok(CommandView::Refresh)
        } else if op == "qr_cancel"@ {
            Ok(CommandView::QrCancel)
        } else if op == "qr_start"@ {
            Ok(CommandView::QrStart)
        } else if op == "pair"@ || op == "connect"@ {
            Ok(
                CommandView::Reach {
                    pair: op == "pair"@,
                    address: json.text_at("address"@),
                    code: match json.text_at("code"@) {
                        Some(code) => code,
                        None => Seq::empty(),
                    },
                },
            )
        } else {
            Err(
                "Unknown command; use refresh, select, enable, disconnect, qr_start, qr_cancel, pair or connect"@,
            )
        },
    }
}

impl Json {
    fn find(&self, name: &str) -> (r: Option<&Member>)
        ensures
            match r {
                Some(m) => self@.member(name@) == Some(m@),
                None => self@.member(name@) is None,
            },
    {
        match self {
            Json::Object(members) => {
                let ghost all = members_view(members@);
                let ghost f = member_named(name@);
                let mut i: usize = 0;
                while i < members.len()
                    invariant
                        i <= members@.len(),
                        *self == Json::Object(*members),
                        all == members_view(members@),
                        f == member_named(name@),
                        forall|j: int| 0 <= j < i ==> !f(#[trigger] all[j]),
                    decreases members@.len() - i,
                {
                    assert(all[i as int] == (members@[i as int].0@, members@[i as int].1@));
                    if text::same(&members[i].0, name) {
                        proof {
                            lists::lemma_is_first(all, f, i as int);
                        }
                        return Some(&members[i].1);
                    }
                    i += 1;
                }
                proof {
                    lists::lemma_none_is_first(all, f);
                }
                None
            },
            _ => None,
        }
    }

    /// The text with a name, where there is one.
    pub fn text(&self, name: &str) -> (r: Option<String>)
        ensures
            r.deep_view() == self@.text_at(name@),
    {
        match self.find(name) {
            Some(Member::Text(t)) => Some(t.clone()),
            _ => None,
        }
    }

    /// The truth value with a name, where there is one.
    pub fn flag(&self, name: &str) -> (r: Option<bool>)
        ensures
            r == self@.flag_at(name@),
    {
        match self.find(name) {
            Some(Member::Bool(b)) => Some(*b),
            _ => None,
        }
    }

    /// The command that the value stands for.
    pub fn command(&self) -> (r: Result<Command, &'static str>)
        ensures
            match r {
                Ok(c) => command_in(self@) == Ok::<CommandView, Seq<char>>(c@),
                Err(e) => command_in(self@) == Err::<CommandView, Seq<char>>(e@),
            },
    {
        let op = match self.text("op") {
            Some(op) => op,
            None => {
                return Err("Expected a JSON command object");
            },
        };
        if text::same(&op, "select") {
            Ok(Command::Select(self.text("serial")))
        } else if text::same(&op, "enable") {
            Ok(Command::Enable(self.flag("enabled")))
        } else if text::same(&op, "disconnect") {
            Ok(Command::Disconnect)
        } else if text::same(&op, "refresh") {
            Ok(Command::Refresh)
        } else if text::same(&op, "qr_cancel") {
            Ok(Command::QrCancel)
        } else if text::same(&op, "qr_start") {
            Ok(Command::QrStart)
        } else if text::same(&op, "pair") || text::same(&op, "connect") {
            let code = match self.text("code") {
                Some(code) => code,
                None => {
                    let none = String::new();
                    assert(none@ =~= Seq::empty());
                    none
                },
            };
            Ok(
                Command::Reach {
                    pair: text::same(&op, "pair"),
                    address: self.text("address"),
                    code,
                },
            )
        } else {
            Err(
                "Unknown command; use refresh, select, enable, disconnect, qr_start, qr_cancel, pair or connect",
            )
        }
    }
}

/// A member of an object is the first with its name, and a text or a truth value is
/// taken only where the member is one.
pub proof fn law_members_are_found_by_name(
    members: Seq<(Seq<char>, MemberView)>,
    name: Seq<char>,
    i: int,
)
    requires
        0 <= i < members.len(),
        members[i].0 == name,
        forall|j: int| 0 <= j < i ==> (#[trigger] members[j]).0 != name,
    ensures
        ({
            let json = JsonView::Object(members);
            &&& json.text_at(name) == match members[i].1 {
                MemberView::Text(t) => Some(t),
                _ => None,
            }
            &&& json.flag_at(name) == match members[i].1 {
                MemberView::Bool(b) => Some(b),
                _ => None,
            }
        }),
{
    lists::lemma_is_first(members, member_named(name), i);
}

/// What is no object, or has no member of a name, has no text and no truth value there.
pub proof fn law_missing_members(json: JsonView, name: Seq<char>)
    requires
        json matches JsonView::Object(members) ==> forall|j: int|
            0 <= j < members.len() ==> (#[trigger] members[j]).0 != name,
    ensures
        json.text_at(name) is None,
        json.flag_at(name) is None,
{
    if let JsonView::Object(members) = json {
        lists::lemma_none_is_first(members, member_named(name));
    }
}

/// A command is told by its `op`, and takes what it needs from the members beside it.
pub proof fn law_commands_are_told_by_their_op(json: JsonView)
    ensures
        json.text_at("op"@) is None ==> command_in(json) == Err::<CommandView, Seq<char>>(
            "Expected a JSON command object"@,
        ),
        json.text_at("op"@) == Some("select"@) ==> command_in(json) == Ok::<
            CommandView,
            Seq<char>,
        >(CommandView::Select(json.text_at("serial"@))),
        json.text_at("op"@) == Some("enable"@) ==> command_in(json) == Ok::<
            CommandView,
            Seq<char>,
        >(CommandView::Enable(json.flag_at("enabled"@))),
        json.text_at("op"@) == Some("disconnect"@) ==> command_in(json) == Ok::<
            CommandView,
            Seq<char>,
        >(CommandView::Disconnect),
        json.text_at("op"@) == Some("refresh"@) ==> command_in(json) == Ok::<
            CommandView,
            Seq<char>,
        >(CommandView::Refresh),
        json.text_at("op"@) == Some("qr_cancel"@) ==> command_in(json) == Ok::<
            CommandView,
            Seq<char>,
        >(CommandView::QrCancel),
        json.text_at("op"@) == Some("qr_start"@) ==> command_in(json) == Ok::<
            CommandView,
            Seq<char>,
        >(CommandView::QrStart),
        json.text_at("op"@) == Some("pair"@) ==> command_in(json) == Ok::<CommandView, Seq<char>>(
            CommandView::Reach {
                pair: true,
                address: json.text_at("address"@),
                code: match json.text_at("code"@) {
                    Some(c) => c,
                    None => Seq::empty(),
                },
            },
        ),
        json.text_at("op"@) == Some("connect"@) ==> command_in(json) == Ok::<
            CommandView,
            Seq<char>,
        >(
            CommandView::Reach {
                pair: false,
                address: json.text_at("address"@),
                code: match json.text_at("code"@) {
                    Some(c) => c,
                    None => Seq::empty(),
                },
            },
        ),
        json.text_at("op"@) matches Some(op) ==> op != "select"@ && op != "enable"@ && op
            != "disconnect"@ && op != "refresh"@ && op != "qr_cancel"@ && op != "qr_start"@ && op
            != "pair"@ && op != "connect"@ ==> command_in(json) == Err::<CommandView, Seq<char>>(
            "Unknown command; use refresh, select, enable, disconnect, qr_start, qr_cancel, pair or connect"@,
        ),
        MAX_COMMAND == 8192,
{
    reveal_strlit("select");
    reveal_strlit("enable");
    reveal_strlit("disconnect");
    reveal_strlit("refresh");
    reveal_strlit("qr_cancel");
    reveal_strlit("qr_start");
    reveal_strlit("pair");
    reveal_strlit("connect");
    assert("select"@[0] == 's' && "enable"@[0] == 'e' && "disconnect"@[0] == 'd' && "refresh"@[0]
        == 'r' && "qr_cancel"@[3] == 'c' && "qr_start"@[3] == 's' && "qr_cancel"@[0] == 'q'
        && "qr_start"@[0] == 'q' && "pair"@[0] == 'p' && "connect"@[0] == 'c');
}

} // verus!
