//! What the command line decides: which command a word names, what an
//! action is called, and whether the server may start.

use vstd::prelude::*;
use crate::info::{api_host, api_port, api_port_of, default_api_host};
use crate::tcp::ErrorResponse;
use crate::text::{chars_of, concat, decimal, find_from, lemma_offset_found, offset_of, str_eq,
    string_of_range, u64_to_string};

verus! {

/// The kinds of eggs that the list can show.
#[derive(Debug, PartialEq, Eq, Structural, Clone, Copy)]
pub enum EggKind {
    Eggs,
    Plugins,
}

impl EggKind {
    /// The kind as the control plane's parameter `kind` names it.
    pub open spec fn name(self) -> Seq<char> {
        match self {
            EggKind::Eggs => "eggs"@,
            EggKind::Plugins => "plugins"@,
        }
    }

    /// The kind as the list shows it.
    pub open spec fn display_name(self) -> Seq<char> {
        match self {
            EggKind::Eggs => "⬮"@,
            EggKind::Plugins => "plugin"@,
        }
    }

    /// The kind as the control plane's parameter `kind` names it.
    pub fn as_str(&self) -> (r: &'static str)
        ensures
            r@ == self.name(),
    {
        match self {
            EggKind::Eggs => "eggs",
            EggKind::Plugins => "plugins",
        }
    }

    /// The kind as the list shows it.
    pub fn as_display_str(&self) -> (r: &'static str)
        ensures
            r@ == self.display_name(),
    {
        match self {
            EggKind::Eggs => "⬮",
            EggKind::Plugins => "plugin",
        }
    }
}

/// What is asked of an egg from the command line.
#[derive(Debug, PartialEq, Eq, Structural, Clone, Copy)]
pub enum StopStartAction {
    Stop,
    Start,
    Remove,
    Restart,
}

/// The words for an action: what it is called, in the route and in
/// messages.
#[derive(Debug)]
pub struct Strings {
    pub action: &'static str,
    pub doing_action: &'static str,
    pub past_action: &'static str,
}

/// The word for an action, which is also the end of its route.
pub open spec fn action_name(action: StopStartAction) -> Seq<char> {
    match action {
        StopStartAction::Start => "start"@,
        StopStartAction::Stop => "stop"@,
        StopStartAction::Remove => "remove"@,
        StopStartAction::Restart => "restart"@,
    }
}

/// The word for an action while it is under way.
pub open spec fn doing_name(action: StopStartAction) -> Seq<char> {
    match action {
        StopStartAction::Start => "starting"@,
        StopStartAction::Stop => "stopping"@,
        StopStartAction::Remove => "removing"@,
        StopStartAction::Restart => "restarting"@,
    }
}

/// The word for an action once it is done.
pub open spec fn past_name(action: StopStartAction) -> Seq<char> {
    match action {
        StopStartAction::Start => "started"@,
        StopStartAction::Stop => "stopped"@,
        StopStartAction::Remove => "removed"@,
        StopStartAction::Restart => "restarted"@,
    }
}

/// The words for an action.
pub fn get_strings(action: StopStartAction) -> (r: Strings)
    ensures
        r.action@ == action_name(action),
        r.doing_action@ == doing_name(action),
        r.past_action@ == past_name(action),
{
    match action {
        StopStartAction::Start => Strings {
            action: "start",
            doing_action: "starting",
            past_action: "started",
        },
        StopStartAction::Stop => Strings {
            action: "stop",
            doing_action: "stopping",
            past_action: "stopped",
        },
        StopStartAction::Remove => Strings {
            action: "remove",
            doing_action: "removing",
            past_action: "removed",
        },
        StopStartAction::Restart => Strings {
            action: "restart",
            doing_action: "restarting",
            past_action: "restarted",
        },
    }
}

/// The path under `/eggs` on which an action is asked of the egg that
/// `token` names.
pub open spec fn action_route(token: Seq<char>, action: StopStartAction) -> Seq<char> {
    "/"@ + token + "/"@ + action_name(action)
}

/// The path under `/eggs` on which an action is asked of an egg.
pub fn route_for_action(token: &str, action: StopStartAction) -> (r: String)
    ensures
        r@ == action_route(token@, action),
{
    let a = concat("/", token);
    let b = concat(a.as_str(), "/");
    concat(b.as_str(), get_strings(action).action)
}

/// Whether an argument is an option or a flag: it begins with `-`.
pub fn is_option_or_flag(arg: &str) -> (r: bool)
    ensures
        r == (arg@.len() > 0 && arg@[0] == '-'),
{
    let v = chars_of(arg);
    v.len() > 0 && v[0] == '-'
}

/// How the command line ended: a command was carried out, or the server
/// is to run.
#[derive(Debug, PartialEq, Eq, Structural, Clone, Copy)]
pub enum DispatchResult {
    Dispatched,
    Server,
}

/// The commands of the command line.
#[derive(Debug, PartialEq, Eq, Structural, Clone, Copy)]
pub enum Subcommand {
    Server,
    List,
    Action(StopStartAction),
    Collect,
    /// No command was given: help or the version is shown.
    Default,
    /// The word names no command.
    Unknown,
}

/// The command that a word names.
pub open spec fn subcommand_named(word: Option<Seq<char>>) -> Subcommand {
    match word {
        None => Subcommand::Default,
        Some(w) => if w == "server"@ || w == "s"@ {
            Subcommand::Server
        } else if w == "list"@ || w == "l"@ || w == "ls"@ || w == "snaps"@ {
            Subcommand::List
        } else if w == "stop"@ {
            Subcommand::Action(StopStartAction::Stop)
        } else if w == "start"@ {
            Subcommand::Action(StopStartAction::Start)
        } else if w == "remove"@ {
            Subcommand::Action(StopStartAction::Remove)
        } else if w == "restart"@ {
            Subcommand::Action(StopStartAction::Restart)
        } else if w == "collect"@ {
            Subcommand::Collect
        } else {
            Subcommand::Unknown
        },
    }
}

/// The command that the first free argument of the command line names.
pub fn subcommand_of(word: Option<&str>) -> (r: Subcommand)
    ensures
        r == subcommand_named(
            match word {
                Some(w) => Some(w@),
                None => None,
            },
        ),
{
    let w = match word {
        Some(w) => w,
        None => {
            return Subcommand::Default;
        },
    };
    if str_eq(w, "server") || str_eq(w, "s") {
        Subcommand::Server
    } else if str_eq(w, "list") || str_eq(w, "l") || str_eq(w, "ls") || str_eq(w, "snaps") {
        Subcommand::List
    } else if str_eq(w, "stop") {
        Subcommand::Action(StopStartAction::Stop)
    } else if str_eq(w, "start") {
        Subcommand::Action(StopStartAction::Start)
    } else if str_eq(w, "remove") {
        Subcommand::Action(StopStartAction::Remove)
    } else if str_eq(w, "restart") {
        Subcommand::Action(StopStartAction::Restart)
    } else if str_eq(w, "collect") {
        Subcommand::Collect
    } else {
        Subcommand::Unknown
    }
}

/// What is said of a word that names no command.
pub fn unknown_command_message(word: &str) -> (r: String)
    ensures
        r@ == "Invalid usage | Command '"@ + word@ + "' not recognized"@,
{
    let a = concat("Invalid usage | Command '", word);
    concat(a.as_str(), "' not recognized")
}

/// How the command line ends once the command is known: the server runs
/// where it was asked for without help; everything else is carried out at
/// once.
pub fn dispatch_result(command: Subcommand, wants_help: bool) -> (r: DispatchResult)
    ensures
        r == (if command == Subcommand::Server && !wants_help {
            DispatchResult::Server
        } else {
            DispatchResult::Dispatched
        }),
{
    match command {
        Subcommand::Server => if wants_help {
            DispatchResult::Dispatched
        } else {
            DispatchResult::Server
        },
        _ => DispatchResult::Dispatched,
    }
}

/// Whether the application may run as a server: the flag `--force` was
/// given, or the environment holds `true` under `KURV_SERVER`.
pub fn can_run_as_server(force: bool, server_var: Option<&str>) -> (r: bool)
    ensures
        r == (force || (server_var matches Some(v) && v@ == "true"@)),
{
    if force {
        return true;
    }
    match server_var {
        Some(v) => str_eq(v, "true"),
        None => false,
    }
}

/// The signals that can be sent to a process.
#[derive(Debug, PartialEq, Eq, Structural, Clone, Copy)]
pub enum Signal {
    SigInt,
    SigKill,
    SigTerm,
    SigCont,
    SigStop,
}

/// What the control plane sent back, taken apart.
#[derive(Debug)]
pub struct ApiResponse {
    pub headers: String,
    pub body: String,
}

/// What ends the head of an answer.
pub open spec fn head_end() -> Seq<char> {
    "\r\n\r\n"@
}

/// The head of an answer: what stands before the first empty line.
pub open spec fn response_headers(text: Seq<char>) -> Seq<char> {
    text.take(offset_of(text, head_end()))
}

/// What follows the first empty line of an answer.
pub open spec fn after_headers(text: Seq<char>) -> Seq<char> {
    if offset_of(text, head_end()) < text.len() {
        text.skip(offset_of(text, head_end()) + head_end().len())
    } else {
        Seq::empty()
    }
}

/// The body of an answer: what stands between its first and its second
/// empty line, or behind its first where there is one only.
pub open spec fn response_body(text: Seq<char>) -> Seq<char> {
    after_headers(text).take(offset_of(after_headers(text), head_end()))
}

/// Takes an answer apart into its head and its body.
pub fn split_response(text: &str) -> (r: ApiResponse)
    ensures
        r.headers@ == response_headers(text@),
        r.body@ == response_body(text@),
{
    let v = chars_of(text);
    let end = chars_of("\r\n\r\n");
    proof {
        reveal_strlit("\r\n\r\n");
        assert(v@.skip(0) =~= v@);
    }
    let head = find_from(&v, 0, &end);
    let headers = string_of_range(&v, 0, head);
    assert(v@.subrange(0, head as int) =~= v@.take(head as int));
    if head >= v.len() {
        proof {
            assert(Seq::<char>::empty().take(0) =~= Seq::<char>::empty());
            assert(offset_of(Seq::<char>::empty(), head_end()) == 0);
        }
        return ApiResponse { headers, body: String::new() };
    }
    proof {
        lemma_offset_found(v@, head_end());
    }
    let start: usize = head + 4;
    let len = find_from(&v, start, &end);
    let body = string_of_range(&v, start, start + len);
    assert(v@.subrange(start as int, start + len) =~= v@.skip(start as int).take(len as int));
    ApiResponse { headers, body }
}

/// What the body of an answer of the control plane held: what was asked
/// for, or an error.
#[derive(Debug)]
pub enum ParsedResponse<T> {
    Success(T),
    Failure(ErrorResponse),
}

/// The client of the control plane.
#[derive(Debug)]
pub struct Api {
    pub host: String,
    pub port: u16,
}

/// The request that the client writes: the request line, the host, the
/// length of the body where there is one, and the body.
pub open spec fn request_text(method: Seq<char>, path: Seq<char>, host: Seq<char>, body: Option<Seq<char>>, body_len: nat) -> Seq<char> {
    method + " "@ + path + " HTTP/1.1\r\nHost: "@ + host + "\r\n"@ + (match body {
        Some(b) => "Content-Length: "@ + decimal(body_len) + "\r\n\r\n"@ + b,
        None => "\r\n"@,
    }) + "\r\n"@
}

impl Api {
    /// The client for the control plane at the address that the
    /// environment names under `KURV_API_HOST` and `KURV_API_PORT`, or at
    /// the default address.
    pub fn at(host_var: Option<String>, port_var: Option<&str>) -> (r: Api)
        ensures
            r.host@ == (match host_var {
                Some(h) => h@,
                None => default_api_host(),
            }),
            r.port == api_port_of(
                match port_var {
                    Some(t) => Some(t@),
                    None => None,
                },
            ),
    {
        Api { host: api_host(host_var), port: api_port(port_var) }
    }

    /// The address at which the client connects.
    pub fn address(&self) -> (r: String)
        ensures
            r@ == self.host@ + ":"@ + decimal(self.port as nat),
    {
        let a = concat(self.host.as_str(), ":");
        let p = u64_to_string(self.port as u64);
        concat(a.as_str(), p.as_str())
    }

    /// The text of a request of the client. The length that is announced
    /// for the body is its length in bytes.
    pub fn request_text(&self, method: &str, path: &str, body: Option<&str>) -> (r: String)
        ensures
            r@ == request_text(
                method@,
                path@,
                self.host@,
                match body {
                    Some(b) => Some(b@),
                    None => None,
                },
                match body {
                    Some(b) => vstd::utf8::encode_utf8(b@).len(),
                    None => 0,
                },
            ),
    {
        let a = concat(method, " ");
        let b = concat(a.as_str(), path);
        let c = concat(b.as_str(), " HTTP/1.1\r\nHost: ");
        let d = concat(c.as_str(), self.host.as_str());
        let e = concat(d.as_str(), "\r\n");
        let tail = match body {
            Some(text) => {
                let n = u64_to_string(text.as_bytes().len() as u64);
                let x = concat("Content-Length: ", n.as_str());
                let y = concat(x.as_str(), "\r\n\r\n");
                concat(y.as_str(), text)
            },
            None => "\r\n".to_string(),
        };
        let f = concat(e.as_str(), tail.as_str());
        concat(f.as_str(), "\r\n")
    }
}

} // verus!
