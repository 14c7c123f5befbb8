//! The control plane: which handler answers a request, and what each
//! handler does to the eggs.

use vstd::prelude::*;
use crate::clock::{now, Moment};
use crate::duration::{humanize_duration, humanized};
use crate::egg::{Egg, EggStatus, EggView};
use crate::info::Info;
use crate::kurv::{errored_have_no_pid, has_egg, running_are_kept, workers_belong};
use crate::state::{insertion_point, lemma_insertion_point_splits, store_wf};
use crate::workers::{has_entry, WorkerView};
use crate::state::{collected, contains_name, index_of_id, lemma_first_where, lemma_update_keeps_wf, of_kind,
    resolve_token, views, KurvState, StoreError};
use crate::strmap::{map_of_texts, pairs_view, StrMap};
use crate::tcp::{status_text, ErrorResponse, Request};
use crate::text::{concat, str_eq};

verus! {

/// What answers a request.
#[derive(Clone, Copy, Debug, PartialEq, Eq, Structural)]
pub enum Route {
    /// What the application knows of itself.
    Status,
    /// The list of the eggs.
    Summary,
    /// A new egg.
    Collect,
    Stop,
    Start,
    Restart,
    Remove,
    /// New environment variables, laid over those of the egg.
    MergeEnv,
    /// New environment variables, in place of those of the egg.
    ReplaceEnv,
    /// One egg.
    Get,
    /// No route fits the request.
    NotAllowed,
}

/// One line of the routing table: a method, a pattern for the path, and
/// what answers.
#[derive(Debug)]
pub struct RouteDef {
    pub method: String,
    pub path: String,
    pub route: Route,
}

/// The routing table, in the order in which its lines are tried.
pub open spec fn route_table() -> Seq<(Seq<char>, Seq<char>, Route)> {
    seq![
        ("GET"@, "/"@, Route::Status),
        ("GET"@, "/status"@, Route::Status),
        ("GET"@, "/eggs"@, Route::Summary),
        ("POST"@, "/eggs"@, Route::Collect),
        ("POST"@, "/eggs/(?P<egg_id>.*)/stop"@, Route::Stop),
        ("POST"@, "/eggs/(?P<egg_id>.*)/start"@, Route::Start),
        ("POST"@, "/eggs/(?P<egg_id>.*)/restart"@, Route::Restart),
        ("POST"@, "/eggs/(?P<egg_id>.*)/remove"@, Route::Remove),
        ("PATCH"@, "/eggs/(?P<egg_id>.*)/env"@, Route::MergeEnv),
        ("PUT"@, "/eggs/(?P<egg_id>.*)/env"@, Route::ReplaceEnv),
        ("GET"@, "/eggs/(?P<egg_id>.*)"@, Route::Get),
    ]
}

/// What the lines of a routing table say.
pub open spec fn route_defs_view(defs: Seq<RouteDef>) -> Seq<(Seq<char>, Seq<char>, Route)> {
    defs.map_values(|d: RouteDef| (d.method@, d.path@, d.route))
}

/// The pattern that a line of the routing table stands for: the method, a
/// space and the path, with or without a slash at the end, and nothing
/// before or after.
pub open spec fn route_pattern(method: Seq<char>, path: Seq<char>) -> Seq<char> {
    "^"@ + method + " "@ + path + "/?$"@
}

/// What a request is matched by: its method, a space, and its path.
pub open spec fn route_text(method: Seq<char>, path: Seq<char>) -> Seq<char> {
    method + " "@ + path
}

/// What `regex_lite` finds of a pattern in a text: nothing where the
/// pattern does not compile or does not match; else, for every named group
/// of the pattern in the order of `Regex::capture_names`, the name and what
/// the first match captured under it, or nothing where the group took no
/// part in the match.
pub uninterp spec fn regex_captures(pattern: Seq<char>, text: Seq<char>) -> Option<
    Seq<(Seq<char>, Option<Seq<char>>)>,
>;

/// What the names and captures of a match hold.
pub open spec fn captures_view(found: Seq<(String, Option<String>)>) -> Seq<(Seq<char>, Option<Seq<char>>)> {
    found.map_values(
        |p: (String, Option<String>)|
            (
                p.0@,
                match p.1 {
                    Some(v) => Some(v@),
                    None => None,
                },
            ),
    )
}

/// Matches `text` against `pattern`: compiles the pattern with
/// `regex_lite::Regex::new`, takes the first match with `captures`, and
/// reads the named groups with `capture_names` and `Captures::name`.
#[verifier::external_body]
pub(crate) fn match_pattern(pattern: &str, text: &str) -> (r: Option<Vec<(String, Option<String>)>>)
    ensures
        (match r {
            Some(found) => Some(captures_view(found@)),
            None => None,
        }) == regex_captures(pattern@, text@),
{
    let re = regex_lite::Regex::new(pattern).ok()?;
    let caps = re.captures(text)?;
    let mut found = Vec::new();
    for name in re.capture_names().flatten() {
        let value = match caps.name(name) {
            Some(m) => Some(m.as_str().to_string()),
            None => None,
        };
        found.push((name.to_string(), value));
    }
    Some(found)
}

/// The text that stands for a capture: what was captured, and the empty
/// text for a group that took no part in the match.
pub open spec fn capture_text(captured: Option<Seq<char>>) -> Seq<char> {
    match captured {
        Some(v) => v,
        None => Seq::empty(),
    }
}

/// The parameters that the captures of a match give, in their order: each
/// name with the text that stands for its capture.
pub open spec fn captured_texts(found: Seq<(Seq<char>, Option<Seq<char>>)>) -> Seq<(Seq<char>, Seq<char>)> {
    found.map_values(|p: (Seq<char>, Option<Seq<char>>)| (p.0, capture_text(p.1)))
}

/// Turns the captures of a match into parameters: each name with what was
/// captured under it, and with the empty text where nothing was.
pub fn captured_pairs(found: Vec<(String, Option<String>)>) -> (r: Vec<(String, String)>)
    ensures
        pairs_view(r@) == captured_texts(captures_view(found@)),
{
    let ghost all = found@;
    let mut out: Vec<(String, String)> = Vec::new();
    proof {
        assert(pairs_view(out@) =~= captured_texts(captures_view(all.take(0))));
    }
    for pair in it: found
        invariant
            it.seq() == all,
            pairs_view(out@) == captured_texts(captures_view(all.take(it.index() as int))),
    {
        let ghost i = it.index();
        let ghost out_before = out@;
        let (name, captured) = pair;
        let value = match captured {
            Some(v) => v,
            None => String::new(),
        };
        out.push((name, value));
        proof {
            let want = captured_texts(captures_view(all.take(i + 1)));
            let had = captured_texts(captures_view(all.take(i as int)));
            assert(pair == all[i as int]);
            assert(had.len() == i);
            assert(pairs_view(out_before).len() == out_before.len());
            assert(want.len() == i + 1);
            assert forall|k: int| 0 <= k < i + 1 implies pairs_view(out@)[k] == want[k] by {
                if k < i {
                    assert(out@[k] == out_before[k]);
                    assert(pairs_view(out_before)[k] == had[k]);
                    assert(all.take(i + 1)[k] == all.take(i as int)[k]);
                } else {
                    assert(all.take(i + 1)[k] == pair);
                }
            }
            assert(pairs_view(out@) =~= want);
        }
    }
    proof {
        assert(all.take(all.len() as int) =~= all);
    }
    out
}

/// The first line of the table from `from` on that matches the text.
pub open spec fn first_route(table: Seq<(Seq<char>, Seq<char>, Route)>, text: Seq<char>, from: int) -> Option<
    int,
>
    decreases table.len() - from,
{
    if from < 0 || from >= table.len() {
        None
    } else if regex_captures(route_pattern(table[from].0, table[from].1), text) is Some {
        Some(from)
    } else {
        first_route(table, text, from + 1)
    }
}

/// The route that answers a request with the given method and path: that
/// of the first line of the table that matches, and `NotAllowed` where
/// none does.
pub open spec fn route_of(method: Seq<char>, path: Seq<char>) -> Route {
    match first_route(route_table(), route_text(method, path), 0) {
        Some(i) => route_table()[i].2,
        None => Route::NotAllowed,
    }
}

/// The parameters that the path of a request gives: what the first line
/// of the table that matches captured by name, with the empty text for a
/// group that took no part.
pub open spec fn path_params_of(method: Seq<char>, path: Seq<char>) -> Map<Seq<char>, Seq<char>> {
    match first_route(route_table(), route_text(method, path), 0) {
        Some(i) => map_of_texts(
            captured_texts(
                regex_captures(
                    route_pattern(route_table()[i].0, route_table()[i].1),
                    route_text(method, path),
                )->0,
            ),
        ),
        None => Map::empty(),
    }
}

/// The router of the control plane.
pub struct Router {}

impl Router {
    fn def(method: &str, path: &str, route: Route) -> (r: RouteDef)
        ensures
            r.method@ == method@,
            r.path@ == path@,
            r.route == route,
    {
        RouteDef { method: method.to_string(), path: path.to_string(), route }
    }

    /// The routing table.
    pub fn routes(&self) -> (r: Vec<RouteDef>)
        ensures
            route_defs_view(r@) == route_table(),
    {
        let mut r: Vec<RouteDef> = Vec::new();
        r.push(Self::def("GET", "/", Route::Status));
        r.push(Self::def("GET", "/status", Route::Status));
        r.push(Self::def("GET", "/eggs", Route::Summary));
        r.push(Self::def("POST", "/eggs", Route::Collect));
        r.push(Self::def("POST", "/eggs/(?P<egg_id>.*)/stop", Route::Stop));
        r.push(Self::def("POST", "/eggs/(?P<egg_id>.*)/start", Route::Start));
        r.push(Self::def("POST", "/eggs/(?P<egg_id>.*)/restart", Route::Restart));
        r.push(Self::def("POST", "/eggs/(?P<egg_id>.*)/remove", Route::Remove));
        r.push(Self::def("PATCH", "/eggs/(?P<egg_id>.*)/env", Route::MergeEnv));
        r.push(Self::def("PUT", "/eggs/(?P<egg_id>.*)/env", Route::ReplaceEnv));
        r.push(Self::def("GET", "/eggs/(?P<egg_id>.*)", Route::Get));
        proof {
            assert(route_defs_view(r@) =~= route_table());
        }
        r
    }

    /// Finds what answers the request: the route of the first line of the
    /// table whose pattern matches the request's method and path. What the
    /// pattern captured by name is put among the parameters of the
    /// request's path.
    pub fn resolve(&self, request: &mut Request) -> (route: Route)
        ensures
            route == route_of(old(request).method@, old(request).path@),
            final(request).path_params@ == old(request).path_params@.union_prefer_right(
                path_params_of(old(request).method@, old(request).path@),
            ),
            final(request).method == old(request).method,
            final(request).path == old(request).path,
            final(request).version == old(request).version,
            final(request).headers == old(request).headers,
            final(request).body == old(request).body,
            final(request).query_params == old(request).query_params,
    {
        let table = self.routes();
        let a = concat(request.method.as_str(), " ");
        let text = concat(a.as_str(), request.path.as_str());
        let mut i: usize = 0;
        while i < table.len()
            invariant
                i <= table@.len(),
                route_defs_view(table@) == route_table(),
                text@ == route_text(request.method@, request.path@),
                *request == *old(request),
                first_route(route_table(), text@, 0) == first_route(route_table(), text@, i as int),
            decreases table@.len() - i,
        {
            let a = concat("^", table[i].method.as_str());
            let b = concat(a.as_str(), " ");
            let c = concat(b.as_str(), table[i].path.as_str());
            let pattern = concat(c.as_str(), "/?$");
            proof {
                assert(route_defs_view(table@)[i as int] == (
                    table@[i as int].method@,
                    table@[i as int].path@,
                    table@[i as int].route,
                ));
            }
            match match_pattern(pattern.as_str(), text.as_str()) {
                Some(found) => {
                    let captured = StrMap::from_pairs(captured_pairs(found));
                    request.path_params.merge(&captured);
                    return table[i].route;
                },
                None => {},
            }
            i += 1;
        }
        proof {
            assert(request.path_params@.union_prefer_right(Map::<Seq<char>, Seq<char>>::empty())
                =~= request.path_params@);
        }
        Route::NotAllowed
    }
}

/// One line of the list of eggs.
#[derive(Debug)]
pub struct EggSummary {
    pub id: usize,
    pub pid: u32,
    pub name: String,
    pub status: EggStatus,
    pub uptime: String,
    pub retry_count: u32,
}

/// What a line of the list of eggs says.
pub struct EggSummaryView {
    pub id: usize,
    pub pid: u32,
    pub name: Seq<char>,
    pub status: EggStatus,
    pub uptime: Seq<char>,
    pub retry_count: u32,
}

impl View for EggSummary {
    type V = EggSummaryView;

    open spec fn view(&self) -> EggSummaryView {
        EggSummaryView {
            id: self.id,
            pid: self.pid,
            name: self.name@,
            status: self.status,
            uptime: self.uptime@,
            retry_count: self.retry_count,
        }
    }
}

/// The list of eggs.
#[derive(Debug)]
pub struct EggsSummaryList(pub Vec<EggSummary>);

impl View for EggsSummaryList {
    type V = Seq<EggSummaryView>;

    open spec fn view(&self) -> Seq<EggSummaryView> {
        self.0@.map_values(|s: EggSummary| s@)
    }
}

/// What the list says of an egg at `at`: an egg without an id or a state
/// is listed with zeros and as pending, one without a start time with `-`
/// as its uptime.
pub open spec fn summary_of(e: EggView, at: Moment) -> EggSummaryView {
    EggSummaryView {
        id: match e.id {
            Some(id) => id,
            None => 0,
        },
        pid: e.state_or_fresh().pid,
        name: e.name,
        status: e.state_or_fresh().status,
        uptime: match e.state_or_fresh().start_time {
            Some(t) => humanized(at.whole_seconds_after(t) as nat),
            None => "-"@,
        },
        retry_count: e.state_or_fresh().try_count,
    }
}

/// Whether a request asks for the plugins: its parameter `kind` is
/// `plugins`.
pub open spec fn wants_plugins(request: Request) -> bool {
    request.query_params@.contains_key("kind"@) && request.query_params@["kind"@] == "plugins"@
}

/// The list of the given eggs at `at`.
pub open spec fn summaries_of(eggs: Seq<EggView>, at: Moment) -> Seq<EggSummaryView> {
    Seq::new(eggs.len(), |i: int| summary_of(eggs[i], at))
}

/// What a handler hands back to be written as JSON.
#[derive(Debug)]
pub enum Payload {
    Info(Info),
    Summary(EggsSummaryList),
    Egg(Egg),
    Failure(ErrorResponse),
}

/// The answer of a handler: a status code and what is to be written.
#[derive(Debug)]
pub struct Reply {
    pub status: u16,
    pub payload: Payload,
}

impl Reply {
    /// Whether the answer reports the error of the given code with the
    /// given message.
    pub open spec fn is_failure(self, code: u16, message: Seq<char>) -> bool {
        &&& self.status == code
        &&& self.payload matches Payload::Failure(f)
        &&& f.code == code
        &&& f.status@ == status_text(code)
        &&& f.message@ == message
    }

    /// Whether the answer is the given egg, with the code 200.
    pub open spec fn is_egg(self, e: EggView) -> bool {
        &&& self.status == 200
        &&& self.payload matches Payload::Egg(egg)
        &&& egg@ == e
    }

    /// The answer that reports an error.
    pub fn failure(code: u16, message: String) -> (r: Reply)
        ensures
            r.is_failure(code, message@),
    {
        Reply { status: code, payload: Payload::Failure(ErrorResponse::new(code, message)) }
    }

    /// The answer that hands an egg back.
    pub fn egg(egg: Egg) -> (r: Reply)
        ensures
            r.is_egg(egg@),
    {
        Reply { status: 200, payload: Payload::Egg(egg) }
    }
}

/// The name of the parameter that holds the token of an egg.
pub open spec fn egg_id_param() -> Seq<char> {
    "egg_id"@
}

/// What is answered where a request names no egg.
pub open spec fn wrong_id_msg() -> Seq<char> {
    "missing or invalid egg id"@
}

/// What is answered where no egg fits the token.
pub open spec fn not_found_msg(token: Seq<char>) -> Seq<char> {
    "egg not found: "@ + token
}

/// What is answered where a plugin is to be removed.
pub open spec fn cannot_remove_msg() -> Seq<char> {
    "plugins cannot be removed via API"@
}

/// What is answered where the body of a request is no map of texts.
pub open spec fn invalid_env_msg(message: Seq<char>) -> Seq<char> {
    "Invalid env: "@ + message
}

/// What is answered where no route fits.
pub open spec fn not_allowed_msg() -> Seq<char> {
    "The method specified in the request is not allowed."@
}

/// The name of a status.
pub open spec fn status_name(status: EggStatus) -> Seq<char> {
    match status {
        EggStatus::Pending => "Pending"@,
        EggStatus::Running => "Running"@,
        EggStatus::Stopped => "Stopped"@,
        EggStatus::PendingRemoval => "PendingRemoval"@,
        EggStatus::Errored => "Errored"@,
        EggStatus::Restarting => "Restarting"@,
    }
}

/// The name of a status.
pub fn status_str(status: EggStatus) -> (r: &'static str)
    ensures
        r@ == status_name(status),
{
    match status {
        EggStatus::Pending => "Pending",
        EggStatus::Running => "Running",
        EggStatus::Stopped => "Stopped",
        EggStatus::PendingRemoval => "PendingRemoval",
        EggStatus::Errored => "Errored",
        EggStatus::Restarting => "Restarting",
    }
}

/// The position of the egg that a token stands for.
pub open spec fn token_target(s: Seq<EggView>, token: Seq<char>) -> Option<int> {
    match resolve_token(s, token) {
        Some(id) => index_of_id(s, id),
        None => None,
    }
}

/// Why the status of the egg `e` may not be set to `status` through the
/// control plane, as a status code and a message: an egg is only started
/// from `Stopped` or without a state, a plugin is not removed, and no egg
/// is set to `Running` or `Errored`.
pub open spec fn refusal(e: EggView, status: EggStatus) -> Option<(u16, Seq<char>)> {
    match status {
        EggStatus::Pending => if e.state matches Some(st) && st.status != EggStatus::Stopped {
            Some((400u16, "egg "@ + e.name + " is already running"@))
        } else {
            None
        },
        EggStatus::PendingRemoval => if e.is_plugin() {
            Some((403u16, cannot_remove_msg()))
        } else {
            None
        },
        EggStatus::Stopped | EggStatus::Restarting => None,
        EggStatus::Running | EggStatus::Errored => Some(
            (400u16, "can't change status to '"@ + status_name(status) + "'"@),
        ),
    }
}

/// What `serde_json::from_str` reads from a text as a JSON object of
/// texts: its pairs in the order of their keys, or the message of its
/// error.
pub uninterp spec fn json_text_map(body: Seq<char>) -> Result<Seq<(Seq<char>, Seq<char>)>, Seq<char>>;

/// Reads a JSON object whose values are texts with `serde_json::from_str`,
/// into a map ordered by key: the result holds its pairs in that order, or
/// the error as `to_string` writes it.
#[verifier::external_body]
pub(crate) fn parse_text_map(body: &str) -> (r: Result<Vec<(String, String)>, String>)
    ensures
        (match r {
            Ok(pairs) => Ok(pairs_view(pairs@)),
            Err(message) => Err(message@),
        }) == json_text_map(body@),
{
    match serde_json::from_str::<std::collections::BTreeMap<String, String>>(body) {
        Ok(map) => Ok(map.into_iter().collect()),
        Err(e) => Err(e.to_string()),
    }
}

/// The environment of an egg once the variables of a request were put
/// into it: in place of what was there, or laid over it.
pub open spec fn updated_env(
    env: Option<Map<Seq<char>, Seq<char>>>,
    given: Map<Seq<char>, Seq<char>>,
    replace: bool,
) -> Map<Seq<char>, Seq<char>> {
    if replace {
        given
    } else {
        (match env {
            Some(m) => m,
            None => Map::empty(),
        }).union_prefer_right(given)
    }
}

/// Setting a status through the control plane starts no egg: what holds
/// of running eggs and of the workers stays.
pub proof fn lemma_status_change_keeps(s: Seq<EggView>, w: Seq<WorkerView>, i: int, status: EggStatus)
    requires
        0 <= i < s.len(),
        refusal(s[i], status) is None,
    ensures
        running_are_kept(s, w) ==> running_are_kept(s.update(i, s[i].with_status(status)), w),
        workers_belong(s, w) ==> workers_belong(s.update(i, s[i].with_status(status)), w),
        errored_have_no_pid(s) ==> errored_have_no_pid(s.update(i, s[i].with_status(status))),
{
    let e2 = s[i].with_status(status);
    lemma_same_egg_keeps(s, w, i, e2);
}

/// Changing the environment of an egg leaves what holds of running eggs
/// and of the workers.
pub proof fn lemma_env_change_keeps(
    s: Seq<EggView>,
    w: Seq<WorkerView>,
    i: int,
    env: Map<Seq<char>, Seq<char>>,
)
    requires
        0 <= i < s.len(),
    ensures
        running_are_kept(s, w) ==> running_are_kept(
            s.update(i, EggView { env: Some(env), synced: false, ..s[i] }),
            w,
        ),
        workers_belong(s, w) ==> workers_belong(
            s.update(i, EggView { env: Some(env), synced: false, ..s[i] }),
            w,
        ),
        errored_have_no_pid(s) ==> errored_have_no_pid(
            s.update(i, EggView { env: Some(env), synced: false, ..s[i] }),
        ),
{
    lemma_same_egg_keeps(s, w, i, EggView { env: Some(env), synced: false, ..s[i] });
}

/// An egg that keeps its name and id, and is running or errored only if
/// it was so before with the same state, leaves what holds of running eggs
/// and of the workers.
pub proof fn lemma_same_egg_keeps(s: Seq<EggView>, w: Seq<WorkerView>, i: int, e2: EggView)
    requires
        0 <= i < s.len(),
        e2.name == s[i].name,
        e2.id == s[i].id,
        e2.has_status(EggStatus::Running) || e2.has_status(EggStatus::Errored) ==> e2.state == s[i].state,
    ensures
        running_are_kept(s, w) ==> running_are_kept(s.update(i, e2), w),
        workers_belong(s, w) ==> workers_belong(s.update(i, e2), w),
        errored_have_no_pid(s) ==> errored_have_no_pid(s.update(i, e2)),
{
    let s2 = s.update(i, e2);
    if running_are_kept(s, w) {
        assert forall|j: int| 0 <= j < s2.len() && (#[trigger] s2[j]).has_status(
            EggStatus::Running,
        ) implies {
            &&& s2[j].state->0.pid > 0
            &&& s2[j].state->0.start_time is Some
            &&& s2[j].id is Some
            &&& has_entry(w, s2[j].name, s2[j].id->0)
        } by {
            assert(s[j].has_status(EggStatus::Running));
        }
    }
    if workers_belong(s, w) {
        assert forall|k: int| 0 <= k < w.len() implies has_egg(
            s2,
            (#[trigger] w[k]).name,
            w[k].task_id,
        ) by {
            assert(has_egg(s, w[k].name, w[k].task_id));
            let j = choose|j: int|
                0 <= j < s.len() && (#[trigger] s[j]).name == w[k].name && s[j].id == Some(w[k].task_id);
            assert(s2[j].name == w[k].name && s2[j].id == Some(w[k].task_id));
        }
    }
    if errored_have_no_pid(s) {
        assert forall|j: int| 0 <= j < s2.len() && (#[trigger] s2[j]).has_status(
            EggStatus::Errored,
        ) implies s2[j].state->0.pid == 0 by {
            assert(s[j].has_status(EggStatus::Errored));
        }
    }
}

/// Collecting an egg that is not running leaves what holds of running
/// eggs and of the workers.
pub proof fn lemma_collect_keeps(s: Seq<EggView>, w: Seq<WorkerView>, e: EggView)
    requires
        store_wf(s),
        !e.has_status(EggStatus::Running),
        !e.has_status(EggStatus::Errored),
    ensures
        running_are_kept(s, w) ==> running_are_kept(collected(s, e).0, w),
        workers_belong(s, w) ==> workers_belong(collected(s, e).0, w),
        errored_have_no_pid(s) ==> errored_have_no_pid(collected(s, e).0),
{
    let t = collected(s, e).0;
    if t != s {
        let p = insertion_point(s, e.name);
        lemma_insertion_point_splits(s, e.name);
        assert forall|j: int| 0 <= j < t.len() && j != p implies s.contains(#[trigger] t[j]) by {
            if j < p {
                assert(s[j] == t[j]);
            } else {
                assert(s[j - 1] == t[j]);
            }
        }
        if running_are_kept(s, w) {
            assert forall|j: int| 0 <= j < t.len() && (#[trigger] t[j]).has_status(
                EggStatus::Running,
            ) implies {
                &&& t[j].state->0.pid > 0
                &&& t[j].state->0.start_time is Some
                &&& t[j].id is Some
                &&& has_entry(w, t[j].name, t[j].id->0)
            } by {
                assert(j != p);
                let q = if j < p { j } else { j - 1 };
                assert(s[q] == t[j]);
            }
        }
        if workers_belong(s, w) {
            assert forall|k: int| 0 <= k < w.len() implies has_egg(
                t,
                (#[trigger] w[k]).name,
                w[k].task_id,
            ) by {
                assert(has_egg(s, w[k].name, w[k].task_id));
                let j = choose|j: int|
                    0 <= j < s.len() && (#[trigger] s[j]).name == w[k].name && s[j].id == Some(
                        w[k].task_id,
                    );
                let q = if j < p { j } else { j + 1 };
                assert(t[q] == s[j]);
            }
        }
        if errored_have_no_pid(s) {
            assert forall|j: int| 0 <= j < t.len() && (#[trigger] t[j]).has_status(
                EggStatus::Errored,
            ) implies t[j].state->0.pid == 0 by {
                assert(j != p);
                let q = if j < p { j } else { j - 1 };
                assert(s[q] == t[j]);
            }
        }
    }
}

/// The list of the eggs of one kind at `at`: the plugins where the
/// request's parameter `kind` is `plugins`, the other eggs else.
pub fn summary_at(request: &Request, state: &KurvState, at: Moment) -> (r: Reply)
    ensures
        r.status == 200,
        r.payload matches Payload::Summary(list) && list@ == summaries_of(
            of_kind(state@, wants_plugins(*request)),
            at,
        ),
{
    let plugins = match request.query_params.get("kind") {
        Some(kind) => str_eq(kind.as_str(), "plugins"),
        None => false,
    };
    let eggs = state.eggs_of_kind(plugins);
    let mut list: Vec<EggSummary> = Vec::new();
    let mut i: usize = 0;
    while i < eggs.len()
        invariant
            i <= eggs@.len(),
            list@.len() == i,
            forall|j: int| 0 <= j < i ==> (#[trigger] list@[j])@ == summary_of(views(eggs@)[j], at),
        decreases eggs@.len() - i,
    {
        let egg = &eggs[i];
        let summary = EggSummary {
            id: match egg.id {
                Some(id) => id,
                None => 0,
            },
            pid: match &egg.state {
                Some(st) => st.pid,
                None => 0,
            },
            name: egg.name.clone(),
            status: match &egg.state {
                Some(st) => st.status,
                None => EggStatus::Pending,
            },
            uptime: match &egg.state {
                Some(st) => match st.start_time {
                    Some(t) => humanize_duration(at.seconds_after(&t)),
                    None => "-".to_string(),
                },
                None => "-".to_string(),
            },
            retry_count: match &egg.state {
                Some(st) => st.try_count,
                None => 0,
            },
        };
        proof {
            assert(views(eggs@)[i as int] == egg@);
        }
        list.push(summary);
        i += 1;
    }
    let list = EggsSummaryList(list);
    proof {
        assert(list@ =~= summaries_of(views(eggs@), at));
    }
    Reply { status: 200, payload: Payload::Summary(list) }
}

/// The list of the eggs of one kind, with their uptimes as of now.
pub fn summary(request: &Request, state: &KurvState) -> (r: Reply)
    ensures
        is_summary(*request, state@, r),
{
    summary_at(request, state, now())
}

/// What the application knows of itself.
pub fn status(info: &Info) -> (r: Reply)
    ensures
        r.status == 200,
        r.payload matches Payload::Info(i) && i == *info,
{
    Reply { status: 200, payload: Payload::Info(info.clone()) }
}

/// The answer where no route fits the request.
pub fn not_allowed() -> (r: Reply)
    ensures
        r.is_failure(405, not_allowed_msg()),
{
    Reply::failure(405, "The method specified in the request is not allowed.".to_string())
}

/// Finds the egg that the request names by its parameter `egg_id`: its
/// position, or the answer that says why there is none.
fn find_target(request: &Request, state: &KurvState) -> (r: Result<usize, Reply>)
    requires
        state.wf(),
    ensures
        match r {
            Ok(i) => request.path_params@.contains_key(egg_id_param()) && token_target(
                state@,
                request.path_params@[egg_id_param()],
            ) == Some(i as int) && i < state@.len(),
            Err(reply) => if request.path_params@.contains_key(egg_id_param()) {
                token_target(state@, request.path_params@[egg_id_param()]) is None && reply.is_failure(
                    404,
                    not_found_msg(request.path_params@[egg_id_param()]),
                )
            } else {
                reply.is_failure(400, wrong_id_msg())
            },
        },
{
    let token = match request.path_params.get("egg_id") {
        Some(token) => token,
        None => {
            return Err(Reply::failure(400, "missing or invalid egg id".to_string()));
        },
    };
    if let Some(id) = state.get_id_by_token(token.as_str()) {
        proof {
            lemma_first_where(state@, |e: EggView| e.id == Some(id));
        }
        if let Some(i) = state.position_by_id(id) {
            return Ok(i);
        }
    }
    Err(Reply::failure(404, concat("egg not found: ", token.as_str())))
}

/// Hands back the egg that the request names by id, process id or name.
pub fn get(request: &Request, state: &KurvState) -> (r: Reply)
    requires
        state.wf(),
    ensures
        egg_got(*request, state@, r),
{
    match find_target(request, state) {
        Ok(i) => Reply::egg(state.egg_at(i).clone()),
        Err(reply) => reply,
    }
}

/// What setting a status on the egg that a request names comes to: the
/// egg is named by the parameter `egg_id`, which is missing (400) or fits
/// no egg (404); the change is refused for the reason that `refusal`
/// gives; or the egg has the status, in the store and in the answer.
pub open spec fn status_set(
    request: Request,
    before: Seq<EggView>,
    after: Seq<EggView>,
    r: Reply,
    status: EggStatus,
) -> bool {
    if !request.path_params@.contains_key(egg_id_param()) {
        r.is_failure(400, wrong_id_msg()) && after == before
    } else {
        match token_target(before, request.path_params@[egg_id_param()]) {
            Some(i) => match refusal(before[i], status) {
                Some(why) => r.is_failure(why.0, why.1) && after == before,
                None => r.is_egg(before[i].with_status(status)) && after == before.update(
                    i,
                    before[i].with_status(status),
                ),
            },
            None => r.is_failure(404, not_found_msg(request.path_params@[egg_id_param()])) && after
                == before,
        }
    }
}

/// What putting the variables of a request's body into the environment of
/// the egg that the request names comes to: the egg is named by the
/// parameter `egg_id`, which is missing (400) or fits no egg (404); the
/// body is no JSON object of texts (400, with the reader's message behind
/// `Invalid env: `); or the egg has the new environment and is marked as
/// not written to disk, in the store and in the answer.
pub open spec fn env_set(
    request: Request,
    before: Seq<EggView>,
    after: Seq<EggView>,
    r: Reply,
    replace: bool,
) -> bool {
    if !request.path_params@.contains_key(egg_id_param()) {
        r.is_failure(400, wrong_id_msg()) && after == before
    } else {
        match token_target(before, request.path_params@[egg_id_param()]) {
            Some(i) => match json_text_map(request.body@) {
                Ok(pairs) => {
                    let changed = EggView {
                        env: Some(updated_env(before[i].env, map_of_texts(pairs), replace)),
                        synced: false,
                        ..before[i]
                    };
                    r.is_egg(changed) && after == before.update(i, changed)
                },
                Err(message) => r.is_failure(400, invalid_env_msg(message)) && after == before,
            },
            None => r.is_failure(404, not_found_msg(request.path_params@[egg_id_param()])) && after
                == before,
        }
    }
}

/// Sets the status of the egg that the request names, unless the change
/// is refused, and hands the egg back.
pub fn set_status(request: &Request, state: &mut KurvState, status: EggStatus) -> (r: Reply)
    requires
        old(state).wf(),
    ensures
        final(state).wf(),
        status_set(*request, old(state)@, final(state)@, r, status),
{
    let i = match find_target(request, state) {
        Ok(i) => i,
        Err(reply) => {
            return reply;
        },
    };
    let ghost before = state@;
    let egg = state.egg_at(i);
    match status {
        EggStatus::Pending => {
            let blocked = match &egg.state {
                Some(st) => st.status != EggStatus::Stopped,
                None => false,
            };
            if blocked {
                let a = concat("egg ", egg.name.as_str());
                return Reply::failure(400, concat(a.as_str(), " is already running"));
            }
        },
        EggStatus::PendingRemoval => {
            if egg.is_plugin() {
                return Reply::failure(403, "plugins cannot be removed via API".to_string());
            }
        },
        EggStatus::Stopped | EggStatus::Restarting => {},
        EggStatus::Running | EggStatus::Errored => {
            let a = concat("can't change status to '", status_str(status));
            return Reply::failure(400, concat(a.as_str(), "'"));
        },
    }
    let e = state.egg_at_mut(i);
    e.set_status(status);
    let copy = e.clone();
    proof {
        lemma_update_keeps_wf(before, i as int, before[i as int].with_status(status));
    }
    Reply::egg(copy)
}

/// Stops the egg that the request names.
pub fn stop(request: &Request, state: &mut KurvState) -> (r: Reply)
    requires
        old(state).wf(),
    ensures
        final(state).wf(),
        status_set(*request, old(state)@, final(state)@, r, EggStatus::Stopped),
{
    set_status(request, state, EggStatus::Stopped)
}

/// Lets the egg that the request names be started again. Only an egg that
/// is stopped, or has no state yet, is.
pub fn start(request: &Request, state: &mut KurvState) -> (r: Reply)
    requires
        old(state).wf(),
    ensures
        final(state).wf(),
        status_set(*request, old(state)@, final(state)@, r, EggStatus::Pending),
{
    set_status(request, state, EggStatus::Pending)
}

/// Lets the egg that the request names be removed. A plugin is not.
pub fn remove(request: &Request, state: &mut KurvState) -> (r: Reply)
    requires
        old(state).wf(),
    ensures
        final(state).wf(),
        status_set(*request, old(state)@, final(state)@, r, EggStatus::PendingRemoval),
{
    set_status(request, state, EggStatus::PendingRemoval)
}

/// Lets the egg that the request names be restarted.
pub fn restart(request: &Request, state: &mut KurvState) -> (r: Reply)
    requires
        old(state).wf(),
    ensures
        final(state).wf(),
        status_set(*request, old(state)@, final(state)@, r, EggStatus::Restarting),
{
    set_status(request, state, EggStatus::Restarting)
}

/// What collecting the egg that a request's body described comes to:
/// the body was no egg (400, with the reader's message); the name of the
/// egg is taken (409); no id is left (500); or the egg waits to be
/// started in the store and is handed back with its id.
pub open spec fn egg_collected(
    parsed: Result<Egg, String>,
    before: Seq<EggView>,
    after: Seq<EggView>,
    r: Reply,
) -> bool {
    match parsed {
        Err(message) => r.is_failure(400, "Invalid egg: "@ + message@) && after == before,
        Ok(egg) => if contains_name(before, egg@.name) {
            r.is_failure(409, "An egg with name "@ + egg@.name + " already exists"@) && after == before
        } else {
            let pending = egg@.with_status(EggStatus::Pending);
            match collected(before, pending).1 {
                Some(id) => r.is_egg(EggView { id: Some(id), ..pending }) && after == collected(
                    before,
                    pending,
                ).0,
                None => r.is_failure(500, "no id is left for a new egg"@) && after == before,
            }
        },
    }
}

/// What asking for one egg comes to: the egg is named by the parameter
/// `egg_id`, which is missing (400) or fits no egg (404); or the egg is
/// handed back.
pub open spec fn egg_got(request: Request, eggs: Seq<EggView>, r: Reply) -> bool {
    if !request.path_params@.contains_key(egg_id_param()) {
        r.is_failure(400, wrong_id_msg())
    } else {
        match token_target(eggs, request.path_params@[egg_id_param()]) {
            Some(i) => r.is_egg(eggs[i]),
            None => r.is_failure(404, not_found_msg(request.path_params@[egg_id_param()])),
        }
    }
}

/// Whether an answer is the list of the eggs that a request asks for, at
/// some moment.
pub open spec fn is_summary(request: Request, eggs: Seq<EggView>, r: Reply) -> bool {
    &&& r.status == 200
    &&& r.payload matches Payload::Summary(list)
    &&& exists|at: Moment| list@ == #[trigger] summaries_of(of_kind(eggs, wants_plugins(request)), at)
}

/// What the route of a request answers, and what it makes of the eggs.
pub open spec fn responded(
    route: Route,
    request: Request,
    info: Info,
    posted: Result<Egg, String>,
    before: Seq<EggView>,
    after: Seq<EggView>,
    r: Reply,
) -> bool {
    match route {
        Route::Status => {
            &&& r.status == 200
            &&& r.payload matches Payload::Info(i)
            &&& i == info
            &&& after == before
        },
        Route::Summary => is_summary(request, before, r) && after == before,
        Route::Collect => egg_collected(posted, before, after, r),
        Route::Stop => status_set(request, before, after, r, EggStatus::Stopped),
        Route::Start => status_set(request, before, after, r, EggStatus::Pending),
        Route::Restart => status_set(request, before, after, r, EggStatus::Restarting),
        Route::Remove => status_set(request, before, after, r, EggStatus::PendingRemoval),
        Route::MergeEnv => env_set(request, before, after, r, false),
        Route::ReplaceEnv => env_set(request, before, after, r, true),
        Route::Get => egg_got(request, before, r) && after == before,
        Route::NotAllowed => r.is_failure(405, not_allowed_msg()) && after == before,
    }
}

/// Takes the egg that a request's body described into the store, waiting
/// to be started, and hands it back with its id. `parsed` is what reading
/// the body gave: the egg, or the reader's message. An egg whose name is
/// taken is refused.
pub fn collect(parsed: Result<Egg, String>, state: &mut KurvState) -> (r: Reply)
    requires
        old(state).wf(),
    ensures
        final(state).wf(),
        egg_collected(parsed, old(state)@, final(state)@, r),
{
    let mut egg = match parsed {
        Ok(egg) => egg,
        Err(message) => {
            return Reply::failure(400, concat("Invalid egg: ", message.as_str()));
        },
    };
    egg.set_status(EggStatus::Pending);
    match state.collect(&egg) {
        Ok(id) => {
            egg.id = Some(id);
            Reply::egg(egg)
        },
        Err(error) => {
            let code: u16 = match &error {
                StoreError::NameTaken { .. } => 409,
                _ => 500,
            };
            Reply::failure(code, error.message())
        },
    }
}

/// Puts the variables that the request's body holds into the environment
/// of the egg that the request names, in place of what was there or over
/// it, and marks the egg as not yet written to disk.
pub fn update_env(request: &Request, state: &mut KurvState, replace: bool) -> (r: Reply)
    requires
        old(state).wf(),
    ensures
        final(state).wf(),
        env_set(*request, old(state)@, final(state)@, r, replace),
{
    let i = match find_target(request, state) {
        Ok(i) => i,
        Err(reply) => {
            return reply;
        },
    };
    let given = match parse_text_map(request.body.as_str()) {
        Ok(pairs) => StrMap::from_pairs(pairs),
        Err(message) => {
            return Reply::failure(400, concat("Invalid env: ", message.as_str()));
        },
    };
    let ghost before = state@;
    let e = state.egg_at_mut(i);
    if replace {
        e.env = Some(given);
    } else {
        let mut env = match e.env.take() {
            Some(env) => env,
            None => StrMap::new(),
        };
        env.merge(&given);
        e.env = Some(env);
    }
    e.set_synced(false);
    let copy = e.clone();
    proof {
        lemma_update_keeps_wf(before, i as int, copy@);
    }
    Reply::egg(copy)
}

/// Lays the variables of the request's body over the environment of the
/// egg that the request names.
pub fn merge(request: &Request, state: &mut KurvState) -> (r: Reply)
    requires
        old(state).wf(),
    ensures
        final(state).wf(),
        env_set(*request, old(state)@, final(state)@, r, false),
{
    update_env(request, state, false)
}

/// Puts the variables of the request's body in place of the environment
/// of the egg that the request names.
pub fn replace(request: &Request, state: &mut KurvState) -> (r: Reply)
    requires
        old(state).wf(),
    ensures
        final(state).wf(),
        env_set(*request, old(state)@, final(state)@, r, true),
{
    update_env(request, state, true)
}

/// Whatever the control plane answers, it starts no egg and takes none
/// away: what holds of running eggs, of errored eggs and of the workers
/// stays.
pub proof fn lemma_responded_keeps(
    route: Route,
    request: Request,
    info: Info,
    posted: Result<Egg, String>,
    before: Seq<EggView>,
    after: Seq<EggView>,
    r: Reply,
    w: Seq<WorkerView>,
)
    requires
        store_wf(before),
        responded(route, request, info, posted, before, after, r),
    ensures
        running_are_kept(before, w) ==> running_are_kept(after, w),
        workers_belong(before, w) ==> workers_belong(after, w),
        errored_have_no_pid(before) ==> errored_have_no_pid(after),
{
    if after != before {
        match route {
            Route::Collect => {
                let egg = posted->Ok_0;
                lemma_collect_keeps(before, w, egg@.with_status(EggStatus::Pending));
            },
            Route::Stop | Route::Start | Route::Restart | Route::Remove => {
                let status = match route {
                    Route::Stop => EggStatus::Stopped,
                    Route::Start => EggStatus::Pending,
                    Route::Restart => EggStatus::Restarting,
                    _ => EggStatus::PendingRemoval,
                };
                let i = token_target(before, request.path_params@[egg_id_param()])->0;
                lemma_first_where(
                    before,
                    |e: EggView| e.id == Some(resolve_token(before, request.path_params@[egg_id_param()])->0),
                );
                lemma_status_change_keeps(before, w, i, status);
            },
            Route::MergeEnv | Route::ReplaceEnv => {
                let replace = route == Route::ReplaceEnv;
                let i = token_target(before, request.path_params@[egg_id_param()])->0;
                lemma_first_where(
                    before,
                    |e: EggView| e.id == Some(resolve_token(before, request.path_params@[egg_id_param()])->0),
                );
                let pairs = json_text_map(request.body@)->Ok_0;
                lemma_env_change_keeps(
                    before,
                    w,
                    i,
                    updated_env(before[i].env, map_of_texts(pairs), replace),
                );
            },
            _ => {},
        }
    }
}

/// Whether the handler of a route reads the egg that the request's body
/// describes.
pub fn reads_egg(route: Route) -> (r: bool)
    ensures
        r == (route == Route::Collect),
{
    match route {
        Route::Collect => true,
        _ => false,
    }
}

/// Answers a request by the handler of its route. `posted` is what
/// reading the request's body as an egg gave; only the route that collects
/// an egg looks at it.
pub fn respond(
    route: Route,
    request: &Request,
    state: &mut KurvState,
    info: &Info,
    posted: Result<Egg, String>,
) -> (r: Reply)
    requires
        old(state).wf(),
    ensures
        final(state).wf(),
        responded(route, *request, *info, posted, old(state)@, final(state)@, r),
{
    match route {
        Route::Status => status(info),
        Route::Summary => summary(request, state),
        Route::Collect => collect(posted, state),
        Route::Stop => stop(request, state),
        Route::Start => start(request, state),
        Route::Restart => restart(request, state),
        Route::Remove => remove(request, state),
        Route::MergeEnv => merge(request, state),
        Route::ReplaceEnv => replace(request, state),
        Route::Get => get(request, state),
        Route::NotAllowed => not_allowed(),
    }
}

/// Answers a request: finds its route with `Router::resolve`, which puts
/// what the path gave among the request's parameters, and lets the handler
/// of that route answer as `respond` does. `posted` is what reading the
/// request's body as an egg gave.
pub fn answer(
    router: &Router,
    request: &mut Request,
    state: &mut KurvState,
    info: &Info,
    posted: Result<Egg, String>,
) -> (r: Reply)
    requires
        old(state).wf(),
    ensures
        final(state).wf(),
        final(request).path_params@ == old(request).path_params@.union_prefer_right(
            path_params_of(old(request).method@, old(request).path@),
        ),
        final(request).method == old(request).method,
        final(request).path == old(request).path,
        final(request).version == old(request).version,
        final(request).headers == old(request).headers,
        final(request).body == old(request).body,
        final(request).query_params == old(request).query_params,
        responded(
            route_of(old(request).method@, old(request).path@),
            *final(request),
            *info,
            posted,
            old(state)@,
            final(state)@,
            r,
        ),
{
    let route = router.resolve(request);
    respond(route, request, state, info, posted)
}

} // verus!
