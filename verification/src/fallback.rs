//! The fallback handler: what the server answers once normal static-file
//! resolution has failed.
//!
//! The handler alternates filesystem work with decisions. The decisions are
//! a state machine: [`step`] takes the current state and what the last piece
//! of outside work found, and gives the next state and the next thing to do.
use vstd::prelude::*;

use vstd::utf8::encode_utf8;

use crate::request_path::{is_safe_request_path, parse_request_path, parsed_if_safe};

verus! {

broadcast use vstd::string::axiom_spec_iter;

/// What a metadata query on a filesystem path found.
#[derive(Debug, Clone, Copy, PartialEq, Eq, Structural)]
pub enum Metadata {
    /// Nothing exists at the path.
    NotFound,
    /// The query failed for another reason.
    Failed,
    /// A directory exists at the path.
    Directory,
    /// Something other than a directory exists at the path.
    NotDirectory,
}

/// What an attempt to open a file found.
#[derive(Debug, Clone, Copy, PartialEq, Eq, Structural)]
pub enum Opened {
    /// The file was opened.
    File,
    /// No file exists at the path.
    NotFound,
    /// Opening failed for another reason.
    Failed,
}

/// The response the fallback handler gives.
#[derive(Debug, Clone, Copy, PartialEq, Eq, Structural)]
pub enum Reply {
    /// `404 Not Found`, with an empty body.
    NotFound,
    /// `500 Internal Server Error`, with an empty body.
    InternalServerError,
    /// The root `index.html` that was just opened, served as the SPA document.
    RootIndex,
}

/// Where the fallback handler stands.
#[derive(Debug, Clone, Copy, PartialEq, Eq, Structural)]
pub enum State {
    /// No request has been seen yet.
    Start,
    /// The request's path under the root is being looked up; `asset` tells
    /// whether its final segment contains a `.`.
    LookingUp { asset: bool },
    /// The `index.html` of a directory is being looked up.
    CheckingIndex,
    /// The root `index.html` is being opened as the SPA document.
    OpeningRootIndex,
    /// A response has been chosen.
    Done,
}

/// What the last piece of outside work found.
#[derive(Debug)]
pub enum Event {
    /// A request arrived with this (still percent-encoded) path.
    Request(String),
    /// A metadata query finished.
    Metadata(Metadata),
    /// An attempt to open a file finished.
    Opened(Opened),
}

/// What the handler does next.
#[derive(Debug, Clone, PartialEq, Eq)]
pub enum Action {
    /// Query the metadata of `relative` under the root.
    QueryCandidate { relative: String },
    /// Query the metadata of `index.html` inside that directory.
    QueryDirectoryIndex,
    /// Open the root `index.html`.
    OpenRootIndex,
    /// Respond, and stop.
    Respond(Reply),
}

/// An action, with its path taken as text.
pub enum ActionView {
    /// Query the metadata of `relative` under the root.
    QueryCandidate { relative: Seq<char> },
    /// Query the metadata of `index.html` inside that directory.
    QueryDirectoryIndex,
    /// Open the root `index.html`.
    OpenRootIndex,
    /// Respond, and stop.
    Respond(Reply),
}

impl View for Action {
    type V = ActionView;

    open spec fn view(&self) -> ActionView {
        match self {
            Action::QueryCandidate { relative } => ActionView::QueryCandidate { relative: relative@ },
            Action::QueryDirectoryIndex => ActionView::QueryDirectoryIndex,
            Action::OpenRootIndex => ActionView::OpenRootIndex,
            Action::Respond(reply) => ActionView::Respond(*reply),
        }
    }
}

/// Whether a final path segment names an asset, that is, contains a `.`.
pub open spec fn is_asset(final_segment: Option<Seq<char>>) -> bool {
    match final_segment {
        Some(segment) => segment.contains('.'),
        None => false,
    }
}

/// The view of an optional final segment.
pub open spec fn segment_view(final_segment: Option<String>) -> Option<Seq<char>> {
    match final_segment {
        Some(s) => Some(s@),
        None => None,
    }
}

/// Whether `state` expects `event`.
pub open spec fn accepts(state: State, event: Event) -> bool {
    match state {
        State::Start => event is Request,
        State::LookingUp { .. } => event is Metadata,
        State::CheckingIndex => event is Metadata,
        State::OpeningRootIndex => event is Opened,
        State::Done => false,
    }
}

/// What follows from a request path's parse: `404 Not Found` when it was
/// refused, otherwise the lookup of the relative path it resolved to.
pub open spec fn after_parse(parsed: Option<(Seq<char>, Option<Seq<char>>)>) -> (State, ActionView) {
    match parsed {
        None => (State::Done, ActionView::Respond(Reply::NotFound)),
        Some((relative, final_segment)) => (
            State::LookingUp { asset: is_asset(final_segment) },
            ActionView::QueryCandidate { relative },
        ),
    }
}

/// The fallback rules, one transition per state and event.
pub open spec fn transition(spa: bool, state: State, event: Event) -> (State, ActionView) {
    match (state, event) {
        (State::Start, Event::Request(path)) => after_parse(parsed_if_safe(path@)),
        (State::LookingUp { asset }, Event::Metadata(found)) => match found {
            Metadata::NotFound => if spa && !asset {
                (State::OpeningRootIndex, ActionView::OpenRootIndex)
            } else {
                (State::Done, ActionView::Respond(Reply::NotFound))
            },
            Metadata::Directory => (State::CheckingIndex, ActionView::QueryDirectoryIndex),
            _ => (State::Done, ActionView::Respond(Reply::InternalServerError)),
        },
        (State::CheckingIndex, Event::Metadata(found)) => match found {
            Metadata::NotFound => (State::Done, ActionView::Respond(Reply::NotFound)),
            _ => (State::Done, ActionView::Respond(Reply::InternalServerError)),
        },
        (State::OpeningRootIndex, Event::Opened(opened)) => match opened {
            Opened::File => (State::Done, ActionView::Respond(Reply::RootIndex)),
            Opened::NotFound => (State::Done, ActionView::Respond(Reply::NotFound)),
            Opened::Failed => (State::Done, ActionView::Respond(Reply::InternalServerError)),
        },
        // No other pair is accepted.
        _ => (State::Done, ActionView::Respond(Reply::InternalServerError)),
    }
}

/// The actions the handler takes when, from `state`, outside work finds
/// `events` in turn; the run stops at the first event the state does not expect.
pub open spec fn run(spa: bool, state: State, events: Seq<Event>) -> Seq<ActionView>
    decreases events.len(),
{
    if events.len() > 0 && accepts(state, events[0]) {
        let (next, action) = transition(spa, state, events[0]);
        seq![action] + run(spa, next, events.drop_first())
    } else {
        Seq::empty()
    }
}

/// The most actions the handler can still take from `state`.
pub open spec fn steps_left(state: State) -> nat {
    match state {
        State::Start => 3,
        State::LookingUp { .. } => 2,
        State::CheckingIndex => 1,
        State::OpeningRootIndex => 1,
        State::Done => 0,
    }
}

/// Once the handler has responded, it expects nothing more.
proof fn lemma_done_runs_nothing(spa: bool, events: Seq<Event>)
    ensures
        run(spa, State::Done, events) == Seq::<ActionView>::empty(),
{
}

/// From any state, a run takes at most `steps_left(state)` actions, and a
/// response, when there is one, is the last of them.
proof fn lemma_run_is_bounded(spa: bool, state: State, events: Seq<Event>)
    ensures
        run(spa, state, events).len() <= steps_left(state),
        forall|i: int|
            0 <= i < run(spa, state, events).len() - 1 ==> !(run(spa, state, events)[i] is Respond),
    decreases events.len(),
{
    if events.len() > 0 && accepts(state, events[0]) {
        let (next, action) = transition(spa, state, events[0]);
        lemma_run_is_bounded(spa, next, events.drop_first());
        let rest = run(spa, next, events.drop_first());
        assert(run(spa, state, events) == seq![action] + rest);
        if action is Respond {
            assert(next == State::Done);
            lemma_done_runs_nothing(spa, events.drop_first());
        }
        assert forall|i: int| 0 <= i < run(spa, state, events).len() - 1 implies !(run(
            spa,
            state,
            events,
        )[i] is Respond) by {
            if i > 0 {
                assert(run(spa, state, events)[i] == rest[i - 1]);
            }
        }
    }
}

/// Every request is settled within three actions: one or two filesystem
/// queries or an open, and a response; nothing follows a response.
pub proof fn lemma_request_settles_within_three_actions(spa: bool, events: Seq<Event>)
    ensures
        run(spa, State::Start, events).len() <= 3,
        forall|i: int|
            0 <= i < run(spa, State::Start, events).len() - 1 ==> !(run(
                spa,
                State::Start,
                events,
            )[i] is Respond),
{
    lemma_run_is_bounded(spa, State::Start, events);
}

/// A request whose path is not safe, or which the parser refuses, is
/// answered `404 Not Found` at once, whatever comes after and whether or not
/// SPA mode is on: such paths never reach the filesystem and never receive
/// the SPA document.
pub proof fn lemma_unparsed_request_is_not_found(spa: bool, path: String, rest: Seq<Event>)
    requires
        parsed_if_safe(path@) is None,
    ensures
        run(spa, State::Start, seq![Event::Request(path)] + rest) == seq![
            ActionView::Respond(Reply::NotFound),
        ],
{
    let events = seq![Event::Request(path)] + rest;
    assert(events[0] == Event::Request(path));
    lemma_done_runs_nothing(spa, events.drop_first());
    assert(seq![ActionView::Respond(Reply::NotFound)] + Seq::<ActionView>::empty() == seq![
        ActionView::Respond(Reply::NotFound),
    ]);
}

/// A request whose path is not safe (a `..` segment, a NUL character, a
/// malformed escape or invalid UTF-8 once decoded) is answered `404 Not
/// Found` at once: traversal attempts never reach the filesystem.
pub proof fn lemma_unsafe_request_is_not_found(spa: bool, path: String, rest: Seq<Event>)
    requires
        !is_safe_request_path(encode_utf8(path@)),
    ensures
        run(spa, State::Start, seq![Event::Request(path)] + rest) == seq![
            ActionView::Respond(Reply::NotFound),
        ],
{
    lemma_unparsed_request_is_not_found(spa, path, rest);
}

/// The root `index.html` is served only as the SPA fallback: SPA mode is on,
/// the request path is safe and parses to a path whose final segment has no
/// `.`, nothing exists at that path, and the root index opened.
pub proof fn lemma_root_index_only_as_spa_fallback(spa: bool, events: Seq<Event>)
    requires
        run(spa, State::Start, events).contains(ActionView::Respond(Reply::RootIndex)),
    ensures
        spa,
        events.len() >= 3,
        events[0] matches Event::Request(path) && parsed_if_safe(path@) matches Some(
            (relative, final_segment),
        ) && !is_asset(final_segment),
        events[1] == Event::Metadata(Metadata::NotFound),
        events[2] == Event::Opened(Opened::File),
{
    reveal_with_fuel(run, 5);
    let e1 = events.drop_first();
    let e2 = e1.drop_first();
    assert(events[1] == e1[0]);
    assert(events[2] == e2[0]);
}

/// With SPA mode enabled, a request whose path parses to a path with no `.`
/// in its final segment, and which is missing, is answered with the root
/// `index.html` once it opens.
pub proof fn lemma_spa_serves_missing_routes(path: String)
    requires
        parsed_if_safe(path@) matches Some((relative, final_segment)) && !is_asset(final_segment),
    ensures
        run(
            true,
            State::Start,
            seq![
                Event::Request(path),
                Event::Metadata(Metadata::NotFound),
                Event::Opened(Opened::File),
            ],
        ) == seq![
            ActionView::QueryCandidate { relative: parsed_if_safe(path@).unwrap().0 },
            ActionView::OpenRootIndex,
            ActionView::Respond(Reply::RootIndex),
        ],
{
    reveal_with_fuel(run, 5);
    let events = seq![
        Event::Request(path),
        Event::Metadata(Metadata::NotFound),
        Event::Opened(Opened::File),
    ];
    let e1 = events.drop_first();
    let e2 = e1.drop_first();
    assert(e1 == seq![Event::Metadata(Metadata::NotFound), Event::Opened(Opened::File)]);
    assert(e2 == seq![Event::Opened(Opened::File)]);
    assert(e2.drop_first().len() == 0);
}

/// A final segment names an asset exactly when it contains a `.`, wherever
/// and however often; a path with no final segment is no asset.
pub proof fn lemma_asset_is_a_dotted_segment(segment: Seq<char>)
    ensures
        is_asset(Some(segment)) <==> exists|i: int| 0 <= i < segment.len() && segment[i] == '.',
        !is_asset(None),
{
}

/// A fresh handler expects a request; a lookup or a directory check expects
/// metadata; opening the root index expects its outcome; a finished handler
/// expects nothing.
pub proof fn lemma_accepted_events(asset: bool, path: String, found: Metadata, opened: Opened)
    ensures
        accepts(State::Start, Event::Request(path)),
        !accepts(State::Start, Event::Metadata(found)),
        !accepts(State::Start, Event::Opened(opened)),
        accepts(State::LookingUp { asset }, Event::Metadata(found)),
        !accepts(State::LookingUp { asset }, Event::Request(path)),
        !accepts(State::LookingUp { asset }, Event::Opened(opened)),
        accepts(State::CheckingIndex, Event::Metadata(found)),
        !accepts(State::CheckingIndex, Event::Opened(opened)),
        accepts(State::OpeningRootIndex, Event::Opened(opened)),
        !accepts(State::OpeningRootIndex, Event::Metadata(found)),
        !accepts(State::Done, Event::Request(path)),
        !accepts(State::Done, Event::Metadata(found)),
        !accepts(State::Done, Event::Opened(opened)),
{
}

/// After a lookup: a missing path is answered `404` unless SPA mode is on and
/// its final segment is no asset, in which case the root index is opened; a
/// directory leads to its `index.html`; any other outcome is a `500`.
pub proof fn lemma_lookup_rules(spa: bool, asset: bool)
    ensures
        !spa || asset ==> transition(spa, State::LookingUp { asset }, Event::Metadata(Metadata::NotFound))
            == (State::Done, ActionView::Respond(Reply::NotFound)),
        spa && !asset ==> transition(spa, State::LookingUp { asset }, Event::Metadata(Metadata::NotFound))
            == (State::OpeningRootIndex, ActionView::OpenRootIndex),
        transition(spa, State::LookingUp { asset }, Event::Metadata(Metadata::Directory)) == (
            State::CheckingIndex,
            ActionView::QueryDirectoryIndex,
        ),
        transition(spa, State::LookingUp { asset }, Event::Metadata(Metadata::Failed)) == (
            State::Done,
            ActionView::Respond(Reply::InternalServerError),
        ),
        transition(spa, State::LookingUp { asset }, Event::Metadata(Metadata::NotDirectory)) == (
            State::Done,
            ActionView::Respond(Reply::InternalServerError),
        ),
{
}

/// For a directory: no `index.html` is a `404` (no listing); an existing one,
/// or a failed query, is a `500`, since static resolution should have served it.
pub proof fn lemma_directory_index_rules(spa: bool, found: Metadata)
    ensures
        transition(spa, State::CheckingIndex, Event::Metadata(found)) == if found
            == Metadata::NotFound {
            (State::Done, ActionView::Respond(Reply::NotFound))
        } else {
            (State::Done, ActionView::Respond(Reply::InternalServerError))
        },
{
}

/// Opening the root index: an opened file is served, a missing one is a
/// `404`, and any other failure a `500`.
pub proof fn lemma_root_index_rules(spa: bool)
    ensures
        transition(spa, State::OpeningRootIndex, Event::Opened(Opened::File)) == (
            State::Done,
            ActionView::Respond(Reply::RootIndex),
        ),
        transition(spa, State::OpeningRootIndex, Event::Opened(Opened::NotFound)) == (
            State::Done,
            ActionView::Respond(Reply::NotFound),
        ),
        transition(spa, State::OpeningRootIndex, Event::Opened(Opened::Failed)) == (
            State::Done,
            ActionView::Respond(Reply::InternalServerError),
        ),
{
}

/// A request is answered `404` when its path is not parsed, and otherwise
/// leads to the lookup of exactly the relative path the parse gave, marked an
/// asset exactly when that path's final segment contains a `.`.
pub proof fn lemma_request_rules(spa: bool, path: String)
    ensures
        transition(spa, State::Start, Event::Request(path)) == match parsed_if_safe(path@) {
            None => (State::Done, ActionView::Respond(Reply::NotFound)),
            Some((relative, final_segment)) => (
                State::LookingUp {
                    asset: final_segment matches Some(segment) && exists|i: int|
                        0 <= i < segment.len() && segment[i] == '.',
                },
                ActionView::QueryCandidate { relative },
            ),
        },
{
    if let Some((relative, final_segment)) = parsed_if_safe(path@) {
        if let Some(segment) = final_segment {
            lemma_asset_is_a_dotted_segment(segment);
        }
    }
}

/// Whether `segment` contains a `.`.
fn contains_dot(segment: &str) -> (found: bool)
    ensures
        found == segment@.contains('.'),
{
    let mut seen = false;
    for c in it: segment.chars()
        invariant
            it.seq() == segment@,
            seen <==> exists|j: int| 0 <= j < it.index() && segment@[j] == '.',
    {
        if c == '.' {
            seen = true;
        }
    }
    seen
}

/// Whether the parsed path is an asset: its final segment contains a `.`.
pub fn final_segment_is_asset(final_segment: &Option<String>) -> (asset: bool)
    ensures
        asset == is_asset(segment_view(*final_segment)),
{
    match final_segment {
        Some(segment) => contains_dot(segment.as_str()),
        None => false,
    }
}

/// What follows from a request path's parse (as [`parse_request_path`] gives
/// it): `404 Not Found` when it was refused, otherwise the lookup of the
/// relative path, remembering whether its final segment names an asset.
pub fn lookup_parsed(parsed: Option<(String, Option<String>)>) -> (next: (State, Action))
    ensures
        next.0 == after_parse(
            match parsed {
                Some((relative, final_segment)) => Some((relative@, segment_view(final_segment))),
                None => None,
            },
        ).0,
        next.1@ == after_parse(
            match parsed {
                Some((relative, final_segment)) => Some((relative@, segment_view(final_segment))),
                None => None,
            },
        ).1,
{
    match parsed {
        None => (State::Done, Action::Respond(Reply::NotFound)),
        Some((relative, final_segment)) => {
            let asset = final_segment_is_asset(&final_segment);
            (State::LookingUp { asset }, Action::QueryCandidate { relative })
        },
    }
}

/// Whether `state` expects `event`, the condition under which [`step`] may
/// be called.
pub fn expects(state: State, event: &Event) -> (expected: bool)
    ensures
        expected == accepts(state, *event),
{
    match state {
        State::Start => matches!(event, Event::Request(_)),
        State::LookingUp { .. } => matches!(event, Event::Metadata(_)),
        State::CheckingIndex => matches!(event, Event::Metadata(_)),
        State::OpeningRootIndex => matches!(event, Event::Opened(_)),
        State::Done => false,
    }
}

/// One step of the fallback handler: from the current state and what the last
/// piece of outside work found, the next state and what to do next. A request
/// is screened and parsed here; the filesystem work is left to the caller.
pub fn step(spa: bool, state: State, event: Event) -> (next: (State, Action))
    requires
        accepts(state, event),
    ensures
        next.0 == transition(spa, state, event).0,
        next.1@ == transition(spa, state, event).1,
{
    match (state, event) {
        (State::Start, Event::Request(path)) => lookup_parsed(parse_request_path(path.as_str())),
        (State::LookingUp { asset }, Event::Metadata(found)) => match found {
            Metadata::NotFound => {
                if spa && !asset {
                    (State::OpeningRootIndex, Action::OpenRootIndex)
                } else {
                    (State::Done, Action::Respond(Reply::NotFound))
                }
            },
            Metadata::Directory => (State::CheckingIndex, Action::QueryDirectoryIndex),
            Metadata::Failed => (State::Done, Action::Respond(Reply::InternalServerError)),
            Metadata::NotDirectory => (State::Done, Action::Respond(Reply::InternalServerError)),
        },
        (State::CheckingIndex, Event::Metadata(found)) => match found {
            Metadata::NotFound => (State::Done, Action::Respond(Reply::NotFound)),
            _ => (State::Done, Action::Respond(Reply::InternalServerError)),
        },
        (State::OpeningRootIndex, Event::Opened(opened)) => match opened {
            Opened::File => (State::Done, Action::Respond(Reply::RootIndex)),
            Opened::NotFound => (State::Done, Action::Respond(Reply::NotFound)),
            Opened::Failed => (State::Done, Action::Respond(Reply::InternalServerError)),
        },
        _ => (State::Done, Action::Respond(Reply::InternalServerError)),
    }
}

} // verus!
