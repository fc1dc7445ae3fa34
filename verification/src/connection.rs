//! The life of one connection, as a state machine.
//!
//! A connection carries one request and one response. The server decides;
//! whoever drives the connection does the outside work and reports back:
//!
//! ```text
//! ReadRequest --Received--> StaticHit --FileRead--> WriteResponse --Written--> Closed
//!       \------Received---------------------------->/
//! ```
//!
//! The driver first reads the request and reports `Received`. A path with a
//! static route leads to `StaticHit` and the action `ReadFile`: the driver
//! tries to read the file that the route's content names and reports
//! `FileRead`. A file that was read is sent framed as a `200` response; with
//! no file the content itself is the whole response, status line included,
//! and nothing is added to it. Every other request is answered at once: by
//! the handler of the first matching route, whose text is sent as it is, by
//! `404`, or by `400` if the text is no request. The action `Write` carries the
//! whole response; once the driver reports `Written` the connection is
//! closed. An event that does not belong to the state, and `Failed` in every
//! state, close the connection without a response.

use crate::request::{
    boundary, decode_lossy, lemma_malformed_iff_no_boundary, parse, parse_request, utf8_lossy,
};
use crate::search::contains;
use crate::response::{bad_request, bad_request_text, file_response, file_response_text, not_found_text};
use crate::server::{Resolution, ResolutionModel, Server};
use crate::strmap::StringMap;
use vstd::prelude::*;
use vstd::utf8::{decode_utf8, valid_utf8};

verus! {

/// Where a connection stands.
#[derive(Debug)]
pub enum ConnectionState {
    /// The request has not come yet.
    ReadRequest,
    /// The path has a static route with this content; whether the content
    /// names a file that can be read is not known yet.
    StaticHit(String),
    /// The response was handed out and is being written.
    WriteResponse,
    /// Nothing more happens on this connection.
    Closed,
}

/// What the driver reports.
#[derive(Debug)]
pub enum Event {
    /// The bytes of the request, as they were read.
    Received(Vec<u8>),
    /// The text of the file that `ReadFile` named, or `None` if it could
    /// not be read.
    FileRead(Option<String>),
    /// The response was written.
    Written,
    /// Reading or writing failed.
    Failed,
}

/// What the driver has to do next.
#[derive(Debug)]
pub enum Action {
    /// Try to read the file of this name, and report `FileRead`.
    ReadFile(String),
    /// Write this response, and report `Written`.
    Write(String),
    /// Close the connection.
    Close,
}

/// A state as plain values.
pub enum StateModel {
    ReadRequest,
    StaticHit(Seq<char>),
    WriteResponse,
    Closed,
}

/// An event as plain values.
pub enum EventModel {
    Received(Seq<u8>),
    FileRead(Option<Seq<char>>),
    Written,
    Failed,
}

/// An action as plain values.
pub enum ActionModel {
    ReadFile(Seq<char>),
    Write(Seq<char>),
    Close,
}

impl View for ConnectionState {
    type V = StateModel;

    open spec fn view(&self) -> StateModel {
        match self {
            ConnectionState::ReadRequest => StateModel::ReadRequest,
            ConnectionState::StaticHit(content) => StateModel::StaticHit(content@),
            ConnectionState::WriteResponse => StateModel::WriteResponse,
            ConnectionState::Closed => StateModel::Closed,
        }
    }
}

impl View for Event {
    type V = EventModel;

    open spec fn view(&self) -> EventModel {
        match self {
            Event::Received(raw) => EventModel::Received(raw@),
            Event::FileRead(Some(text)) => EventModel::FileRead(Some(text@)),
            Event::FileRead(None) => EventModel::FileRead(None),
            Event::Written => EventModel::Written,
            Event::Failed => EventModel::Failed,
        }
    }
}

impl View for Action {
    type V = ActionModel;

    open spec fn view(&self) -> ActionModel {
        match self {
            Action::ReadFile(name) => ActionModel::ReadFile(name@),
            Action::Write(response) => ActionModel::Write(response@),
            Action::Close => ActionModel::Close,
        }
    }
}

/// How many steps a connection in `state` has before it at most.
pub open spec fn steps_left(state: StateModel) -> nat {
    match state {
        StateModel::ReadRequest => 3,
        StateModel::StaticHit(_) => 2,
        StateModel::WriteResponse => 1,
        StateModel::Closed => 0,
    }
}

/// The step that a file's outcome gives in `StaticHit`: the file's text goes
/// out framed, and without a file the route's content goes out as it is.
pub open spec fn file_step(content: Seq<char>, file: Option<Seq<char>>) -> (StateModel, ActionModel) {
    match file {
        Some(text) => (StateModel::WriteResponse, ActionModel::Write(file_response_text(text))),
        None => (StateModel::WriteResponse, ActionModel::Write(content)),
    }
}

impl<H: Fn(&str, StringMap, &str, StringMap) -> Result<String, String>> Server<H> {
    /// Whether `(next, action)` is a step that this server may take when the
    /// text of a request has come.
    pub open spec fn receives(&self, text: Seq<char>, next: StateModel, action: ActionModel) -> bool {
        match parse(text) {
            Err(_) => next == StateModel::WriteResponse && action == ActionModel::Write(
                bad_request_text(),
            ),
            Ok(request) => match self.resolution(request.path) {
                ResolutionModel::Static(content) => next == StateModel::StaticHit(content) && action
                    == ActionModel::ReadFile(content),
                _ => {
                    &&& next == StateModel::WriteResponse
                    &&& action matches ActionModel::Write(response)
                    &&& self.answers(request, response)
                },
            },
        }
    }

    /// Whether `(next, action)` is a step that this server may take in
    /// `state` on `event`.
    pub open spec fn steps(
        &self,
        state: StateModel,
        event: EventModel,
        next: StateModel,
        action: ActionModel,
    ) -> bool {
        match (state, event) {
            (StateModel::ReadRequest, EventModel::Received(raw)) => self.receives(
                utf8_lossy(raw),
                next,
                action,
            ),
            (StateModel::StaticHit(content), EventModel::FileRead(file)) => (next, action)
                == file_step(content, file),
            _ => next == StateModel::Closed && action == ActionModel::Close,
        }
    }

    /// Every step brings a connection nearer to its end, a closed connection
    /// stays closed, and a response is written in the one step that leads to
    /// `WriteResponse`: so a connection sees at most one response and is
    /// closed after three steps at most.
    pub proof fn lemma_steps_end(
        &self,
        state: StateModel,
        event: EventModel,
        next: StateModel,
        action: ActionModel,
    )
        requires
            self.steps(state, event, next, action),
        ensures
            state is Closed ==> next is Closed && action is Close,
            !(state is Closed) ==> steps_left(next) < steps_left(state),
            action is Write <==> next is WriteResponse,
            action is ReadFile <==> next is StaticHit,
    {
    }

    /// A request whose path has a static route never reaches a handler: the
    /// step asks for the file that the route's content names, whatever
    /// dynamic routes there are.
    pub proof fn lemma_static_path_skips_handlers(
        &self,
        text: Seq<char>,
        next: StateModel,
        action: ActionModel,
    )
        requires
            self.receives(text, next, action),
            parse(text) is Ok,
            self.static_map().contains_key(parse(text)->Ok_0.path),
        ensures
            next == StateModel::StaticHit(self.static_map()[parse(text)->Ok_0.path]),
            action == ActionModel::ReadFile(self.static_map()[parse(text)->Ok_0.path]),
    {
    }

    /// A request whose path has no static route and matches no pattern is
    /// answered with the `404` response.
    pub proof fn lemma_unknown_path_gets_404(
        &self,
        text: Seq<char>,
        next: StateModel,
        action: ActionModel,
    )
        requires
            self.receives(text, next, action),
            parse(text) is Ok,
            self.resolution(parse(text)->Ok_0.path) is NotFound,
        ensures
            next == StateModel::WriteResponse,
            action == ActionModel::Write(not_found_text()),
    {
    }

    /// A text without a blank line is answered with the `400` response, and
    /// no route is looked at.
    pub proof fn lemma_malformed_text_gets_400(
        &self,
        text: Seq<char>,
        next: StateModel,
        action: ActionModel,
    )
        requires
            self.receives(text, next, action),
            !contains(text, boundary()),
        ensures
            next == StateModel::WriteResponse,
            action == ActionModel::Write(bad_request_text()),
    {
        lemma_malformed_iff_no_boundary(text);
    }

    /// The step on the text of a request; see `receives`.
    pub fn receive(&self, text: &str) -> (step: (ConnectionState, Action))
        ensures
            self.receives(text@, step.0@, step.1@),
    {
        let request = match parse_request(text) {
            Ok(request) => request,
            Err(_) => {
                return (ConnectionState::WriteResponse, Action::Write(bad_request()));
            },
        };
        match self.resolve(request.path.as_str()) {
            Resolution::Static(content) => {
                let name = content.clone();
                (ConnectionState::StaticHit(content), Action::ReadFile(name))
            },
            found => {
                let response = self.answer(&request, found);
                (ConnectionState::WriteResponse, Action::Write(response))
            },
        }
    }

    /// The step in `state` on `event`; see `steps`. The bytes of a request
    /// are read as UTF-8: well-formed bytes as the text that they encode, and
    /// every ill-formed part as U+FFFD.
    pub fn advance(&self, state: ConnectionState, event: Event) -> (step: (ConnectionState, Action))
        ensures
            self.steps(state@, event@, step.0@, step.1@),
            state is ReadRequest && event is Received && valid_utf8(event->Received_0@)
                ==> utf8_lossy(event->Received_0@) == decode_utf8(event->Received_0@),
    {
        match (state, event) {
            (ConnectionState::ReadRequest, Event::Received(raw)) => {
                let text = decode_lossy(raw.as_slice());
                self.receive(text.as_str())
            },
            (ConnectionState::StaticHit(_), Event::FileRead(Some(text))) => (
                ConnectionState::WriteResponse,
                Action::Write(file_response(text.as_str())),
            ),
            (ConnectionState::StaticHit(content), Event::FileRead(None)) => (
                ConnectionState::WriteResponse,
                Action::Write(content),
            ),
            _ => (ConnectionState::Closed, Action::Close),
        }
    }
}

} // verus!
