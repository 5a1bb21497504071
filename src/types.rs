use vstd::prelude::*;

use crate::model::{Answer, Event, Failure, Mode};

verus! {

/// The automaton's state between two pieces of input.
#[derive(Debug)]
pub enum ParseState {
    Void,
    Combo,
    Dash,
    DoubleDash,
    Parameter(String),
    ForcePos,
}

/// One classified piece of input, borrowed from the tokens.
#[derive(Debug, Clone, Copy, PartialEq, Eq)]
pub enum Arg<'a> {
    Opt(&'a str),
    OptPar(&'a str, &'a str),
    Pos(&'a str),
}

/// What the callback asks of the automaton; `None` in its place means "consumed".
#[derive(Debug, Clone, PartialEq, Eq)]
pub enum ParseHint {
    InvalidOption,
    InvalidValue(String),
    ExpectParameter,
}

/// Why a parse ended early.
#[derive(Debug, Clone, PartialEq, Eq)]
pub enum ParseError {
    InvalidOption(String),
    InvalidValue(String, String),
    InvalidHint,
    MissingParameter(String),
    UnexpectedParameter(String, String),
}

impl View for ParseState {
    type V = Mode;

    open spec fn view(&self) -> Mode {
        match self {
            ParseState::Void => Mode::Void,
            ParseState::Combo => Mode::Combo,
            ParseState::Dash => Mode::Dash,
            ParseState::DoubleDash => Mode::DoubleDash,
            ParseState::Parameter(name) => Mode::Parameter(name@),
            ParseState::ForcePos => Mode::ForcePos,
        }
    }
}

impl<'a> View for Arg<'a> {
    type V = Event;

    open spec fn view(&self) -> Event {
        match self {
            Arg::Opt(name) => Event::Opt(name@),
            Arg::OptPar(name, value) => Event::OptPar(name@, value@),
            Arg::Pos(value) => Event::Pos(value@),
        }
    }
}

impl View for ParseError {
    type V = Failure;

    open spec fn view(&self) -> Failure {
        match self {
            ParseError::InvalidOption(name) => Failure::InvalidOption(name@),
            ParseError::InvalidValue(name, msg) => Failure::InvalidValue(name@, msg@),
            ParseError::InvalidHint => Failure::InvalidHint,
            ParseError::MissingParameter(name) => Failure::MissingParameter(name@),
            ParseError::UnexpectedParameter(name, value) => Failure::UnexpectedParameter(
                name@,
                value@,
            ),
        }
    }
}

/// The reply that a callback's return value stands for.
pub open spec fn answer_of(h: Option<ParseHint>) -> Answer {
    match h {
        None => Answer::Consumed,
        Some(ParseHint::ExpectParameter) => Answer::NeedsValue,
        Some(ParseHint::InvalidOption) => Answer::Reject,
        Some(ParseHint::InvalidValue(msg)) => Answer::RejectValue(msg@),
    }
}

pub open spec fn answers(hints: Seq<Option<ParseHint>>) -> Seq<Answer> {
    hints.map_values(|h: Option<ParseHint>| answer_of(h))
}

pub open spec fn events_of(args: Seq<Arg>) -> Seq<Event> {
    args.map_values(|a: Arg| a@)
}

/// `cb` may have answered the events `args`, in order, with `hints`.
pub open spec fn dialogue<F: FnMut(Arg) -> Option<ParseHint>>(
    cb: F,
    args: Seq<Arg>,
    hints: Seq<Option<ParseHint>>,
) -> bool {
    &&& args.len() == hints.len()
    &&& forall|i: int| 0 <= i < args.len() ==> call_ensures(cb, (args[i],), hints[i])
}

/// A result of a parse, seen through the specification.
pub open spec fn result_view(r: Result<(), ParseError>) -> Result<(), Failure> {
    match r {
        Ok(()) => Ok(()),
        Err(e) => Err(e@),
    }
}

pub open spec fn step_view(r: Result<ParseState, ParseError>) -> Result<Mode, Failure> {
    match r {
        Ok(s) => Ok(s@),
        Err(e) => Err(e@),
    }
}

/// The one line of text that describes a failure.
pub open spec fn message_of(f: Failure) -> Seq<char> {
    match f {
        Failure::InvalidOption(name) => "Invalid option: "@ + name,
        Failure::MissingParameter(name) => "Missing parameter for "@ + name,
        Failure::UnexpectedParameter(name, value) => "Unexpected parameter for "@ + name + ": "@
            + value,
        Failure::InvalidValue(name, msg) => "Invalid value for "@ + name + ": "@ + msg,
        Failure::InvalidHint => "Handler returned an invalid parse hint"@,
    }
}

impl ParseError {
    /// Renders the error as one line of text.
    pub fn message(&self) -> (r: String)
        ensures
            r@ == message_of(self@),
    {
        match self {
            ParseError::InvalidOption(name) => "Invalid option: ".to_owned().concat(name.as_str()),
            ParseError::MissingParameter(name) => "Missing parameter for ".to_owned().concat(
                name.as_str(),
            ),
            ParseError::UnexpectedParameter(name, value) => "Unexpected parameter for ".to_owned().concat(
                name.as_str(),
            ).concat(": ").concat(value.as_str()),
            ParseError::InvalidValue(name, msg) => "Invalid value for ".to_owned().concat(
                name.as_str(),
            ).concat(": ").concat(msg.as_str()),
            ParseError::InvalidHint => "Handler returned an invalid parse hint".to_owned(),
        }
    }
}

} // verus!
