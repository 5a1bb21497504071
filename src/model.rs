use vstd::prelude::*;

verus! {

/// What the callback is told about one classified piece of input.
pub enum Event {
    Opt(Seq<char>),
    OptPar(Seq<char>, Seq<char>),
    Pos(Seq<char>),
}

/// The callback's reply to one event.
pub enum Answer {
    Consumed,
    NeedsValue,
    Reject,
    RejectValue(Seq<char>),
}

/// A terminal outcome of the automaton.
pub enum Failure {
    InvalidOption(Seq<char>),
    InvalidValue(Seq<char>, Seq<char>),
    InvalidHint,
    MissingParameter(Seq<char>),
    UnexpectedParameter(Seq<char>, Seq<char>),
}

/// The automaton's state, as seen by the specification.
pub enum Mode {
    Void,
    Combo,
    Dash,
    DoubleDash,
    Parameter(Seq<char>),
    ForcePos,
}

/// The events emitted while handling some input, and where the automaton stands after it.
pub struct Run {
    pub events: Seq<Event>,
    pub next: Result<Mode, Failure>,
}

/// The reply at position `i` of a reply sequence; past its end, a reply is taken as `Consumed`.
pub open spec fn answer_at(hs: Seq<Answer>, i: int) -> Answer {
    if 0 <= i < hs.len() {
        hs[i]
    } else {
        Answer::Consumed
    }
}

/// The run made of `events` that ends at `next`.
pub open spec fn single(events: Seq<Event>, next: Result<Mode, Failure>) -> Run {
    Run { events, next }
}

/// `p` is the position of the first `=` in `s`.
pub open spec fn first_eq(s: Seq<char>, p: int) -> bool {
    &&& 0 <= p < s.len()
    &&& s[p] == '='
    &&& forall|j: int| 0 <= j < p ==> s[j] != '='
}

pub open spec fn has_eq(s: Seq<char>) -> bool {
    exists|p: int| first_eq(s, p)
}

pub open spec fn eq_index(s: Seq<char>) -> int {
    choose|p: int| first_eq(s, p)
}

/// A group of short options, `s` being what follows the dash; replies are read from `k` on.
pub open spec fn bundle(s: Seq<char>, hs: Seq<Answer>, k: int) -> Run
    decreases s.len(),
{
    if s.len() == 0 {
        single(seq![], Ok(Mode::Void))
    } else {
        let c = s.take(1);
        let rest = s.drop_first();
        let ev = Event::Opt(c);
        match answer_at(hs, k) {
            Answer::Consumed => {
                let r = bundle(rest, hs, k + 1);
                single(seq![ev] + r.events, r.next)
            },
            Answer::NeedsValue => if rest.len() > 0 {
                single(seq![ev, Event::OptPar(c, rest)], Ok(Mode::Void))
            } else {
                single(seq![ev], Ok(Mode::Parameter(c)))
            },
            Answer::Reject => single(seq![ev], Err(Failure::InvalidOption(c))),
            Answer::RejectValue(m) => single(seq![ev], Err(Failure::InvalidValue(c, m))),
        }
    }
}

/// A long option, `s` being what follows the two dashes.
pub open spec fn long_option(s: Seq<char>, hs: Seq<Answer>, k: int) -> Run {
    if s.len() == 0 {
        single(seq![], Ok(Mode::ForcePos))
    } else if has_eq(s) {
        let p = eq_index(s);
        let name = s.take(p);
        let value = s.skip(p + 1);
        let ev = Event::Opt(name);
        match answer_at(hs, k) {
            Answer::Consumed => single(
                seq![ev],
                Err(Failure::UnexpectedParameter(name, value)),
            ),
            Answer::NeedsValue => single(seq![ev, Event::OptPar(name, value)], Ok(Mode::Void)),
            Answer::Reject => single(seq![ev], Err(Failure::InvalidOption(name))),
            Answer::RejectValue(m) => single(seq![ev], Err(Failure::InvalidValue(name, m))),
        }
    } else {
        let ev = Event::Opt(s);
        match answer_at(hs, k) {
            Answer::Consumed => single(seq![ev], Ok(Mode::Void)),
            Answer::NeedsValue => single(seq![ev], Ok(Mode::Parameter(s))),
            Answer::Reject => single(seq![ev], Err(Failure::InvalidOption(s))),
            Answer::RejectValue(m) => single(seq![ev], Err(Failure::InvalidValue(s, m))),
        }
    }
}

/// What follows a single dash.
pub open spec fn after_dash(s: Seq<char>, hs: Seq<Answer>, k: int) -> Run {
    if s.len() == 0 {
        single(seq![Event::Pos(seq!['-'])], Ok(Mode::Void))
    } else if s[0] == '-' {
        long_option(s.drop_first(), hs, k)
    } else {
        bundle(s, hs, k)
    }
}

/// The whole next token taken as the value of option `name`.
pub open spec fn value_for(name: Seq<char>, t: Seq<char>, hs: Seq<Answer>, k: int) -> Run {
    let ev = Event::OptPar(name, t);
    match answer_at(hs, k) {
        Answer::Consumed => single(seq![ev], Ok(Mode::Void)),
        Answer::NeedsValue => single(seq![ev], Err(Failure::InvalidHint)),
        Answer::Reject => single(seq![ev], Err(Failure::InvalidOption(name))),
        Answer::RejectValue(m) => single(seq![ev], Err(Failure::InvalidValue(name, m))),
    }
}

/// One transition: the automaton in mode `m` reads `t`, the replies to its events
/// being read from `hs` at `k` on.
pub open spec fn token_step(m: Mode, t: Seq<char>, hs: Seq<Answer>, k: int) -> Run {
    match m {
        Mode::Void => if t.len() == 0 {
            single(seq![], Ok(Mode::Void))
        } else if t[0] == '-' {
            after_dash(t.drop_first(), hs, k)
        } else {
            single(seq![Event::Pos(t)], Ok(Mode::Void))
        },
        Mode::Dash => after_dash(t, hs, k),
        Mode::DoubleDash => long_option(t, hs, k),
        Mode::Combo => bundle(t, hs, k),
        Mode::Parameter(name) => value_for(name, t, hs, k),
        Mode::ForcePos => single(seq![Event::Pos(t)], Ok(Mode::ForcePos)),
    }
}

/// The automaton run from `Void` over the tokens `ts`, fed the replies `hs` in order;
/// it stops at the first failure.
pub open spec fn run(ts: Seq<Seq<char>>, hs: Seq<Answer>) -> Run
    decreases ts.len(),
{
    if ts.len() == 0 {
        single(seq![], Ok(Mode::Void))
    } else {
        let prev = run(ts.drop_last(), hs);
        match prev.next {
            Ok(m) => {
                let st = token_step(m, ts.last(), hs, prev.events.len() as int);
                single(prev.events + st.events, st.next)
            },
            Err(_) => prev,
        }
    }
}

/// The result of a whole parse: input may not end while a value is awaited.
pub open spec fn outcome(ts: Seq<Seq<char>>, hs: Seq<Answer>) -> Result<(), Failure> {
    match run(ts, hs).next {
        Ok(Mode::Parameter(name)) => Err(Failure::MissingParameter(name)),
        Ok(_) => Ok(()),
        Err(e) => Err(e),
    }
}

} // verus!
