use vstd::prelude::*;

use crate::lemmas::{
    agree, lemma_bundle_consumed, lemma_run_agree, lemma_run_stuck, lemma_step_agree,
    lemma_step_settled, reply_after, settled, short_opts,
};
use crate::model::{
    after_dash, answer_at, bundle, eq_index, first_eq, has_eq, long_option, outcome, run, single,
    token_step, Event, Run,
};
use crate::types::{
    answer_of, answers, dialogue, events_of, result_view, step_view, Arg, ParseError, ParseHint,
    ParseState,
};

verus! {

/// The events `args`, answered with `hints`, are what `expected` emits, and `r` is where it ends.
pub open spec fn traced<F: FnMut(Arg) -> Option<ParseHint>>(
    cb: F,
    args: Seq<Arg>,
    hints: Seq<Option<ParseHint>>,
    expected: Run,
    r: Result<ParseState, ParseError>,
) -> bool {
    &&& dialogue(cb, args, hints)
    &&& events_of(args) == expected.events
    &&& step_view(r) == expected.next
}

proof fn lemma_answers_push(hints: Seq<Option<ParseHint>>, h: Option<ParseHint>)
    ensures
        answers(hints.push(h)) == answers(hints).push(answer_of(h)),
        forall|j: int| 0 <= j < hints.len() ==> answer_at(answers(hints), j) == answer_of(hints[j]),
{
    assert(answers(hints.push(h)) =~= answers(hints).push(answer_of(h)));
}

proof fn lemma_consumed_push(hints: Seq<Option<ParseHint>>, h: Option<ParseHint>, i: int)
    requires
        0 <= i <= hints.len(),
        forall|j: int| 0 <= j < i ==> answer_at(answers(hints), j) is Consumed,
    ensures
        forall|j: int| 0 <= j < i ==> answer_at(answers(hints.push(h)), j) is Consumed,
{
    lemma_answers_push(hints, h);
    assert forall|j: int| 0 <= j < i implies answer_at(answers(hints.push(h)), j) is Consumed by {
        assert(answers(hints).len() == hints.len());
        assert(answer_at(answers(hints), j) is Consumed);
        assert(answers(hints).push(answer_of(h))[j] == answers(hints)[j]);
    }
}

proof fn lemma_answers_concat(h1: Seq<Option<ParseHint>>, h2: Seq<Option<ParseHint>>)
    ensures
        answers(h1 + h2) == answers(h1) + answers(h2),
{
    assert(answers(h1 + h2) =~= answers(h1) + answers(h2));
}

proof fn lemma_events_concat(a1: Seq<Arg>, a2: Seq<Arg>)
    ensures
        events_of(a1 + a2) == events_of(a1) + events_of(a2),
{
    assert(events_of(a1 + a2) =~= events_of(a1) + events_of(a2));
}

proof fn lemma_events_push(args: Seq<Arg>, a: Arg)
    ensures
        events_of(args.push(a)) == events_of(args).push(a@),
{
    assert(events_of(args.push(a)) =~= events_of(args).push(a@));
}

fn call<'a, F: FnMut(Arg) -> Option<ParseHint>>(cb: &mut F, a: Arg<'a>) -> (h: Option<
    ParseHint,
>)
    requires
        forall|x: Arg| call_requires(*old(cb), (x,)),
    ensures
        call_ensures(*old(cb), (a,), h),
        *final(cb) == *old(cb),
{
    cb(a)
}

/// A group of short options: `s` is what follows the dash.
fn short_group<'a, F: FnMut(Arg) -> Option<ParseHint>>(s: &'a str, cb: &mut F) -> (out: (
    Result<ParseState, ParseError>,
    Ghost<Seq<Arg<'a>>>,
    Ghost<Seq<Option<ParseHint>>>,
))
    requires
        forall|x: Arg| call_requires(*old(cb), (x,)),
    ensures
        *final(cb) == *old(cb),
        traced(*old(cb), out.1@, out.2@, bundle(s@, answers(out.2@), 0), out.0),
{
    let ghost cb0 = *cb;
    let ghost mut args: Seq<Arg<'a>> = seq![];
    let ghost mut hints: Seq<Option<ParseHint>> = seq![];
    let n = s.unicode_len();
    let mut i: usize = 0;
    while i < n
        invariant
            0 <= i <= n,
            n == s@.len(),
            *cb == cb0,
            cb0 == *old(cb),
            forall|x: Arg| call_requires(cb0, (x,)),
            dialogue(cb0, args, hints),
            args.len() == i,
            events_of(args) == short_opts(s@.take(i as int)),
            forall|j: int| 0 <= j < i ==> answer_at(answers(hints), j) is Consumed,
        decreases n - i,
    {
        let c = s.substring_char(i, i + 1);
        let h = call(cb, Arg::Opt(c));
        proof {
            lemma_answers_push(hints, h);
            lemma_events_push(args, Arg::Opt(c));
            lemma_consumed_push(hints, h, i as int);
            args = args.push(Arg::Opt(c));
            hints = hints.push(h);
            assert forall|j: int| 0 <= j <= i implies short_opts(s@.take(i + 1))[j]
                == short_opts(s@.take(i as int)).push(Event::Opt(c@))[j] by {
                if j < i {
                    assert(s@.take(i + 1).subrange(j, j + 1) =~= s@.take(i as int).subrange(
                        j,
                        j + 1,
                    ));
                } else {
                    assert(s@.take(i + 1).subrange(j, j + 1) =~= c@);
                }
            }
            assert(short_opts(s@.take(i + 1)) =~= short_opts(s@.take(i as int)).push(
                Event::Opt(c@),
            ));
            assert(s@.skip(i as int).take(1) =~= c@);
            assert(s@.skip(i as int).drop_first() =~= s@.skip(i + 1));
        }
        let ghost before = i as int;
        match h {
            None => {
                i = i + 1;
            },
            Some(ParseHint::ExpectParameter) => {
                if i + 1 < n {
                    let rest = s.substring_char(i + 1, n);
                    let h2 = call(cb, Arg::OptPar(c, rest));
                    proof {
                        lemma_answers_push(hints, h2);
                        lemma_events_push(args, Arg::OptPar(c, rest));
                        lemma_consumed_push(hints, h2, before);
                        let hs0 = hints;
                        args = args.push(Arg::OptPar(c, rest));
                        hints = hints.push(h2);
                        assert(rest@ =~= s@.skip(i + 1));
                        lemma_bundle_consumed(s@, answers(hints), 0, before);
                        assert(answer_at(answers(hints), before) == answer_at(answers(hs0), before));
                        assert(events_of(args) =~= short_opts(s@.take(before)) + bundle(
                            s@.skip(before),
                            answers(hints),
                            before,
                        ).events);
                    }
                    return (Ok(ParseState::Void), Ghost(args), Ghost(hints));
                } else {
                    proof {
                        lemma_bundle_consumed(s@, answers(hints), 0, before);
                        assert(s@.skip(before + 1).len() == 0);
                        assert(events_of(args) =~= short_opts(s@.take(before)) + bundle(
                            s@.skip(before),
                            answers(hints),
                            before,
                        ).events);
                    }
                    return (Ok(ParseState::Parameter(c.to_owned())), Ghost(args), Ghost(hints));
                }
            },
            Some(ParseHint::InvalidOption) => {
                proof {
                    lemma_bundle_consumed(s@, answers(hints), 0, before);
                    assert(events_of(args) =~= short_opts(s@.take(before)) + bundle(
                        s@.skip(before),
                        answers(hints),
                        before,
                    ).events);
                }
                return (Err(ParseError::InvalidOption(c.to_owned())), Ghost(args), Ghost(hints));
            },
            Some(ParseHint::InvalidValue(msg)) => {
                proof {
                    lemma_bundle_consumed(s@, answers(hints), 0, before);
                    assert(events_of(args) =~= short_opts(s@.take(before)) + bundle(
                        s@.skip(before),
                        answers(hints),
                        before,
                    ).events);
                }
                return (Err(ParseError::InvalidValue(c.to_owned(), msg)), Ghost(args), Ghost(hints));
            },
        }
    }
    proof {
        lemma_bundle_consumed(s@, answers(hints), 0, n as int);
        assert(s@.skip(n as int).len() == 0);
        assert(s@.take(n as int) =~= s@);
        assert(events_of(args) =~= short_opts(s@) + bundle(
            s@.skip(n as int),
            answers(hints),
            n as int,
        ).events);
    }
    (Ok(ParseState::Void), Ghost(args), Ghost(hints))
}

proof fn lemma_first_eq(s: Seq<char>, p: int)
    requires
        first_eq(s, p),
    ensures
        has_eq(s),
        eq_index(s) == p,
{
    let q = eq_index(s);
    assert(first_eq(s, q));
    if q < p {
        assert(s[q] != '=');
    } else if p < q {
        assert(s[p] != '=');
    }
}

/// A long option: `s` is what follows the two dashes.
fn long_opt<'a, F: FnMut(Arg) -> Option<ParseHint>>(s: &'a str, cb: &mut F) -> (out: (
    Result<ParseState, ParseError>,
    Ghost<Seq<Arg<'a>>>,
    Ghost<Seq<Option<ParseHint>>>,
))
    requires
        forall|x: Arg| call_requires(*old(cb), (x,)),
    ensures
        *final(cb) == *old(cb),
        traced(*old(cb), out.1@, out.2@, long_option(s@, answers(out.2@), 0), out.0),
{
    let n = s.unicode_len();
    if n == 0 {
        let ghost args: Seq<Arg<'a>> = seq![];
        let ghost hints: Seq<Option<ParseHint>> = seq![];
        proof {
            assert(events_of(args) =~= seq![]);
        }
        return (Ok(ParseState::ForcePos), Ghost(args), Ghost(hints));
    }
    let mut p: usize = 0;
    while p < n && s.get_char(p) != '='
        invariant
            0 <= p <= n,
            n == s@.len(),
            forall|q: int| 0 <= q < p ==> s@[q] != '=',
        decreases n - p,
    {
        p = p + 1;
    }
    if p < n {
        proof {
            lemma_first_eq(s@, p as int);
        }
        let name = s.substring_char(0, p);
        let value = s.substring_char(p + 1, n);
        let h = call(cb, Arg::Opt(name));
        let ghost hints = seq![h];
        let ghost args = seq![Arg::Opt(name)];
        proof {
            assert(name@ =~= s@.take(p as int));
            assert(value@ =~= s@.skip(p + 1));
            assert(answers(hints)[0] == answer_of(h));
            assert(events_of(seq![Arg::Opt(name)]) =~= seq![Event::Opt(name@)]);
        }
        match h {
            None => (
                Err(ParseError::UnexpectedParameter(name.to_owned(), value.to_owned())),
                Ghost(args),
                Ghost(hints),
            ),
            Some(ParseHint::ExpectParameter) => {
                let h2 = call(cb, Arg::OptPar(name, value));
                proof {
                    assert(answers(hints.push(h2))[0] == answer_of(h));
                    assert(events_of(seq![Arg::Opt(name), Arg::OptPar(name, value)]) =~= seq![
                        Event::Opt(name@),
                        Event::OptPar(name@, value@),
                    ]);
                    assert(seq![h, h2] =~= hints.push(h2));
                }
                let ghost args2 = seq![Arg::Opt(name), Arg::OptPar(name, value)];
                let ghost hints2 = seq![h, h2];
                (Ok(ParseState::Void), Ghost(args2), Ghost(hints2))
            },
            Some(ParseHint::InvalidOption) => (
                Err(ParseError::InvalidOption(name.to_owned())),
                Ghost(args),
                Ghost(hints),
            ),
            Some(ParseHint::InvalidValue(msg)) => (
                Err(ParseError::InvalidValue(name.to_owned(), msg)),
                Ghost(args),
                Ghost(hints),
            ),
        }
    } else {
        proof {
            assert(!has_eq(s@));
        }
        let h = call(cb, Arg::Opt(s));
        let ghost hints = seq![h];
        let ghost args = seq![Arg::Opt(s)];
        proof {
            assert(answers(hints)[0] == answer_of(h));
            assert(events_of(seq![Arg::Opt(s)]) =~= seq![Event::Opt(s@)]);
        }
        match h {
            None => (Ok(ParseState::Void), Ghost(args), Ghost(hints)),
            Some(ParseHint::ExpectParameter) => (
                Ok(ParseState::Parameter(s.to_owned())),
                Ghost(args),
                Ghost(hints),
            ),
            Some(ParseHint::InvalidOption) => (
                Err(ParseError::InvalidOption(s.to_owned())),
                Ghost(args),
                Ghost(hints),
            ),
            Some(ParseHint::InvalidValue(msg)) => (
                Err(ParseError::InvalidValue(s.to_owned(), msg)),
                Ghost(args),
                Ghost(hints),
            ),
        }
    }
}

/// What follows a single dash.
fn dash_rest<'a, F: FnMut(Arg) -> Option<ParseHint>>(s: &'a str, cb: &mut F) -> (out: (
    Result<ParseState, ParseError>,
    Ghost<Seq<Arg<'a>>>,
    Ghost<Seq<Option<ParseHint>>>,
))
    requires
        forall|x: Arg| call_requires(*old(cb), (x,)),
    ensures
        *final(cb) == *old(cb),
        traced(*old(cb), out.1@, out.2@, after_dash(s@, answers(out.2@), 0), out.0),
{
    let n = s.unicode_len();
    if n == 0 {
        let h = call(cb, Arg::Pos("-"));
        let ghost hints = seq![h];
        let ghost args = seq![Arg::Pos("-")];
        proof {
            reveal_strlit("-");
            assert("-"@ =~= seq!['-']);
            assert(answers(hints)[0] == answer_of(h));
            assert(events_of(args) =~= seq![Event::Pos(seq!['-'])]);
        }
        (Ok(ParseState::Void), Ghost(args), Ghost(hints))
    } else if s.get_char(0) == '-' {
        let rest = s.substring_char(1, n);
        proof {
            assert(rest@ =~= s@.drop_first());
        }
        long_opt(rest, cb)
    } else {
        short_group(s, cb)
    }
}

/// One transition of the automaton on the token `t`.
fn step<'a, F: FnMut(Arg) -> Option<ParseHint>>(
    state: ParseState,
    t: &'a str,
    cb: &mut F,
) -> (out: (Result<ParseState, ParseError>, Ghost<Seq<Arg<'a>>>, Ghost<Seq<Option<ParseHint>>>))
    requires
        forall|x: Arg| call_requires(*old(cb), (x,)),
    ensures
        *final(cb) == *old(cb),
        traced(*old(cb), out.1@, out.2@, token_step(state@, t@, answers(out.2@), 0), out.0),
{
    match state {
        ParseState::Void => {
            if t.is_empty() {
                let ghost args: Seq<Arg<'a>> = seq![];
                let ghost hints: Seq<Option<ParseHint>> = seq![];
                proof {
                    assert(events_of(args) =~= seq![]);
                }
                (Ok(ParseState::Void), Ghost(args), Ghost(hints))
            } else {
                let n = t.unicode_len();
                if t.get_char(0) == '-' {
                    let rest = t.substring_char(1, n);
                    proof {
                        assert(rest@ =~= t@.drop_first());
                    }
                    dash_rest(rest, cb)
                } else {
                    let h = call(cb, Arg::Pos(t));
                    let ghost hints = seq![h];
                    let ghost args = seq![Arg::Pos(t)];
                    proof {
                        assert(events_of(args) =~= seq![Event::Pos(t@)]);
                    }
                    (Ok(ParseState::Void), Ghost(args), Ghost(hints))
                }
            }
        },
        ParseState::Dash => dash_rest(t, cb),
        ParseState::DoubleDash => long_opt(t, cb),
        ParseState::Combo => short_group(t, cb),
        ParseState::Parameter(name) => {
            let a = Arg::OptPar(name.as_str(), t);
            let h = call(cb, a);
            let ghost hints = seq![h];
            let ghost args = seq![a];
            proof {
                assert(answers(hints)[0] == answer_of(h));
                assert(events_of(args) =~= seq![Event::OptPar(name@, t@)]);
            }
            match h {
                None => (Ok(ParseState::Void), Ghost(args), Ghost(hints)),
                Some(ParseHint::ExpectParameter) => (
                    Err(ParseError::InvalidHint),
                    Ghost(args),
                    Ghost(hints),
                ),
                Some(ParseHint::InvalidOption) => (
                    Err(ParseError::InvalidOption(name)),
                    Ghost(args),
                    Ghost(hints),
                ),
                Some(ParseHint::InvalidValue(msg)) => (
                    Err(ParseError::InvalidValue(name, msg)),
                    Ghost(args),
                    Ghost(hints),
                ),
            }
        },
        ParseState::ForcePos => {
            let h = call(cb, Arg::Pos(t));
            let ghost hints = seq![h];
            let ghost args = seq![Arg::Pos(t)];
            proof {
                assert(events_of(args) =~= seq![Event::Pos(t@)]);
            }
            (Ok(ParseState::ForcePos), Ghost(args), Ghost(hints))
        },
    }
}

/// The text of each token.
pub open spec fn tokens(args: Seq<&str>) -> Seq<Seq<char>> {
    args.map_values(|t: &str| t@)
}

impl ParseState {
    /// Feeds one token to the automaton and returns where it stands after it.
    /// The callback `cb` is told of each event in turn; the events, and the state or the
    /// failure reached, are those of `token_step` on the replies that `cb` gave.
    pub fn parse(self, arg: &str, cb: impl FnMut(Arg) -> Option<ParseHint>) -> (r: Result<
        ParseState,
        ParseError,
    >)
        requires
            forall|x: Arg| call_requires(cb, (x,)),
        ensures
            exists|args: Seq<Arg>, hints: Seq<Option<ParseHint>>|
                traced(cb, args, hints, token_step(self@, arg@, answers(hints), 0), r),
    {
        let ghost mode = self@;
        let mut f = cb;
        let out = step(self, arg, &mut f);
        proof {
            assert(traced(cb, out.1@, out.2@, token_step(mode, arg@, answers(out.2@), 0), out.0));
        }
        out.0
    }
}

/// Runs the automaton over `args`, telling `cb` of each event in turn.
/// The events, and the result, are those of `run` and `outcome` on the replies that `cb` gave:
/// the first failure ends the parse, and input may not end while a value is awaited.
pub fn parse(args: &[&str], cb: impl FnMut(Arg) -> Option<ParseHint>) -> (r: Result<
    (),
    ParseError,
>)
    requires
        forall|x: Arg| call_requires(cb, (x,)),
    ensures
        exists|evs: Seq<Arg>, hints: Seq<Option<ParseHint>>|
            {
                &&& dialogue(cb, evs, hints)
                &&& events_of(evs) == run(tokens(args@), answers(hints)).events
                &&& result_view(r) == outcome(tokens(args@), answers(hints))
            },
{
    let ghost ts = tokens(args@);
    let mut f = cb;
    let ghost mut evs: Seq<Arg> = seq![];
    let ghost mut hints: Seq<Option<ParseHint>> = seq![];
    let mut state = ParseState::Void;
    let mut i: usize = 0;
    proof {
        assert(ts.take(0) =~= seq![]);
        assert(events_of(evs) =~= seq![]);
    }
    while i < args.len()
        invariant
            0 <= i <= args.len(),
            ts == tokens(args@),
            ts.len() == args@.len(),
            f == cb,
            forall|x: Arg| call_requires(cb, (x,)),
            dialogue(cb, evs, hints),
            run(ts.take(i as int), answers(hints)) == single(events_of(evs), Ok(state@)),
            settled(state@),
        decreases args.len() - i,
    {
        let t: &str = args[i];
        let ghost mode = state@;
        let out = step(state, t, &mut f);
        let ghost a2 = out.1@;
        let ghost h2 = out.2@;
        proof {
            let n = hints.len() as int;
            let all = hints + h2;
            lemma_answers_concat(hints, h2);
            assert(agree(answers(all), 0, answers(hints), 0, n)) by {
                assert forall|j: int| 0 <= j < n implies #[trigger] reply_after(answers(all), 0, j)
                    == reply_after(answers(hints), 0, j) by {
                    assert(answers(all)[0 + j] == answers(hints)[0 + j]);
                }
            }
            lemma_run_agree(ts.take(i as int), answers(hints), answers(all));
            let st = token_step(mode, t@, answers(h2), 0);
            assert(agree(answers(h2), 0, answers(all), n, st.events.len() as int)) by {
                assert forall|j: int| 0 <= j < st.events.len() implies #[trigger] reply_after(
                    answers(h2),
                    0,
                    j,
                ) == reply_after(answers(all), n, j) by {
                    assert(answers(all)[n + j] == answers(h2)[0 + j]);
                }
            }
            lemma_step_agree(mode, t@, answers(h2), 0, answers(all), n);
            assert(ts.take(i + 1).drop_last() =~= ts.take(i as int));
            assert(ts.take(i + 1).last() == t@);
            lemma_events_concat(evs, a2);
            assert forall|j: int| 0 <= j < evs.len() + a2.len() implies call_ensures(
                cb,
                ((evs + a2)[j],),
                #[trigger] all[j],
            ) by {
                if j >= evs.len() {
                    assert(call_ensures(cb, (a2[j - evs.len()],), h2[j - evs.len()]));
                } else {
                    assert(call_ensures(cb, (evs[j],), hints[j]));
                }
            }
            evs = evs + a2;
            hints = all;
            lemma_step_settled(mode, t@, answers(h2), 0);
            assert(run(ts.take(i + 1), answers(hints)) == single(
                events_of(evs),
                step_view(out.0),
            ));
        }
        match out.0 {
            Ok(s) => {
                state = s;
                i = i + 1;
            },
            Err(e) => {
                proof {
                    lemma_run_stuck(ts, answers(hints), i + 1);
                    assert(result_view(Err(e)) == outcome(ts, answers(hints)));
                    assert(dialogue(cb, evs, hints));
                    assert(events_of(evs) == run(tokens(args@), answers(hints)).events);
                    assert(result_view(Err(e)) == outcome(tokens(args@), answers(hints)));
                }
                return Err(e);
            },
        }
    }
    proof {
        assert(ts.take(i as int) =~= ts);
    }
    match state {
        ParseState::Parameter(name) => Err(ParseError::MissingParameter(name)),
        _ => Ok(()),
    }
}

} // verus!
