use vstd::prelude::*;

use crate::lemmas::{lemma_run_prefix, reply_after};
use crate::model::{bundle, outcome, run, token_step, Answer, Event, Failure, Mode, Run};

verus! {

/// Tokens that are not empty and do not start with a dash are all positional: whatever the
/// callback replies, each of them is reported as `Pos`, in order, and the parse succeeds.
pub proof fn plain_tokens_are_positional(ts: Seq<Seq<char>>, hs: Seq<Answer>)
    requires
        forall|i: int| 0 <= i < ts.len() ==> #[trigger] ts[i].len() > 0 && ts[i][0] != '-',
    ensures
        run(ts, hs).events == ts.map_values(|t: Seq<char>| Event::Pos(t)),
        run(ts, hs).next == Ok::<Mode, Failure>(Mode::Void),
        outcome(ts, hs) == Ok::<(), Failure>(()),
    decreases ts.len(),
{
    if ts.len() > 0 {
        let front = ts.drop_last();
        assert forall|i: int| 0 <= i < front.len() implies #[trigger] front[i].len() > 0
            && front[i][0] != '-' by {
            assert(front[i] == ts[i]);
        }
        plain_tokens_are_positional(front, hs);
        assert(ts[ts.len() - 1].len() > 0);
        assert(ts.map_values(|t: Seq<char>| Event::Pos(t)) =~= front.map_values(
            |t: Seq<char>| Event::Pos(t),
        ).push(Event::Pos(ts.last())));
    }
}

/// The replies `hs`, read from `k` on, are what `rule` gives for the events of `r`.
pub open spec fn replies_follow(r: Run, hs: Seq<Answer>, k: int, rule: spec_fn(Event) -> Answer) -> bool {
    forall|j: int| 0 <= j < r.events.len() ==> #[trigger] reply_after(hs, k, j) == rule(r.events[j])
}

proof fn lemma_bundle_rule(
    s: Seq<char>,
    h1: Seq<Answer>,
    k1: int,
    h2: Seq<Answer>,
    k2: int,
    rule: spec_fn(Event) -> Answer,
)
    requires
        replies_follow(bundle(s, h1, k1), h1, k1, rule),
        replies_follow(bundle(s, h2, k2), h2, k2, rule),
    ensures
        bundle(s, h1, k1) == bundle(s, h2, k2),
    decreases s.len(),
{
    if s.len() > 0 {
        assert(reply_after(h1, k1, 0) == rule(Event::Opt(s.take(1))));
        assert(reply_after(h2, k2, 0) == rule(Event::Opt(s.take(1))));
        let rest = s.drop_first();
        if reply_after(h1, k1, 0) is Consumed {
            let b1 = bundle(s, h1, k1);
            let b2 = bundle(s, h2, k2);
            let r1 = bundle(rest, h1, k1 + 1);
            let r2 = bundle(rest, h2, k2 + 1);
            assert forall|j: int| 0 <= j < r1.events.len() implies #[trigger] reply_after(
                h1,
                k1 + 1,
                j,
            ) == rule(r1.events[j]) by {
                assert(reply_after(h1, k1, j + 1) == rule(b1.events[j + 1]));
                assert(b1.events[j + 1] == r1.events[j]);
            }
            assert forall|j: int| 0 <= j < r2.events.len() implies #[trigger] reply_after(
                h2,
                k2 + 1,
                j,
            ) == rule(r2.events[j]) by {
                assert(reply_after(h2, k2, j + 1) == rule(b2.events[j + 1]));
                assert(b2.events[j + 1] == r2.events[j]);
            }
            lemma_bundle_rule(rest, h1, k1 + 1, h2, k2 + 1, rule);
        }
    }
}

proof fn lemma_step_rule(
    m: Mode,
    t: Seq<char>,
    h1: Seq<Answer>,
    k1: int,
    h2: Seq<Answer>,
    k2: int,
    rule: spec_fn(Event) -> Answer,
)
    requires
        replies_follow(token_step(m, t, h1, k1), h1, k1, rule),
        replies_follow(token_step(m, t, h2, k2), h2, k2, rule),
    ensures
        token_step(m, t, h1, k1) == token_step(m, t, h2, k2),
{
    let s = if m is Void && t.len() > 0 && t[0] == '-' {
        t.drop_first()
    } else {
        t
    };
    if m is Combo || (m is Dash && s.len() > 0 && s[0] != '-') || (m is Void && t.len() > 0
        && t[0] == '-' && s.len() > 0 && s[0] != '-') {
        lemma_bundle_rule(s, h1, k1, h2, k2, rule);
    }
    let st1 = token_step(m, t, h1, k1);
    let st2 = token_step(m, t, h2, k2);
    if st1.events.len() > 0 && st2.events.len() > 0 && st1.events[0] == st2.events[0] {
        assert(reply_after(h1, k1, 0) == rule(st1.events[0]));
        assert(reply_after(h2, k2, 0) == rule(st2.events[0]));
    }
}

/// Two callbacks that answer each event by one fixed rule, with no state of their own, see
/// the same events in the same order and lead to the same result.
pub proof fn same_rule_same_parse(
    ts: Seq<Seq<char>>,
    h1: Seq<Answer>,
    h2: Seq<Answer>,
    rule: spec_fn(Event) -> Answer,
)
    requires
        replies_follow(run(ts, h1), h1, 0, rule),
        replies_follow(run(ts, h2), h2, 0, rule),
    ensures
        run(ts, h1) == run(ts, h2),
        outcome(ts, h1) == outcome(ts, h2),
    decreases ts.len(),
{
    if ts.len() > 0 {
        let front = ts.drop_last();
        lemma_run_prefix(ts, h1);
        lemma_run_prefix(ts, h2);
        let prev1 = run(front, h1);
        let prev2 = run(front, h2);
        assert forall|j: int| 0 <= j < prev1.events.len() implies #[trigger] reply_after(h1, 0, j)
            == rule(prev1.events[j]) by {
            assert(run(ts, h1).events.subrange(0, prev1.events.len() as int)[j] == prev1.events[j]);
        }
        assert forall|j: int| 0 <= j < prev2.events.len() implies #[trigger] reply_after(h2, 0, j)
            == rule(prev2.events[j]) by {
            assert(run(ts, h2).events.subrange(0, prev2.events.len() as int)[j] == prev2.events[j]);
        }
        same_rule_same_parse(front, h1, h2, rule);
        if let Ok(m) = prev1.next {
            let n = prev1.events.len() as int;
            let st1 = token_step(m, ts.last(), h1, n);
            let st2 = token_step(m, ts.last(), h2, n);
            assert forall|j: int| 0 <= j < st1.events.len() implies #[trigger] reply_after(
                h1,
                n,
                j,
            ) == rule(st1.events[j]) by {
                assert(reply_after(h1, 0, n + j) == rule(run(ts, h1).events[n + j]));
            }
            assert forall|j: int| 0 <= j < st2.events.len() implies #[trigger] reply_after(
                h2,
                n,
                j,
            ) == rule(st2.events[j]) by {
                assert(reply_after(h2, 0, n + j) == rule(run(ts, h2).events[n + j]));
            }
            lemma_step_rule(m, ts.last(), h1, n, h2, n, rule);
        }
    }
}

} // verus!
