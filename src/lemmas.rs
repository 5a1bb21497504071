use vstd::prelude::*;

use crate::model::{
    answer_at, bundle, run, single, token_step, Answer, Event, Mode,
};

verus! {

/// The events `Opt(c)`, one for each character `c` of `s`.
pub open spec fn short_opts(s: Seq<char>) -> Seq<Event> {
    Seq::new(s.len(), |j: int| Event::Opt(s.subrange(j, j + 1)))
}

/// The reply `j` places after position `k`.
pub open spec fn reply_after(hs: Seq<Answer>, k: int, j: int) -> Answer {
    answer_at(hs, k + j)
}

/// Replies `h1` from `k1` on and `h2` from `k2` on agree on the first `n`.
pub open spec fn agree(h1: Seq<Answer>, k1: int, h2: Seq<Answer>, k2: int, n: int) -> bool {
    forall|j: int| 0 <= j < n ==> #[trigger] reply_after(h1, k1, j) == reply_after(h2, k2, j)
}

/// A group of short options reads no reply but those to the events it emits.
pub proof fn lemma_bundle_agree(s: Seq<char>, h1: Seq<Answer>, k1: int, h2: Seq<Answer>, k2: int)
    requires
        agree(h1, k1, h2, k2, bundle(s, h1, k1).events.len() as int),
    ensures
        bundle(s, h1, k1) == bundle(s, h2, k2),
    decreases s.len(),
{
    if s.len() > 0 {
        assert(reply_after(h1, k1, 0) == reply_after(h2, k2, 0));
        if answer_at(h1, k1) is Consumed {
            let r = bundle(s.drop_first(), h1, k1 + 1);
            assert forall|j: int| 0 <= j < r.events.len() implies #[trigger] reply_after(
                h1,
                k1 + 1,
                j,
            ) == reply_after(h2, k2 + 1, j) by {
                assert(reply_after(h1, k1, j + 1) == reply_after(h2, k2, j + 1));
            }
            lemma_bundle_agree(s.drop_first(), h1, k1 + 1, h2, k2 + 1);
        }
    }
}

/// A transition reads no reply but those to the events it emits.
pub proof fn lemma_step_agree(
    m: Mode,
    t: Seq<char>,
    h1: Seq<Answer>,
    k1: int,
    h2: Seq<Answer>,
    k2: int,
)
    requires
        agree(h1, k1, h2, k2, token_step(m, t, h1, k1).events.len() as int),
    ensures
        token_step(m, t, h1, k1) == token_step(m, t, h2, k2),
{
    let s = if m is Void && t.len() > 0 && t[0] == '-' {
        t.drop_first()
    } else {
        t
    };
    if m is Combo || (m is Dash && s.len() > 0 && s[0] != '-') || (m is Void && t.len() > 0
        && t[0] == '-' && s.len() > 0 && s[0] != '-') {
        lemma_bundle_agree(s, h1, k1, h2, k2);
    }
    if token_step(m, t, h1, k1).events.len() > 0 {
        assert(reply_after(h1, k1, 0) == reply_after(h2, k2, 0));
    }
}

/// The run's events on a shorter input come first in its events on the longer one.
pub proof fn lemma_run_prefix(ts: Seq<Seq<char>>, hs: Seq<Answer>)
    requires
        ts.len() > 0,
    ensures
        run(ts.drop_last(), hs).events.len() <= run(ts, hs).events.len(),
        run(ts, hs).events.subrange(0, run(ts.drop_last(), hs).events.len() as int) == run(
            ts.drop_last(),
            hs,
        ).events,
{
    let prev = run(ts.drop_last(), hs);
    assert(run(ts, hs).events.subrange(0, prev.events.len() as int) =~= prev.events);
}

/// A run reads no reply but those to the events it emits.
pub proof fn lemma_run_agree(ts: Seq<Seq<char>>, h1: Seq<Answer>, h2: Seq<Answer>)
    requires
        agree(h1, 0, h2, 0, run(ts, h1).events.len() as int),
    ensures
        run(ts, h1) == run(ts, h2),
    decreases ts.len(),
{
    if ts.len() > 0 {
        lemma_run_prefix(ts, h1);
        let prev = run(ts.drop_last(), h1);
        lemma_run_agree(ts.drop_last(), h1, h2);
        if let Ok(m) = prev.next {
            let n = prev.events.len() as int;
            let st = token_step(m, ts.last(), h1, n);
            assert forall|j: int| 0 <= j < st.events.len() implies #[trigger] reply_after(
                h1,
                n,
                j,
            ) == reply_after(h2, n, j) by {
                assert(reply_after(h1, 0, n + j) == reply_after(h2, 0, n + j));
            }
            lemma_step_agree(m, ts.last(), h1, n, h2, n);
        }
    }
}

/// While every reply is `Consumed`, a group of short options emits one `Opt` per character.
pub proof fn lemma_bundle_consumed(s: Seq<char>, hs: Seq<Answer>, k: int, i: int)
    requires
        0 <= i <= s.len(),
        forall|j: int| k <= j < k + i ==> answer_at(hs, j) is Consumed,
    ensures
        bundle(s, hs, k) == single(
            short_opts(s.take(i)) + bundle(s.skip(i), hs, k + i).events,
            bundle(s.skip(i), hs, k + i).next,
        ),
    decreases i,
{
    if i == 0 {
        assert(s.skip(0) =~= s);
        assert(short_opts(s.take(0)) =~= seq![]);
        assert(short_opts(s.take(0)) + bundle(s, hs, k).events =~= bundle(s, hs, k).events);
    } else {
        let rest = s.drop_first();
        lemma_bundle_consumed(rest, hs, k + 1, i - 1);
        assert(rest.skip(i - 1) =~= s.skip(i));
        assert(k + 1 + (i - 1) == k + i);
        let tail = bundle(s.skip(i), hs, k + i);
        assert forall|j: int| 0 <= j < i implies (seq![Event::Opt(s.take(1))] + short_opts(
            rest.take(i - 1),
        ))[j] == short_opts(s.take(i))[j] by {
            if j == 0 {
                assert(s.take(1) =~= s.take(i).subrange(0, 1));
            } else {
                assert(rest.take(i - 1).subrange(j - 1, j) =~= s.take(i).subrange(j, j + 1));
            }
        }
        assert(seq![Event::Opt(s.take(1))] + short_opts(rest.take(i - 1)) =~= short_opts(
            s.take(i),
        ));
        assert(seq![Event::Opt(s.take(1))] + (short_opts(rest.take(i - 1)) + tail.events)
            =~= short_opts(s.take(i)) + tail.events);
    }
}

/// Between two tokens the automaton is idle, awaits a value, or takes all as positional.
pub open spec fn settled(m: Mode) -> bool {
    m is Void || m is Parameter || m is ForcePos
}

/// A group of short options ends in a settled state or fails.
pub proof fn lemma_bundle_settled(s: Seq<char>, hs: Seq<Answer>, k: int)
    ensures
        bundle(s, hs, k).next matches Ok(m) ==> settled(m),
    decreases s.len(),
{
    if s.len() > 0 {
        lemma_bundle_settled(s.drop_first(), hs, k + 1);
    }
}

/// A transition ends in a settled state or fails.
pub proof fn lemma_step_settled(m: Mode, t: Seq<char>, hs: Seq<Answer>, k: int)
    ensures
        token_step(m, t, hs, k).next matches Ok(m2) ==> settled(m2),
{
    lemma_bundle_settled(t, hs, k);
    if t.len() > 0 {
        lemma_bundle_settled(t.drop_first(), hs, k);
    }
}

/// Once a run fails, the tokens after that point change nothing.
pub proof fn lemma_run_stuck(ts: Seq<Seq<char>>, hs: Seq<Answer>, i: int)
    requires
        0 <= i <= ts.len(),
        run(ts.take(i), hs).next is Err,
    ensures
        run(ts, hs) == run(ts.take(i), hs),
    decreases ts.len(),
{
    if i == ts.len() {
        assert(ts.take(i) =~= ts);
    } else {
        assert(ts.drop_last().take(i) =~= ts.take(i));
        lemma_run_stuck(ts.drop_last(), hs, i);
    }
}

} // verus!
