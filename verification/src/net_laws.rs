use vstd::prelude::*;
use crate::net::{arrived, delivered, transport_error};
use crate::net::{BatchState, FetchAction, FetchError, Response, MAX_PASSES};

verus! {

/// A pass reports no transport error exactly when every request in it
/// reached the server; otherwise it reports the error of the first request
/// that did not.
pub proof fn lemma_transport_error<R, E>(results: Seq<Result<Response<R>, E>>)
    ensures
        transport_error(results) is None <==> forall|k: int| 0 <= k < results.len() ==> (#[trigger] results[k]) is Ok,
        transport_error(results) matches Some(e) ==> exists|k: int|
            0 <= k < results.len() && #[trigger] results[k] == Err::<Response<R>, E>(e) && forall|j: int|
                0 <= j < k ==> (#[trigger] results[j]) is Ok,
    decreases results.len(),
{
    if results.len() > 0 {
        let head = results.drop_last();
        lemma_transport_error(head);
        assert forall|k: int| 0 <= k < head.len() implies head[k] == results[k] by {}
        match transport_error(head) {
            Some(e) => {
                let k = choose|k: int|
                    0 <= k < head.len() && #[trigger] head[k] == Err::<Response<R>, E>(e) && forall|j: int|
                        0 <= j < k ==> (#[trigger] head[j]) is Ok;
                assert(results[k] == Err::<Response<R>, E>(e));
                assert forall|j: int| 0 <= j < k implies (#[trigger] results[j]) is Ok by {
                    assert(head[j] is Ok);
                }
            },
            None => {
                assert forall|j: int| 0 <= j < results.len() - 1 implies (#[trigger] results[j]) is Ok by {
                    assert(head[j] is Ok);
                }
                match results.last() {
                    Err(e) => {
                        assert(results[results.len() - 1] == Err::<Response<R>, E>(e));
                    },
                    Ok(_) => {},
                }
            },
        }
    }
}

/// Filtering a strictly ascending sequence keeps it strictly ascending, and
/// keeps exactly the members that satisfy the predicate.
pub proof fn lemma_filter_ascending(s: Seq<int>, keep: spec_fn(int) -> bool)
    requires
        forall|j: int, k: int| 0 <= j < k < s.len() ==> s[j] < s[k],
    ensures
        forall|j: int, k: int| 0 <= j < k < s.filter(keep).len() ==> s.filter(keep)[j] < s.filter(keep)[k],
        forall|x: int| s.filter(keep).contains(x) <==> s.contains(x) && keep(x),
    decreases s.len(),
{
    reveal(Seq::filter);
    if s.len() > 0 {
        let head = s.drop_last();
        lemma_filter_ascending(head, keep);
        let kept = head.filter(keep);
        assert forall|x: int| s.filter(keep).contains(x) <==> s.contains(x) && keep(x) by {
            if s.filter(keep).contains(x) {
                let j = choose|j: int| 0 <= j < s.filter(keep).len() && s.filter(keep)[j] == x;
                if j < kept.len() {
                    assert(kept.contains(x));
                    assert(head.contains(x));
                    let m = choose|m: int| 0 <= m < head.len() && head[m] == x;
                    assert(s[m] == x);
                } else {
                    assert(x == s.last());
                    assert(s[s.len() - 1] == x);
                }
            }
            if s.contains(x) && keep(x) {
                let m = choose|m: int| 0 <= m < s.len() && s[m] == x;
                if m < head.len() {
                    assert(head[m] == x);
                    assert(head.contains(x));
                    assert(kept.contains(x));
                    let j = choose|j: int| 0 <= j < kept.len() && kept[j] == x;
                    assert(s.filter(keep)[j] == x);
                } else {
                    assert(s.filter(keep)[kept.len() as int] == x);
                }
            }
        }
        assert forall|j: int, k: int| 0 <= j < k < s.filter(keep).len() implies s.filter(keep)[j] < s.filter(keep)[k] by {
            if keep(s.last()) && k == kept.len() {
                assert(kept.contains(kept[j]));
                assert(head.contains(kept[j]));
                let m = choose|m: int| 0 <= m < head.len() && head[m] == kept[j];
                assert(s[m] < s[s.len() - 1]);
            }
        }
    } else {
        assert(s.filter(keep) =~= Seq::<int>::empty());
    }
}

/// What one pass does to a batch, unit by unit. The k-th answer goes to the
/// k-th pending unit: a 200 is stored there and the unit stops being pending,
/// anything else leaves it waiting. Units answered earlier keep their body,
/// the addresses keep their order, and the state stays well formed.
pub proof fn lemma_record<R>(state: BatchState<R>, results: Seq<Response<R>>)
    requires
        state.wf(),
        state.attempts < MAX_PASSES,
    ensures
        state.record(results).wf(),
        state.record(results).urls == state.urls,
        state.record(results).attempts == state.attempts + 1,
        forall|k: int| 0 <= k < state.pending.len() ==> #[trigger] state.record(results).responses[state.pending[k]] == (
            if delivered(results, k) {
                Some(results[k].body)
            } else {
                None
            }),
        forall|i: int| 0 <= i < state.urls.len() && state.responses[i] is Some
            ==> #[trigger] state.record(results).responses[i] == state.responses[i],
        forall|i: int| state.record(results).pending.contains(i) ==> state.pending.contains(i),
        state.record(results).is_completed() <==> forall|k: int| 0 <= k < state.pending.len() ==> #[trigger] delivered(results, k),
{
    let after = state.record(results);
    let keep = state.unanswered(results);
    lemma_filter_ascending(state.pending, keep);
    assert forall|k: int| 0 <= k < state.pending.len() implies state.pending.index_of(#[trigger] state.pending[k]) == k by {
        let i = state.pending[k];
        assert(state.pending.contains(i));
        let m = state.pending.index_of(i);
        assert(state.pending[m] == i);
        if m < k {
            assert(state.pending[m] < state.pending[k]);
        } else if k < m {
            assert(state.pending[k] < state.pending[m]);
        }
    }
    assert forall|k: int| 0 <= k < state.pending.len() implies #[trigger] after.responses[state.pending[k]] == (
        if delivered(results, k) {
            Some(results[k].body)
        } else {
            None
        }) by {
        let i = state.pending[k];
        assert(state.pending.contains(i));
        assert(state.pending.index_of(i) == k);
        assert(state.responses[i] is None);
    }
    assert forall|i: int| 0 <= i < state.urls.len() && state.responses[i] is Some implies #[trigger] after.responses[i]
        == state.responses[i] by {
        assert(!state.pending.contains(i));
    }
    assert forall|j: int| 0 <= j < after.pending.len() implies 0 <= #[trigger] after.pending[j] < after.urls.len() by {
        let x = after.pending[j];
        assert(state.pending.filter(keep).contains(x));
        assert(state.pending.contains(x));
        let m = choose|m: int| 0 <= m < state.pending.len() && state.pending[m] == x;
        assert(0 <= state.pending[m] < state.urls.len());
    }
    assert forall|i: int| 0 <= i < after.urls.len() implies (#[trigger] after.responses[i] is None <==> after.pending.contains(
        i,
    )) by {
        assert(state.responses[i] is None <==> state.pending.contains(i));
        assert(keep(i) == !state.answered(results, i));
    }
    if forall|k: int| 0 <= k < state.pending.len() ==> #[trigger] delivered(results, k) {
        if after.pending.len() > 0 {
            let x = after.pending[0];
            assert(after.pending.contains(x));
            assert(state.pending.contains(x) && keep(x));
            let k = state.pending.index_of(x);
            assert(delivered(results, k));
        }
    }
    if after.pending.len() == 0 {
        assert forall|k: int| 0 <= k < state.pending.len() implies #[trigger] delivered(results, k) by {
            let i = state.pending[k];
            assert(state.pending.contains(i));
            if !delivered(results, k) {
                assert(keep(i));
                assert(after.pending.contains(i));
            }
        }
    }
}

/// A fresh batch is well formed.
pub proof fn lemma_initial_wf<R>(urls: Seq<Seq<char>>)
    ensures
        BatchState::<R>::initial(urls).wf(),
{
    let start = BatchState::<R>::initial(urls);
    assert forall|i: int| 0 <= i < urls.len() implies (#[trigger] start.responses[i] is None <==> start.pending.contains(
        i,
    )) by {
        assert(start.pending[i] == i);
    }
}

/// A driver is told to submit only to a well-formed batch that has units
/// pending and passes left.
pub open spec fn may_submit<R, E>(state: BatchState<R>, action: FetchAction<E>) -> bool {
    action is Submit || action is RetryAfter ==> state.wf() && !state.is_completed() && state.attempts < MAX_PASSES
}

/// Driving a batch keeps its addresses and never leaves the driver with an
/// order to submit to a batch that cannot take one.
pub proof fn lemma_drive_keeps_order<R, E>(
    state: BatchState<R>,
    action: FetchAction<E>,
    passes: Seq<Seq<Result<Response<R>, E>>>,
)
    requires
        may_submit(state, action),
    ensures
        may_submit(state.drive(action, passes).0, state.drive(action, passes).1),
        state.drive(action, passes).0.urls == state.urls,
    decreases passes.len(),
{
    if passes.len() > 0 && (action is Submit || action is RetryAfter) {
        let (next, told) = state.on_responses(passes[0]);
        if transport_error(passes[0]) is None {
            lemma_record(state, arrived(passes[0]));
        }
        lemma_drive_keeps_order(next, told, passes.skip(1));
    }
}

/// Driving through `passes` is driving through the first `j` of them and
/// then through the rest.
pub proof fn lemma_drive_split<R, E>(
    state: BatchState<R>,
    action: FetchAction<E>,
    passes: Seq<Seq<Result<Response<R>, E>>>,
    j: int,
)
    requires
        0 <= j <= passes.len(),
    ensures
        state.drive(action, passes) == state.drive(action, passes.take(j)).0.drive(
            state.drive(action, passes.take(j)).1,
            passes.skip(j),
        ),
    decreases j,
{
    if j == 0 {
        assert(passes.skip(0) =~= passes);
    } else if action is Submit || action is RetryAfter {
        let (next, told) = state.on_responses(passes[0]);
        assert(passes.take(j)[0] == passes[0]);
        assert(passes.take(j).skip(1) =~= passes.skip(1).take(j - 1));
        assert(passes.skip(1).skip(j - 1) =~= passes.skip(j));
        lemma_drive_split(next, told, passes.skip(1), j - 1);
    } else {
        lemma_drive_stopped(state, action, passes.skip(j));
    }
}

/// A driver that was not told to submit stays where it is.
pub proof fn lemma_drive_stopped<R, E>(
    state: BatchState<R>,
    action: FetchAction<E>,
    passes: Seq<Seq<Result<Response<R>, E>>>,
)
    requires
        !(action is Submit || action is RetryAfter),
    ensures
        state.drive(action, passes) == (state, action),
{
}

/// When every request of the first pass is answered with 200, that pass
/// completes the batch: each address has the body of its own answer, so the
/// bodies stand in the order of the addresses and are as many.
pub proof fn law_first_pass_completes<R, E>(urls: Seq<Seq<char>>, passes: Seq<Seq<Result<Response<R>, E>>>)
    requires
        urls.len() > 0,
        passes.len() > 0,
        passes[0].len() == urls.len(),
        forall|k: int| 0 <= k < urls.len() ==> ((#[trigger] passes[0][k]) matches Ok(r) && r.status == 200),
    ensures
        BatchState::<R>::run(urls, passes).1 == FetchAction::<E>::Complete,
        BatchState::<R>::run(urls, passes).0.urls == urls,
        BatchState::<R>::run(urls, passes).0.responses == Seq::new(
            urls.len(),
            |i: int| Some(passes[0][i]->Ok_0.body),
        ),
{
    let start = BatchState::<R>::initial(urls);
    let answers = arrived(passes[0]);
    lemma_initial_wf::<R>(urls);
    lemma_transport_error(passes[0]);
    lemma_record(start, answers);
    let next = start.record(answers);
    assert forall|k: int| 0 <= k < start.pending.len() implies #[trigger] delivered(answers, k) by {
        assert(passes[0][k] is Ok);
    }
    assert(next.is_completed());
    assert(next.responses =~= Seq::new(urls.len(), |i: int| Some(passes[0][i]->Ok_0.body))) by {
        assert forall|i: int| 0 <= i < urls.len() implies next.responses[i] == Some(passes[0][i]->Ok_0.body) by {
            assert(start.pending[i] == i);
            assert(delivered(answers, i));
        }
    }
    lemma_drive_stopped(next, FetchAction::<E>::Complete, passes.skip(1));
}

/// When some requests of the first pass are answered with another status
/// than 200 and the second pass answers each of those with 200, the batch
/// completes after the second pass. Every address then has a body: the one
/// of its first answer where that was a 200, else the one the second pass
/// brought for it. The order of the addresses is kept and none is missing.
pub proof fn law_retry_completes<R, E>(urls: Seq<Seq<char>>, passes: Seq<Seq<Result<Response<R>, E>>>)
    requires
        passes.len() >= 2,
        passes[0].len() == urls.len(),
        forall|k: int| 0 <= k < urls.len() ==> (#[trigger] passes[0][k]) is Ok,
        exists|k: int| 0 <= k < urls.len() && (#[trigger] passes[0][k])->Ok_0.status != 200,
        passes[1].len() == BatchState::<R>::initial(urls).record(arrived(passes[0])).pending.len(),
        forall|k: int| 0 <= k < passes[1].len() ==> ((#[trigger] passes[1][k]) matches Ok(r) && r.status == 200),
    ensures
        BatchState::<R>::run(urls, passes).1 == FetchAction::<E>::Complete,
        BatchState::<R>::run(urls, passes).0.urls == urls,
        BatchState::<R>::run(urls, passes).0.responses.len() == urls.len(),
        forall|i: int| 0 <= i < urls.len() ==> #[trigger] BatchState::<R>::run(urls, passes).0.responses[i] == (
            if passes[0][i]->Ok_0.status == 200 {
                Some(passes[0][i]->Ok_0.body)
            } else {
                Some(
                    passes[1][BatchState::<R>::initial(urls).record(arrived(passes[0])).pending.index_of(i)]->Ok_0.body,
                )
            }),
{
    let start = BatchState::<R>::initial(urls);
    let first = arrived(passes[0]);
    let second = arrived(passes[1]);
    lemma_initial_wf::<R>(urls);
    lemma_transport_error(passes[0]);
    lemma_transport_error(passes[1]);
    lemma_record(start, first);
    let middle = start.record(first);
    let failed = choose|k: int| 0 <= k < urls.len() && (#[trigger] passes[0][k])->Ok_0.status != 200;
    assert(!delivered(first, failed));
    assert(!middle.is_completed());
    lemma_record(middle, second);
    let last = middle.record(second);
    assert forall|k: int| 0 <= k < middle.pending.len() implies #[trigger] delivered(second, k) by {
        assert(passes[1][k] is Ok);
    }
    assert(last.is_completed());
    assert(passes.skip(1)[0] == passes[1]);
    assert(start.on_responses(passes[0]) == (middle, FetchAction::<E>::RetryAfter(crate::net::RETRY_DELAY)));
    assert(middle.on_responses(passes[1]) == (last, FetchAction::<E>::Complete));
    lemma_drive_stopped(last, FetchAction::<E>::Complete, passes.skip(1).skip(1));
    assert(BatchState::<R>::run(urls, passes) == (last, FetchAction::<E>::Complete)) by {
        assert(start.drive(start.on_start::<E>(), passes) == middle.drive(
            FetchAction::<E>::RetryAfter(crate::net::RETRY_DELAY),
            passes.skip(1),
        ));
    }
    assert forall|i: int| 0 <= i < urls.len() implies #[trigger] last.responses[i] == (if passes[0][i]->Ok_0.status == 200 {
        Some(passes[0][i]->Ok_0.body)
    } else {
        Some(passes[1][middle.pending.index_of(i)]->Ok_0.body)
    }) by {
        assert(start.pending[i] == i);
        if delivered(first, i) {
            assert(middle.responses[i] is Some);
        } else {
            assert(middle.responses[i] is None);
            assert(middle.pending.contains(i));
            let k = middle.pending.index_of(i);
            assert(middle.pending[k] == i);
            assert(delivered(second, k));
        }
    }
}

/// With four passes free of transport errors a batch always comes to an
/// end: either every unit was answered with 200 and it is complete, or units
/// are still pending after the fourth pass and it fails with
/// [`FetchError::RetryExhausted`]. No fifth pass is ever asked for.
pub proof fn law_retries_exhausted<R, E>(urls: Seq<Seq<char>>, passes: Seq<Seq<Result<Response<R>, E>>>)
    requires
        passes.len() >= MAX_PASSES,
        forall|p: int| 0 <= p < MAX_PASSES ==> transport_error(#[trigger] passes[p]) is None,
    ensures
        BatchState::<R>::run(urls, passes).0.urls == urls,
        BatchState::<R>::run(urls, passes).0.is_completed() ==> BatchState::<R>::run(urls, passes).1
            == FetchAction::<E>::Complete,
        !BatchState::<R>::run(urls, passes).0.is_completed() ==> {
            &&& BatchState::<R>::run(urls, passes).1 == FetchAction::<E>::Fail(FetchError::RetryExhausted)
            &&& BatchState::<R>::run(urls, passes).0.attempts == MAX_PASSES
        },
{
    let start = BatchState::<R>::initial(urls);
    lemma_initial_wf::<R>(urls);
    if start.is_completed() {
        lemma_drive_stopped(start, FetchAction::<E>::Complete, passes);
    } else {
        lemma_drive_settles(start, FetchAction::<E>::Submit, passes);
    }
}

/// The induction behind [`law_retries_exhausted`]: from any state that may
/// still submit, enough clean passes end in completion or exhaustion.
pub proof fn lemma_drive_settles<R, E>(
    state: BatchState<R>,
    action: FetchAction<E>,
    passes: Seq<Seq<Result<Response<R>, E>>>,
)
    requires
        state.wf(),
        !state.is_completed(),
        state.attempts < MAX_PASSES,
        action is Submit || action is RetryAfter,
        passes.len() >= MAX_PASSES - state.attempts,
        forall|p: int| 0 <= p < MAX_PASSES - state.attempts ==> transport_error(#[trigger] passes[p]) is None,
    ensures
        state.drive(action, passes).0.urls == state.urls,
        state.drive(action, passes).0.is_completed() ==> state.drive(action, passes).1 == FetchAction::<E>::Complete,
        !state.drive(action, passes).0.is_completed() ==> {
            &&& state.drive(action, passes).1 == FetchAction::<E>::Fail(FetchError::RetryExhausted)
            &&& state.drive(action, passes).0.attempts == MAX_PASSES
        },
    decreases passes.len(),
{
    let (next, told) = state.on_responses(passes[0]);
    lemma_record(state, arrived(passes[0]));
    if told is RetryAfter {
        assert forall|p: int| 0 <= p < MAX_PASSES - next.attempts implies transport_error(#[trigger] passes.skip(1)[p]) is None by {
            assert(passes.skip(1)[p] == passes[p + 1]);
        }
        lemma_drive_settles(next, told, passes.skip(1));
    } else {
        lemma_drive_stopped(next, told, passes.skip(1));
    }
}

/// A transport error ends the batch at once. If the driver is told to submit
/// pass `j` and that pass reports a transport error, the batch fails with
/// that error in the state it had before the pass, whatever later passes
/// would have brought.
pub proof fn law_transport_error_is_final<R, E>(
    urls: Seq<Seq<char>>,
    passes: Seq<Seq<Result<Response<R>, E>>>,
    j: int,
)
    requires
        0 <= j < passes.len(),
        BatchState::<R>::run(urls, passes.take(j)).1 is Submit || BatchState::<R>::run(urls, passes.take(j)).1 is RetryAfter,
        transport_error(passes[j]) is Some,
    ensures
        BatchState::<R>::run(urls, passes).0 == BatchState::<R>::run(urls, passes.take(j)).0,
        BatchState::<R>::run(urls, passes).1 == FetchAction::<E>::Fail(
            FetchError::Transport(transport_error(passes[j])->0),
        ),
{
    let start = BatchState::<R>::initial(urls);
    lemma_initial_wf::<R>(urls);
    let begin = start.on_start::<E>();
    let (state, action) = start.drive(begin, passes.take(j));
    lemma_drive_keeps_order(start, begin, passes.take(j));
    lemma_drive_split(start, begin, passes, j);
    let rest = passes.skip(j);
    assert(rest[0] == passes[j]);
    let failure = FetchAction::<E>::Fail(FetchError::Transport(transport_error(passes[j])->0));
    assert(state.on_responses(passes[j]) == (state, failure));
    lemma_drive_stopped(state, failure, rest.skip(1));
}

} // verus!
