use vstd::prelude::*;
use crate::net_laws::{lemma_initial_wf, lemma_record};
use crate::text::texts;

verus! {

/// What the fetch primitive hands back for one request that reached the
/// server: the HTTP status and whatever carries the body.
#[derive(Debug)]
pub struct Response<R> {
    pub status: i32,
    pub body: R,
}

/// Why a batch came to nothing.
#[derive(Debug)]
pub enum FetchError<E> {
    /// The fetch primitive itself failed; carries what it reported.
    Transport(E),
    /// Units were still unanswered after the last allowed pass.
    RetryExhausted,
    /// A stored body could not be read as a record; carries the decoder's report.
    Decode(E),
}

/// What the driver tells the batch.
#[derive(Debug)]
pub enum FetchEvent<R, E> {
    /// Nothing has been sent yet.
    Start,
    /// One pass came back: one result per submitted request, in submission order.
    Responses(Vec<Result<Response<R>, E>>),
}

/// What the batch tells the driver to do next.
#[derive(Debug)]
pub enum FetchAction<E> {
    /// Submit the pending addresses now, all in one call.
    Submit,
    /// Wait this many time units, then submit the pending addresses.
    RetryAfter(u32),
    /// Every unit is answered: the records can be decoded.
    Complete,
    /// Give up with this error.
    Fail(FetchError<E>),
}

/// Passes a batch may take in all: the first and three retries.
pub const MAX_PASSES: u8 = 4;

/// Time units to wait before each retry.
pub const RETRY_DELAY: u32 = 1;

/// The transport error a pass reported first, if it reported any.
pub open spec fn transport_error<R, E>(results: Seq<Result<Response<R>, E>>) -> Option<E>
    decreases results.len(),
{
    if results.len() == 0 {
        None
    } else {
        match transport_error(results.drop_last()) {
            Some(e) => Some(e),
            None => match results.last() {
                Err(e) => Some(e),
                Ok(_) => None,
            },
        }
    }
}

/// The responses of a pass in which every request reached the server.
pub open spec fn arrived<R, E>(results: Seq<Result<Response<R>, E>>) -> Seq<Response<R>> {
    Seq::new(results.len(), |k: int| results[k]->Ok_0)
}

#[derive(Debug)]
struct InnerRequest<R> {
    url: String,
    response: Option<R>,
}

/// A batch of addresses to fetch together, with the answers gathered so far.
#[derive(Debug)]
pub struct BatchedRequest<R> {
    requests: Vec<InnerRequest<R>>,
    indexes: Vec<usize>,
    attempts: u8,
}

/// The mathematical content of a [`BatchedRequest`].
pub ghost struct BatchState<R> {
    /// The addresses, in the order they were given.
    pub urls: Seq<Seq<char>>,
    /// The stored body of each unit, absent until a pass answers it with 200.
    pub responses: Seq<Option<R>>,
    /// Positions in `urls` that still wait for an answer, ascending.
    pub pending: Seq<int>,
    /// Passes recorded so far.
    pub attempts: nat,
}

impl<R> BatchState<R> {
    /// Every address has its slot, no more passes are recorded than a batch
    /// may take, and the pending positions are exactly those of the units
    /// without a body, each once and in ascending order.
    pub open spec fn wf(self) -> bool {
        &&& self.responses.len() == self.urls.len()
        &&& self.attempts <= MAX_PASSES
        &&& forall|k: int| 0 <= k < self.pending.len() ==> 0 <= #[trigger] self.pending[k] < self.urls.len()
        &&& forall|j: int, k: int| 0 <= j < k < self.pending.len() ==> self.pending[j] < self.pending[k]
        &&& forall|i: int| 0 <= i < self.urls.len() ==> (#[trigger] self.responses[i] is None <==> self.pending.contains(i))
    }

    /// A fresh batch for `urls`: nothing answered, everything pending.
    pub open spec fn initial(urls: Seq<Seq<char>>) -> Self {
        BatchState {
            urls,
            responses: Seq::new(urls.len(), |i: int| None),
            pending: Seq::new(urls.len(), |i: int| i),
            attempts: 0,
        }
    }

    /// No unit waits for an answer any more.
    pub open spec fn is_completed(self) -> bool {
        self.pending.len() == 0
    }

    /// The addresses of the pending units, in the order they were given.
    pub open spec fn pending_urls(self) -> Seq<Seq<char>> {
        Seq::new(self.pending.len(), |k: int| self.urls[self.pending[k]])
    }

    /// Whether unit `i` is answered with 200 by `results`, the k-th of which
    /// belongs to the k-th pending unit.
    pub open spec fn answered(self, results: Seq<Response<R>>, i: int) -> bool {
        self.pending.contains(i) && delivered(results, self.pending.index_of(i))
    }

    /// The body unit `i` holds once `results` are recorded: the one a 200
    /// brought for it, else what it held before.
    pub open spec fn answer(self, results: Seq<Response<R>>, i: int) -> Option<R> {
        if self.answered(results, i) {
            Some(results[self.pending.index_of(i)].body)
        } else {
            self.responses[i]
        }
    }

    /// The units that `results` do not answer with 200.
    pub open spec fn unanswered(self, results: Seq<Response<R>>) -> spec_fn(int) -> bool {
        |i: int| !self.answered(results, i)
    }

    /// The state after one pass whose answers were `results`.
    pub open spec fn record(self, results: Seq<Response<R>>) -> Self {
        BatchState {
            urls: self.urls,
            responses: Seq::new(self.urls.len(), |i: int| self.answer(results, i)),
            pending: self.pending.filter(self.unanswered(results)),
            attempts: self.attempts + 1,
        }
    }

    /// What a batch in this state asks of its driver once a pass is recorded.
    pub open spec fn verdict<E>(self) -> FetchAction<E> {
        if self.is_completed() {
            FetchAction::Complete
        } else if self.attempts >= MAX_PASSES {
            FetchAction::Fail(FetchError::RetryExhausted)
        } else {
            FetchAction::RetryAfter(RETRY_DELAY)
        }
    }

    /// The answer to [`FetchEvent::Start`].
    pub open spec fn on_start<E>(self) -> FetchAction<E> {
        if self.is_completed() {
            FetchAction::Complete
        } else if self.attempts >= MAX_PASSES {
            FetchAction::Fail(FetchError::RetryExhausted)
        } else {
            FetchAction::Submit
        }
    }

    /// The next state and the answer to a pass that came back with `results`.
    pub open spec fn on_responses<E>(self, results: Seq<Result<Response<R>, E>>) -> (Self, FetchAction<E>) {
        if self.is_completed() {
            (self, FetchAction::Complete)
        } else if self.attempts >= MAX_PASSES {
            (self, FetchAction::Fail(FetchError::RetryExhausted))
        } else {
            match transport_error(results) {
                Some(e) => (self, FetchAction::Fail(FetchError::Transport(e))),
                None => {
                    let next = self.record(arrived(results));
                    (next, next.verdict())
                },
            }
        }
    }

    /// Where a driver arrives that holds `action` for a batch in this state
    /// and finds the outcomes of its coming passes in `passes`: it submits
    /// while it is told to and while outcomes are left.
    pub open spec fn drive<E>(
        self,
        action: FetchAction<E>,
        passes: Seq<Seq<Result<Response<R>, E>>>,
    ) -> (Self, FetchAction<E>)
        decreases passes.len(),
    {
        if passes.len() > 0 && (action is Submit || action is RetryAfter) {
            let (next, told) = self.on_responses(passes[0]);
            next.drive(told, passes.skip(1))
        } else {
            (self, action)
        }
    }

    /// The whole life of a batch for `urls` whose passes come back as `passes`.
    pub open spec fn run<E>(urls: Seq<Seq<char>>, passes: Seq<Seq<Result<Response<R>, E>>>) -> (
        Self,
        FetchAction<E>,
    ) {
        Self::initial(urls).drive(Self::initial(urls).on_start(), passes)
    }

    /// The transition function of the batch: next state and action for an event.
    pub open spec fn step<E>(self, event: FetchEvent<R, E>) -> (Self, FetchAction<E>) {
        match event {
            FetchEvent::Start => (self, self.on_start()),
            FetchEvent::Responses(results) => self.on_responses(results@),
        }
    }
}

/// The k-th answer of a pass exists and carries status 200.
pub open spec fn delivered<R>(results: Seq<Response<R>>, k: int) -> bool {
    0 <= k < results.len() && results[k].status == 200
}

impl<R> View for BatchedRequest<R> {
    type V = BatchState<R>;

    closed spec fn view(&self) -> BatchState<R> {
        BatchState {
            urls: Seq::new(self.requests@.len(), |i: int| self.requests@[i].url@),
            responses: Seq::new(self.requests@.len(), |i: int| self.requests@[i].response),
            pending: Seq::new(self.indexes@.len(), |k: int| self.indexes@[k] as int),
            attempts: self.attempts as nat,
        }
    }
}

impl<R> BatchedRequest<R> {
    /// The batch is well formed: its content is.
    pub open spec fn wf(&self) -> bool {
        self@.wf()
    }

    /// A fresh batch for `urls`.
    pub fn new(urls: Vec<String>) -> (out: Self)
        ensures
            out.wf(),
            out@ == BatchState::<R>::initial(texts(urls@)),
    {
        let ghost given = urls@;
        let mut requests: Vec<InnerRequest<R>> = Vec::new();
        let mut indexes: Vec<usize> = Vec::new();
        for url in it: urls.into_iter()
            invariant
                it.seq() == given,
                requests@.len() == it.index(),
                indexes@.len() == it.index(),
                forall|i: int| 0 <= i < it.index() ==> (#[trigger] requests@[i]).url@ == given[i]@ && requests@[i].response is None,
                forall|i: int| 0 <= i < it.index() ==> #[trigger] indexes@[i] == i,
        {
            indexes.push(requests.len());
            requests.push(InnerRequest { url, response: None });
        }
        let out = BatchedRequest { requests, indexes, attempts: 0 };
        proof {
            assert(out@.urls =~= texts(given));
            assert(out@.responses =~= Seq::new(given.len(), |i: int| None::<R>));
            assert(out@.pending =~= Seq::new(given.len(), |i: int| i));
            lemma_initial_wf::<R>(texts(given));
        }
        out
    }

    /// Stores the answers of one pass, the k-th with the k-th pending unit.
    fn record(&mut self, results: Vec<Response<R>>)
        requires
            old(self).wf(),
            old(self)@.attempts < MAX_PASSES,
        ensures
            final(self).wf(),
            final(self)@ == old(self)@.record(results@),
    {
        let ghost before = self@;
        let ghost given = results@;
        let ghost keep = before.unanswered(given);
        let mut still: Vec<usize> = Vec::new();
        let mut k: usize = 0;
        while k < self.indexes.len()
            invariant
                self@ == before,
                self.wf(),
                results@ == given,
                keep == before.unanswered(given),
                k <= self.indexes.len(),
                Seq::new(still@.len(), |j: int| still@[j] as int) == before.pending.take(k as int).filter(keep),
            decreases self.indexes.len() - k,
        {
            let answered = k < results.len() && results[k].status == 200;
            proof {
                let i = before.pending[k as int];
                assert(before.pending.contains(i));
                assert(before.pending.index_of(i) == k);
                assert(before.pending.take(k + 1).drop_last() =~= before.pending.take(k as int));
                assert(before.pending.take(k + 1).last() == i);
                assert(keep(i) == !answered);
                reveal(Seq::filter);
            }
            if !answered {
                still.push(self.indexes[k]);
            }
            k += 1;
            proof {
                assert(Seq::new(still@.len(), |j: int| still@[j] as int) =~= before.pending.take(k as int).filter(keep));
            }
        }
        assert(before.pending.take(k as int) =~= before.pending);
        let total = results.len();
        let mut k: usize = 0;
        for answer in it: results.into_iter()
            invariant
                it.seq() == given,
                given.len() == total,
                k == it.index(),
                before.wf(),
                self.attempts == before.attempts,
                self.requests@.len() == before.urls.len(),
                Seq::new(self.indexes@.len(), |j: int| self.indexes@[j] as int) == before.pending,
                forall|i: int| 0 <= i < before.urls.len() ==> (#[trigger] self.requests@[i]).url@ == before.urls[i],
                forall|i: int| 0 <= i < before.urls.len() ==> (#[trigger] self.requests@[i]).response == (
                    if before.answered(given, i) && before.pending.index_of(i) < k {
                        Some(given[before.pending.index_of(i)].body)
                    } else {
                        before.responses[i]
                    }),
        {
            if k < self.indexes.len() {
                let unit = self.indexes[k];
                proof {
                    let pending = Seq::new(self.indexes@.len(), |j: int| self.indexes@[j] as int);
                    assert(pending[k as int] == unit);
                    assert(before.pending.contains(unit as int));
                    assert(before.pending.index_of(unit as int) == k);
                    assert forall|i: int| 0 <= i < before.urls.len() && i != unit && before.pending.contains(i)
                        implies before.pending.index_of(i) != k by {}
                }
                if answer.status == 200 {
                    self.requests[unit].response = Some(answer.body);
                }
            }
            k += 1;
        }
        self.indexes = still;
        self.attempts += 1;
        proof {
            let after = before.record(given);
            lemma_record(before, given);
            assert(self@.pending =~= after.pending);
            assert(self@.urls =~= after.urls);
            assert(self@.responses =~= after.responses);
        }
    }

    /// Takes one event from the driver and says what to do next.
    pub fn advance<E>(&mut self, event: FetchEvent<R, E>) -> (action: FetchAction<E>)
        requires
            old(self).wf(),
        ensures
            final(self).wf(),
            final(self)@ == old(self)@.step(event).0,
            action == old(self)@.step(event).1,
    {
        let ghost before = self@;
        let ghost expected = before.step(event);
        if self.indexes.len() == 0 {
            return FetchAction::Complete;
        }
        if self.attempts >= MAX_PASSES {
            return FetchAction::Fail(FetchError::RetryExhausted);
        }
        match event {
            FetchEvent::Start => FetchAction::Submit,
            FetchEvent::Responses(results) => {
                let ghost given = results@;
                let mut responses: Vec<Response<R>> = Vec::new();
                for result in it: results.into_iter()
                    invariant
                        it.seq() == given,
                        self.wf(),
                        self@ == before,
                        !before.is_completed(),
                        before.attempts < MAX_PASSES,
                        expected == before.on_responses(given),
                        expected == old(self)@.step(event),
                        transport_error(given.take(it.index())) is None,
                        responses@ == arrived(given.take(it.index())),
                {
                    proof {
                        let k = it.index();
                        assert(given.take(k + 1).drop_last() =~= given.take(k));
                        assert(given.take(k + 1).last() == result);
                    }
                    match result {
                        Ok(response) => {
                            responses.push(response);
                            assert(responses@ =~= arrived(given.take(it.index() + 1)));
                        },
                        Err(e) => {
                            proof {
                                lemma_transport_error_extends(given, it.index() + 1);
                            }
                            return FetchAction::Fail(FetchError::Transport(e));
                        },
                    }
                }
                proof {
                    assert(given.take(given.len() as int) =~= given);
                }
                self.record(responses);
                if self.indexes.len() == 0 {
                    FetchAction::Complete
                } else if self.attempts >= MAX_PASSES {
                    FetchAction::Fail(FetchError::RetryExhausted)
                } else {
                    FetchAction::RetryAfter(RETRY_DELAY)
                }
            },
        }
    }

    /// The addresses to submit in the next pass: those of the pending units,
    /// in the order the batch was given.
    pub fn inner_as_requests(&self) -> (urls: Vec<String>)
        requires
            self.wf(),
        ensures
            texts(urls@) == self@.pending_urls(),
    {
        let mut urls: Vec<String> = Vec::new();
        let mut k: usize = 0;
        while k < self.indexes.len()
            invariant
                self.wf(),
                k <= self.indexes.len(),
                urls@.len() == k,
                forall|j: int| 0 <= j < k ==> (#[trigger] urls@[j])@ == self@.pending_urls()[j],
            decreases self.indexes.len() - k,
        {
            let unit = self.indexes[k];
            assert(self@.pending[k as int] == unit);
            urls.push(self.requests[unit].url.clone());
            k += 1;
        }
        assert(texts(urls@) =~= self@.pending_urls());
        urls
    }

    /// Decodes every stored body, in the order the addresses were given, and
    /// returns all the records or none.
    ///
    /// A batch with units still pending has no records to give: the result is
    /// [`FetchError::RetryExhausted`] and nothing is decoded. Otherwise the
    /// bodies are handed to `decode` one by one, and the first one it rejects
    /// fails the whole batch with what `decode` reported.
    pub fn get_jsons<T, E, F: Fn(R) -> Result<T, E>>(self, decode: F) -> (out: Result<Vec<T>, FetchError<E>>)
        requires
            self.wf(),
            forall|i: int| 0 <= i < self@.responses.len() && self@.responses[i] is Some
                ==> call_requires(decode, (#[trigger] self@.responses[i]->0,)),
        ensures
            !self@.is_completed() ==> out matches Err(FetchError::RetryExhausted),
            self@.is_completed() && never_rejects::<R, T, E, F>(decode, self@.responses) ==> out is Ok,
            out matches Ok(records) ==> {
                &&& records@.len() == self@.urls.len()
                &&& forall|i: int| 0 <= i < records@.len() ==> call_ensures(
                    decode,
                    (self@.responses[i]->0,),
                    Ok::<T, E>(#[trigger] records@[i]),
                )
            },
            out matches Err(error) ==> match error {
                FetchError::RetryExhausted => !self@.is_completed(),
                FetchError::Decode(e) => self@.is_completed() && exists|i: int| stops_at(decode, self@.responses, i, e),
                FetchError::Transport(_) => false,
            },
    {
        if self.indexes.len() != 0 {
            return Err(FetchError::RetryExhausted);
        }
        let ghost state = self@;
        let ghost units = self.requests@;
        let mut records: Vec<T> = Vec::new();
        for unit in it: self.requests.into_iter()
            invariant
                it.seq() == units,
                self@ == state,
                units.len() == state.responses.len(),
                state.wf(),
                state.is_completed(),
                forall|i: int| 0 <= i < units.len() ==> (#[trigger] units[i]).response == state.responses[i],
                forall|i: int| 0 <= i < state.responses.len() && state.responses[i] is Some
                    ==> call_requires(decode, (#[trigger] state.responses[i]->0,)),
                records@.len() == it.index(),
                forall|i: int| 0 <= i < records@.len() ==> call_ensures(
                    decode,
                    (state.responses[i]->0,),
                    Ok::<T, E>(#[trigger] records@[i]),
                ),
        {
            let ghost at = it.index();
            assert(state.responses[at] is Some) by {
                if state.responses[at] is None {
                    assert(state.pending.contains(at));
                }
            }
            match unit.response {
                Some(body) => {
                    assert(body == state.responses[at]->0);
                    match decode(body) {
                        Ok(record) => {
                            records.push(record);
                        },
                        Err(e) => {
                            proof {
                                assert(rejects(decode, state.responses[at]->0, e));
                                assert forall|j: int| 0 <= j < at implies #[trigger] accepts::<R, T, E, F>(decode, state.responses[j]->0) by {
                                    assert(call_ensures(decode, (state.responses[j]->0,), Ok::<T, E>(records@[j])));
                                }
                                assert(stops_at(decode, self@.responses, at, e));
                            }
                            let failure = FetchError::Decode(e);
                            assert(failure matches FetchError::Decode(report) && stops_at(decode, self@.responses, at, report));
                            return Err(failure);
                        },
                    }
                },
                None => {
                    return Err(FetchError::RetryExhausted);
                },
            }
        }
        Ok(records)
    }

    /// Whether every unit has its answer.
    pub fn is_completed(&self) -> (done: bool)
        requires
            self.wf(),
        ensures
            done == self@.is_completed(),
    {
        self.indexes.len() == 0
    }
}

/// `decode` may turn `body` down with the report `e`.
pub open spec fn rejects<R, T, E, F: Fn(R) -> Result<T, E>>(decode: F, body: R, e: E) -> bool {
    call_ensures(decode, (body,), Err::<T, E>(e))
}

/// `decode` may read `body` as some record.
pub open spec fn accepts<R, T, E, F: Fn(R) -> Result<T, E>>(decode: F, body: R) -> bool {
    exists|record: T| call_ensures(decode, (body,), Ok::<T, E>(record))
}

/// `decode` turns none of `bodies` down.
pub open spec fn never_rejects<R, T, E, F: Fn(R) -> Result<T, E>>(decode: F, bodies: Seq<Option<R>>) -> bool {
    forall|i: int, e: E| 0 <= i < bodies.len() ==> !#[trigger] rejects::<R, T, E, F>(decode, bodies[i]->0, e)
}

/// Decoding `bodies` in order may stop at position `i` with the report `e`:
/// every body before it can be read, and that one can be turned down so.
pub open spec fn stops_at<R, T, E, F: Fn(R) -> Result<T, E>>(
    decode: F,
    bodies: Seq<Option<R>>,
    i: int,
    e: E,
) -> bool {
    &&& 0 <= i < bodies.len()
    &&& rejects(decode, bodies[i]->0, e)
    &&& forall|j: int| 0 <= j < i ==> #[trigger] accepts::<R, T, E, F>(decode, bodies[j]->0)
}

/// Once a prefix of a pass holds a transport error, the whole pass reports
/// that same error.
pub proof fn lemma_transport_error_extends<R, E>(results: Seq<Result<Response<R>, E>>, n: int)
    requires
        0 <= n <= results.len(),
        transport_error(results.take(n)) is Some,
    ensures
        transport_error(results) == transport_error(results.take(n)),
    decreases results.len() - n,
{
    if n < results.len() {
        assert(results.take(n + 1).drop_last() =~= results.take(n));
        lemma_transport_error_extends(results, n + 1);
    } else {
        assert(results.take(n) =~= results);
    }
}

} // verus!
