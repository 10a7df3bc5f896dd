use dynastyscans::net::{BatchedRequest, FetchAction, FetchError, FetchEvent, Response};

type Pass = Vec<Result<Response<String>, String>>;

fn urls(names: &[&str]) -> Vec<String> {
    names.iter().map(|name| name.to_string()).collect()
}

fn ok(status: i32, body: &str) -> Result<Response<String>, String> {
    Ok(Response { status, body: body.to_string() })
}

fn decode(body: String) -> Result<String, String> {
    match body.strip_prefix("json:") {
        Some(rest) => Ok(rest.to_string()),
        None => Err(format!("cannot decode {body}")),
    }
}

/// Drives a batch as an application would, taking the outcome of each pass
/// from `passes`. Returns what was submitted in each pass, the waits, and
/// the result.
fn drive(
    names: &[&str],
    passes: Vec<Pass>,
) -> (Vec<Vec<String>>, Vec<u32>, Result<Vec<String>, FetchError<String>>) {
    let mut batch: BatchedRequest<String> = BatchedRequest::new(urls(names));
    let mut submitted = Vec::new();
    let mut waits = Vec::new();
    let mut passes = passes.into_iter();
    let mut action: FetchAction<String> = batch.advance(FetchEvent::Start);
    loop {
        match action {
            FetchAction::Submit => {}
            FetchAction::RetryAfter(delay) => waits.push(delay),
            FetchAction::Complete => return (submitted, waits, batch.get_jsons(decode)),
            FetchAction::Fail(error) => return (submitted, waits, Err(error)),
        }
        submitted.push(batch.inner_as_requests());
        let outcome = passes.next().expect("the batch asked for more passes than the test has");
        action = batch.advance(FetchEvent::Responses(outcome));
    }
}

#[test]
fn empty_batch_succeeds_without_a_pass() {
    let (submitted, waits, result) = drive(&[], vec![]);
    assert!(submitted.is_empty());
    assert!(waits.is_empty());
    assert_eq!(result.ok(), Some(Vec::<String>::new()));
}

#[test]
fn first_pass_all_ok_keeps_input_order() {
    let (submitted, waits, result) = drive(
        &["a", "b", "c"],
        vec![vec![ok(200, "json:A"), ok(200, "json:B"), ok(200, "json:C")]],
    );
    assert_eq!(submitted, vec![urls(&["a", "b", "c"])]);
    assert!(waits.is_empty());
    assert_eq!(result.ok(), Some(urls(&["A", "B", "C"])));
}

#[test]
fn retry_fetches_only_the_failed_subset() {
    let (submitted, waits, result) = drive(
        &["a", "b", "c", "d"],
        vec![
            vec![ok(200, "json:A"), ok(503, "busy"), ok(200, "json:C"), ok(404, "gone")],
            vec![ok(200, "json:B"), ok(200, "json:D")],
        ],
    );
    assert_eq!(submitted, vec![urls(&["a", "b", "c", "d"]), urls(&["b", "d"])]);
    assert_eq!(waits, vec![1]);
    assert_eq!(result.ok(), Some(urls(&["A", "B", "C", "D"])));
}

#[test]
fn retry_over_three_passes_shrinks_the_pending_set() {
    let (submitted, waits, result) = drive(
        &["a", "b", "c"],
        vec![
            vec![ok(500, "x"), ok(500, "x"), ok(500, "x")],
            vec![ok(500, "x"), ok(200, "json:B"), ok(500, "x")],
            vec![ok(200, "json:A"), ok(500, "x")],
            vec![ok(200, "json:C")],
        ],
    );
    assert_eq!(
        submitted,
        vec![urls(&["a", "b", "c"]), urls(&["a", "b", "c"]), urls(&["a", "c"]), urls(&["c"])]
    );
    assert_eq!(waits, vec![1, 1, 1]);
    assert_eq!(result.ok(), Some(urls(&["A", "B", "C"])));
}

#[test]
fn four_failed_passes_exhaust_the_retries() {
    let bad = || vec![ok(200, "json:A"), ok(429, "slow down")];
    let (submitted, waits, result) = drive(
        &["a", "b"],
        vec![bad(), vec![ok(429, "")], vec![ok(429, "")], vec![ok(429, "")], vec![ok(200, "json:B")]],
    );
    assert_eq!(submitted.len(), 4);
    assert_eq!(waits, vec![1, 1, 1]);
    assert!(matches!(result, Err(FetchError::RetryExhausted)));
}

#[test]
fn transport_error_fails_at_once() {
    let (submitted, waits, result) = drive(
        &["a", "b", "c"],
        vec![
            vec![ok(200, "json:A"), Err("connection reset".to_string()), Err("later".to_string())],
            vec![ok(200, "json:B"), ok(200, "json:C")],
        ],
    );
    assert_eq!(submitted.len(), 1);
    assert!(waits.is_empty());
    match result {
        Err(FetchError::Transport(report)) => assert_eq!(report, "connection reset"),
        _ => panic!("expected a transport error"),
    }
}

#[test]
fn transport_error_on_a_retry_pass_fails_at_once() {
    let (submitted, _, result) = drive(
        &["a", "b"],
        vec![vec![ok(500, ""), ok(200, "json:B")], vec![Err("timeout".to_string())], vec![ok(200, "json:A")]],
    );
    assert_eq!(submitted.len(), 2);
    match result {
        Err(FetchError::Transport(report)) => assert_eq!(report, "timeout"),
        _ => panic!("expected a transport error"),
    }
}

#[test]
fn transport_error_stores_nothing_of_its_pass() {
    let mut batch: BatchedRequest<String> = BatchedRequest::new(urls(&["a", "b"]));
    let action: FetchAction<String> = batch.advance(FetchEvent::Start);
    assert!(matches!(action, FetchAction::Submit));
    let action = batch.advance(FetchEvent::Responses(vec![ok(200, "json:A"), Err("down".to_string())]));
    assert!(matches!(action, FetchAction::Fail(FetchError::Transport(_))));
    assert_eq!(batch.inner_as_requests(), urls(&["a", "b"]));
    assert!(!batch.is_completed());
}

#[test]
fn one_body_that_does_not_decode_fails_the_batch() {
    let (_, _, result) = drive(
        &["a", "b", "c"],
        vec![vec![ok(200, "json:A"), ok(200, "<html>"), ok(200, "also bad")]],
    );
    match result {
        Err(FetchError::Decode(report)) => assert_eq!(report, "cannot decode <html>"),
        _ => panic!("expected a decode error"),
    }
}

#[test]
fn incomplete_batch_gives_no_partial_output() {
    let mut batch: BatchedRequest<String> = BatchedRequest::new(urls(&["a", "b"]));
    let _: FetchAction<String> = batch.advance(FetchEvent::Start);
    let action = batch.advance(FetchEvent::Responses(vec![ok(200, "json:A"), ok(500, "")]));
    assert!(matches!(action, FetchAction::RetryAfter(1)));
    let result: Result<Vec<String>, FetchError<String>> = batch.get_jsons(decode);
    assert!(matches!(result, Err(FetchError::RetryExhausted)));
}

#[test]
fn short_pass_answers_the_first_pending_units() {
    let mut batch: BatchedRequest<String> = BatchedRequest::new(urls(&["a", "b", "c"]));
    let _: FetchAction<String> = batch.advance(FetchEvent::Start);
    let action: FetchAction<String> = batch.advance(FetchEvent::Responses(vec![ok(200, "json:A")]));
    assert!(matches!(action, FetchAction::RetryAfter(1)));
    assert_eq!(batch.inner_as_requests(), urls(&["b", "c"]));
}

#[test]
fn long_pass_ignores_the_surplus_answers() {
    let (_, _, result) = drive(&["a"], vec![vec![ok(200, "json:A"), ok(200, "json:stray")]]);
    assert_eq!(result.ok(), Some(urls(&["A"])));
}

#[test]
fn events_after_completion_change_nothing() {
    let mut batch: BatchedRequest<String> = BatchedRequest::new(urls(&["a"]));
    let _: FetchAction<String> = batch.advance(FetchEvent::Start);
    let action: FetchAction<String> = batch.advance(FetchEvent::Responses(vec![ok(200, "json:A")]));
    assert!(matches!(action, FetchAction::Complete));
    let action = batch.advance(FetchEvent::Responses(vec![Err("ignored".to_string())]));
    assert!(matches!(action, FetchAction::Complete));
    assert!(batch.is_completed());
    assert_eq!(batch.get_jsons(decode).ok(), Some(urls(&["A"])));
}

#[test]
fn exhausted_batch_refuses_further_passes() {
    let mut batch: BatchedRequest<String> = BatchedRequest::new(urls(&["a"]));
    let _: FetchAction<String> = batch.advance(FetchEvent::Start);
    for pass in 0..4 {
        let action: FetchAction<String> = batch.advance(FetchEvent::Responses(vec![ok(500, "")]));
        if pass < 3 {
            assert!(matches!(action, FetchAction::RetryAfter(1)));
        } else {
            assert!(matches!(action, FetchAction::Fail(FetchError::RetryExhausted)));
        }
    }
    let action: FetchAction<String> = batch.advance(FetchEvent::Responses(vec![ok(200, "json:A")]));
    assert!(matches!(action, FetchAction::Fail(FetchError::RetryExhausted)));
    let action: FetchAction<String> = batch.advance(FetchEvent::Start);
    assert!(matches!(action, FetchAction::Fail(FetchError::RetryExhausted)));
    assert_eq!(batch.inner_as_requests(), urls(&["a"]));
}

#[test]
fn only_status_200_counts_as_an_answer() {
    let (submitted, _, result) = drive(
        &["a", "b", "c"],
        vec![
            vec![ok(201, "json:created"), ok(204, "json:none"), ok(0, "json:zero")],
            vec![ok(200, "json:A"), ok(200, "json:B"), ok(200, "json:C")],
        ],
    );
    assert_eq!(submitted[1], urls(&["a", "b", "c"]));
    assert_eq!(result.ok(), Some(urls(&["A", "B", "C"])));
}
