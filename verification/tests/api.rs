use yaadv::api::{
    classify, cookie_header, fetch_inputs, fetch_requests, not_unlocked_message, request_for,
    FetchError, FetchOutcome, HttpReply, Request, NOT_FOUND, READ_TIMEOUT_SECS, WRITE_TIMEOUT_SECS,
};
use yaadv::inputs::AdvInput;

fn response(status: u16, body: &str) -> HttpReply {
    HttpReply::Response { status, body: String::from(body) }
}

fn failure(reason: &str) -> HttpReply {
    HttpReply::Failure { reason: String::from(reason) }
}

#[test]
fn timeouts_are_five_seconds() {
    assert_eq!(READ_TIMEOUT_SECS, 5);
    assert_eq!(WRITE_TIMEOUT_SECS, 5);
}

#[test]
fn cookie_carries_the_session_token() {
    assert_eq!(cookie_header("abc123"), "session=abc123");
    assert_eq!(cookie_header(""), "session=");
}

#[test]
fn request_for_an_input() {
    let request = request_for(&AdvInput::new(2, 2023), &String::from("session=t"));
    let wanted = Request {
        url: String::from("https://adventofcode.com/2023/day/2/input"),
        cookie: String::from("session=t"),
        read_timeout_secs: 5,
        write_timeout_secs: 5,
    };
    assert!(request == wanted);
    assert!(request.clone() == wanted);
}

#[test]
fn warning_names_the_day() {
    assert_eq!(not_unlocked_message(2), "day 2 is either not unlocked yet or does not exist");
    assert_eq!(not_unlocked_message(25), "day 25 is either not unlocked yet or does not exist");
}

#[test]
fn a_success_status_gives_the_body() {
    let input = AdvInput::new(1, 2023);
    assert_eq!(classify(&input, response(200, "a")), FetchOutcome::Success(String::from("a")));
    assert_eq!(classify(&input, response(204, "")), FetchOutcome::Success(String::new()));
    assert_eq!(classify(&input, response(299, "z\n")), FetchOutcome::Success(String::from("z\n")));
}

#[test]
fn not_found_is_a_soft_failure() {
    let input = AdvInput::new(2, 2023);
    assert_eq!(
        classify(&input, response(NOT_FOUND, "Please don't repeatedly request this endpoint")),
        FetchOutcome::SoftFailure(String::from(
            "day 2 is either not unlocked yet or does not exist"
        ))
    );
}

#[test]
fn any_other_status_is_a_hard_failure_that_keeps_the_status() {
    let input = AdvInput::new(3, 2023);
    for status in [0, 100, 199, 300, 301, 400, 401, 403, 405, 429, 500, 503, 599, u16::MAX] {
        assert_eq!(
            classify(&input, response(status, "body")),
            FetchOutcome::HardFailure(FetchError::Status(status))
        );
    }
}

#[test]
fn no_answer_is_a_hard_failure_that_keeps_the_reason() {
    let input = AdvInput::new(3, 2023);
    assert_eq!(
        classify(&input, failure("timed out reading response")),
        FetchOutcome::HardFailure(FetchError::Transport(String::from("timed out reading response")))
    );
}

#[test]
fn one_request_for_each_input_in_order() {
    let inputs = vec![AdvInput::new(1, 2023), AdvInput::new(2, 2023), AdvInput::new(3, 2023)];
    let requests = fetch_requests(&inputs, "tok");
    assert_eq!(requests.len(), 3);
    for (i, request) in requests.iter().enumerate() {
        assert_eq!(request.url, format!("https://adventofcode.com/2023/day/{}/input", i + 1));
        assert_eq!(request.cookie, "session=tok");
        assert_eq!(request.read_timeout_secs, 5);
        assert_eq!(request.write_timeout_secs, 5);
    }
}

#[test]
fn no_request_for_no_input() {
    assert!(fetch_requests(&Vec::new(), "tok").is_empty());
    assert_eq!(fetch_inputs(&Vec::new(), Vec::new()), Vec::new());
}

#[test]
fn one_outcome_for_each_input_in_order() {
    let inputs = vec![
        AdvInput::new(1, 2023),
        AdvInput::new(2, 2023),
        AdvInput::new(3, 2023),
        AdvInput::new(4, 2023),
    ];
    let replies =
        vec![response(200, "a"), response(404, ""), response(500, "oops"), failure("reset")];
    let outcomes = fetch_inputs(&inputs, replies);
    assert_eq!(
        outcomes,
        vec![
            FetchOutcome::Success(String::from("a")),
            FetchOutcome::SoftFailure(String::from(
                "day 2 is either not unlocked yet or does not exist"
            )),
            FetchOutcome::HardFailure(FetchError::Status(500)),
            FetchOutcome::HardFailure(FetchError::Transport(String::from("reset"))),
        ]
    );
}

#[test]
fn a_hard_failure_does_not_cut_the_outcomes_short() {
    let inputs: Vec<AdvInput> = (1..=25).map(|day| AdvInput::new(day, 2022)).collect();
    let replies: Vec<HttpReply> = (1..=25)
        .map(|day| if day % 2 == 0 { response(500, "") } else { response(200, "ok") })
        .collect();
    let outcomes = fetch_inputs(&inputs, replies);
    assert_eq!(outcomes.len(), inputs.len());
    assert_eq!(outcomes[0], FetchOutcome::Success(String::from("ok")));
    assert_eq!(outcomes[1], FetchOutcome::HardFailure(FetchError::Status(500)));
    assert_eq!(outcomes[24], FetchOutcome::Success(String::from("ok")));
}

#[test]
fn the_warning_is_for_the_input_at_the_same_position() {
    let inputs = vec![AdvInput::new(9, 2023), AdvInput::new(4, 2023)];
    let outcomes = fetch_inputs(&inputs, vec![response(404, ""), response(404, "")]);
    assert_eq!(
        outcomes,
        vec![
            FetchOutcome::SoftFailure(String::from(
                "day 9 is either not unlocked yet or does not exist"
            )),
            FetchOutcome::SoftFailure(String::from(
                "day 4 is either not unlocked yet or does not exist"
            )),
        ]
    );
}

#[test]
fn what_the_fetch_errors_say() {
    assert_eq!(FetchError::Status(403).message(), "status code 403");
    assert_eq!(FetchError::Transport(String::from("dns")).message(), "dns");
}
