use yaadv::api::{FetchError, HttpReply, Request};
use yaadv::download::{Action, DownloadError, OutputFile};
use yaadv::inputs::AdvInput;
use yaadv::rehearsal::{rehearse, Script};

fn body(text: &str) -> HttpReply {
    HttpReply::Response { status: 200, body: String::from(text) }
}

fn missing() -> HttpReply {
    HttpReply::Response { status: 404, body: String::new() }
}

fn season(days: &[u8]) -> Vec<AdvInput> {
    days.iter().map(|day| AdvInput::new(*day, 2023)).collect()
}

fn fetch(day: u8) -> Action {
    Action::Fetch(Request {
        url: format!("https://adventofcode.com/2023/day/{}/input", day),
        cookie: String::from("session=token"),
        read_timeout_secs: 5,
        write_timeout_secs: 5,
    })
}

fn store(day: u8, text: &str) -> Action {
    Action::Store(OutputFile {
        dir: Some(format!("inputs/2023/{}", day)),
        path: format!("inputs/2023/{}/input.txt", day),
        body: String::from(text),
    })
}

fn make_directory(day: u8) -> Action {
    Action::EnsureDirectory(format!("inputs/2023/{}", day))
}

#[test]
fn rehearsal_of_a_batch_with_a_missing_day() {
    let script = Script {
        directory: Ok(()),
        replies: vec![body("a"), missing(), body("c")],
        stores: vec![Ok(()), Ok(()), Ok(())],
    };
    let rehearsal = rehearse(season(&[1, 2, 3]), Some("token"), &script);
    assert_eq!(
        rehearsal.result,
        Ok(vec![String::from("day 2 is either not unlocked yet or does not exist")])
    );
    let wanted =
        vec![make_directory(1), fetch(1), store(1, "a"), fetch(2), fetch(3), store(3, "c")];
    assert!(rehearsal.performed == wanted);
}

#[test]
fn rehearsal_stops_at_an_error_status() {
    let script = Script {
        directory: Ok(()),
        replies: vec![body("a"), HttpReply::Response { status: 500, body: String::new() }, body("c")],
        stores: vec![Ok(()), Ok(()), Ok(())],
    };
    let rehearsal = rehearse(season(&[1, 2, 3]), Some("token"), &script);
    assert_eq!(rehearsal.result, Err(DownloadError::Fetch(FetchError::Status(500))));
    assert!(rehearsal.performed == vec![make_directory(1), fetch(1), store(1, "a"), fetch(2)]);
}

#[test]
fn rehearsal_stops_at_a_write_failure() {
    let script = Script {
        directory: Ok(()),
        replies: vec![body("a"), body("b"), body("c")],
        stores: vec![Ok(()), Err(String::from("read-only file system")), Ok(())],
    };
    let rehearsal = rehearse(season(&[1, 2, 3]), Some("token"), &script);
    assert_eq!(
        rehearsal.result,
        Err(DownloadError::Filesystem(String::from("read-only file system")))
    );
    let wanted = vec![make_directory(1), fetch(1), store(1, "a"), fetch(2), store(2, "b")];
    assert!(rehearsal.performed == wanted);
}

#[test]
fn rehearsal_stops_at_a_directory_that_cannot_be_made() {
    let script = Script {
        directory: Err(String::from("permission denied")),
        replies: vec![body("a")],
        stores: vec![Ok(())],
    };
    let rehearsal = rehearse(season(&[1]), Some("token"), &script);
    assert_eq!(rehearsal.result, Err(DownloadError::Filesystem(String::from("permission denied"))));
    assert!(rehearsal.performed == vec![make_directory(1)]);
}

#[test]
fn rehearsal_without_a_credential_performs_nothing() {
    let script = Script { directory: Ok(()), replies: vec![body("a")], stores: vec![Ok(())] };
    let absent = rehearse(season(&[1]), None, &script);
    assert_eq!(absent.result, Err(DownloadError::NoCredential));
    assert!(absent.performed.is_empty());
    let empty = rehearse(season(&[1]), Some(""), &script);
    assert_eq!(empty.result, Err(DownloadError::NoCredential));
    assert!(empty.performed.is_empty());
}

#[test]
fn rehearsal_without_inputs_performs_nothing() {
    let script = Script { directory: Ok(()), replies: Vec::new(), stores: Vec::new() };
    let rehearsal = rehearse(Vec::new(), Some("token"), &script);
    assert_eq!(rehearsal.result, Err(DownloadError::NoInputs));
    assert!(rehearsal.performed.is_empty());
}

#[test]
fn rehearsal_of_a_whole_season() {
    let script = Script {
        directory: Ok(()),
        replies: (1..=25).map(|day| if day <= 10 { body("x") } else { missing() }).collect(),
        stores: (1..=25).map(|_| Ok(())).collect(),
    };
    let inputs: Vec<AdvInput> = (1..=25).map(|day| AdvInput::new(day, 2023)).collect();
    let rehearsal = rehearse(inputs, Some("token"), &script);
    let warnings = rehearsal.result.unwrap();
    assert_eq!(warnings.len(), 15);
    assert_eq!(warnings[0], "day 11 is either not unlocked yet or does not exist");
    assert_eq!(warnings[14], "day 25 is either not unlocked yet or does not exist");
    assert_eq!(rehearsal.performed.len(), 1 + 2 * 10 + 15);
}

#[test]
fn rehearsing_twice_gives_the_same() {
    let script = Script {
        directory: Ok(()),
        replies: vec![body("a"), missing()],
        stores: vec![Ok(()), Ok(())],
    };
    let once = rehearse(season(&[1, 2]), Some("token"), &script);
    let twice = rehearse(season(&[1, 2]), Some("token"), &script);
    assert!(once == twice);
}
