use yaadv::inputs::{batch_inputs, season_year, AdvInput, FIRST_DAY, LAST_DAY};

#[test]
fn request_url_of_a_day() {
    assert_eq!(AdvInput::new(1, 2023).request_url(), "https://adventofcode.com/2023/day/1/input");
    assert_eq!(AdvInput::new(25, 2015).request_url(), "https://adventofcode.com/2015/day/25/input");
}

#[test]
fn request_url_ignores_the_template() {
    let input = AdvInput::new(7, 2022).with_formatted_path(Some("x/{day}"));
    assert_eq!(input.request_url(), "https://adventofcode.com/2022/day/7/input");
}

#[test]
fn canonical_path_of_a_day() {
    assert_eq!(AdvInput::new(1, 2023).path(), "inputs/2023/1/input.txt");
    assert_eq!(AdvInput::new(12, 2020).path(), "inputs/2020/12/input.txt");
}

#[test]
fn path_by_template() {
    let input = AdvInput::new(3, 2021).with_formatted_path(Some("puzzles/{year}/day-{day}.in"));
    assert_eq!(input.path(), "puzzles/2021/day-3.in");
}

#[test]
fn an_absent_template_gives_the_canonical_path_back() {
    let input = AdvInput::new(3, 2021).with_formatted_path(Some("x")).with_formatted_path(None);
    assert_eq!(input.path(), "inputs/2021/3/input.txt");
    assert_eq!(input, AdvInput::new(3, 2021));
}

#[test]
fn directory_of_the_canonical_path() {
    assert_eq!(AdvInput::new(1, 2023).directory(), Some(String::from("inputs/2023/1")));
}

#[test]
fn directory_by_template() {
    let flat = AdvInput::new(1, 2023).with_formatted_path(Some("day{day}.txt"));
    assert_eq!(flat.directory(), Some(String::new()));
    let none = AdvInput::new(1, 2023).with_formatted_path(Some("out/{year}/"));
    assert_eq!(none.directory(), None);
}

#[test]
fn day_and_year_are_kept() {
    let input = AdvInput::new(FIRST_DAY, -44);
    assert_eq!(input.day(), 1);
    assert_eq!(input.year(), -44);
    assert_eq!(input.request_url(), "https://adventofcode.com/-44/day/1/input");
    let last = AdvInput::new(LAST_DAY, 2024);
    assert_eq!(last.day(), 25);
}

#[test]
fn a_clone_is_equal() {
    let input = AdvInput::new(9, 2019).with_formatted_path(Some("{year}/{day}"));
    let copy = input.clone();
    assert_eq!(copy, input);
    assert_eq!(copy.path(), "2019/9");
}

#[test]
fn season_year_in_december_is_the_year() {
    assert_eq!(season_year(2023, 12), 2023);
}

#[test]
fn season_year_before_december_is_the_year_before() {
    assert_eq!(season_year(2023, 1), 2022);
    assert_eq!(season_year(2023, 11), 2022);
    assert_eq!(season_year(i32::MIN + 1, 6), i32::MIN);
}

#[test]
fn a_batch_of_one_day() {
    let inputs = batch_inputs(Some(5), 2020, None, None);
    assert_eq!(inputs, vec![AdvInput::new(5, 2020)]);
}

#[test]
fn a_batch_of_the_whole_season() {
    let inputs = batch_inputs(None, 2020, None, None);
    assert_eq!(inputs.len(), 25);
    for (i, input) in inputs.iter().enumerate() {
        assert_eq!(input.day() as usize, i + 1);
        assert_eq!(input.year(), 2020);
        assert_eq!(input.path(), format!("inputs/2020/{}/input.txt", i + 1));
    }
}

#[test]
fn a_batch_prefers_the_template_asked_for() {
    let inputs = batch_inputs(Some(2), 2020, Some("asked/{day}"), Some("configured/{day}"));
    assert_eq!(inputs[0].path(), "asked/2");
}

#[test]
fn a_batch_falls_back_to_the_configured_template() {
    let inputs = batch_inputs(None, 2020, None, Some("configured/{day}"));
    assert_eq!(inputs.len(), 25);
    assert_eq!(inputs[0].path(), "configured/1");
    assert_eq!(inputs[24].path(), "configured/25");
}
