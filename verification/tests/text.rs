use yaadv::text::{decimal_string, directory_of, expand, push_decimal};

#[test]
fn decimal_of_zero() {
    assert_eq!(decimal_string(0), "0");
}

#[test]
fn decimal_of_single_digits() {
    assert_eq!(decimal_string(1), "1");
    assert_eq!(decimal_string(7), "7");
    assert_eq!(decimal_string(9), "9");
}

#[test]
fn decimal_of_several_digits() {
    assert_eq!(decimal_string(10), "10");
    assert_eq!(decimal_string(25), "25");
    assert_eq!(decimal_string(404), "404");
    assert_eq!(decimal_string(2023), "2023");
    assert_eq!(decimal_string(1_000_000), "1000000");
}

#[test]
fn decimal_of_negative_numbers() {
    assert_eq!(decimal_string(-1), "-1");
    assert_eq!(decimal_string(-2023), "-2023");
}

#[test]
fn decimal_at_the_limits() {
    assert_eq!(decimal_string(i32::MAX), "2147483647");
    assert_eq!(decimal_string(i32::MIN), "-2147483648");
}

#[test]
fn decimal_agrees_with_the_standard_rendering() {
    for n in [-100_000, -99, -10, -9, 0, 5, 99, 100, 101, 65_535, 123_456_789] {
        assert_eq!(decimal_string(n), n.to_string());
    }
}

#[test]
fn push_decimal_appends() {
    let mut out = String::from("year ");
    push_decimal(&mut out, 2015);
    assert_eq!(out, "year 2015");
    push_decimal(&mut out, -3);
    assert_eq!(out, "year 2015-3");
}

#[test]
fn expand_without_placeholders_is_the_template() {
    assert_eq!(expand("data/input.txt", 2023, 1), "data/input.txt");
    assert_eq!(expand("", 2023, 1), "");
}

#[test]
fn expand_fills_year_and_day() {
    assert_eq!(expand("aoc/{year}/day{day}.txt", 2023, 4), "aoc/2023/day4.txt");
    assert_eq!(expand("{day}-{year}", 2020, 25), "25-2020");
}

#[test]
fn expand_fills_every_occurrence() {
    assert_eq!(expand("{year}/{year}/{day}{day}", 2021, 3), "2021/2021/33");
}

#[test]
fn expand_keeps_what_is_no_placeholder() {
    assert_eq!(expand("{years}/{da}/{ day }/{", 2022, 9), "{years}/{da}/{ day }/{");
    assert_eq!(expand("{{year}}", 2022, 9), "{2022}");
    assert_eq!(expand("{yea{day}r}", 2022, 9), "{yea9r}");
}

#[test]
fn expand_keeps_characters_outside_ascii() {
    assert_eq!(
        expand("entr\u{e9}es/{year}/\u{65e5}{day}", 2019, 12),
        "entr\u{e9}es/2019/\u{65e5}12"
    );
}

#[test]
fn directory_of_a_nested_file() {
    assert_eq!(directory_of("inputs/2023/1/input.txt"), Some(String::from("inputs/2023/1")));
    assert_eq!(directory_of("a/b"), Some(String::from("a")));
}

#[test]
fn directory_of_a_bare_file_name_is_the_working_directory() {
    assert_eq!(directory_of("input.txt"), Some(String::new()));
}

#[test]
fn directory_of_a_file_under_the_root_is_the_root() {
    assert_eq!(directory_of("/input.txt"), Some(String::from("/")));
}

#[test]
fn directory_of_what_names_no_file_is_none() {
    assert_eq!(directory_of(""), None);
    assert_eq!(directory_of("/"), None);
    assert_eq!(directory_of("inputs/2023/"), None);
}

#[test]
fn directory_of_counts_characters_not_bytes() {
    assert_eq!(
        directory_of("entr\u{e9}es/\u{65e5}/input.txt"),
        Some(String::from("entr\u{e9}es/\u{65e5}"))
    );
}
