//! Text building blocks: decimal numerals, path templates and the directory
//! part of a path.
//!
//! Everything here is stated over `Seq<char>`, the view of `str` and `String`.

use vstd::prelude::*;

verus! {

/// The character that stands for the decimal digit `d`.
pub open spec fn digit(d: int) -> char {
    if d == 0 {
        '0'
    } else if d == 1 {
        '1'
    } else if d == 2 {
        '2'
    } else if d == 3 {
        '3'
    } else if d == 4 {
        '4'
    } else if d == 5 {
        '5'
    } else if d == 6 {
        '6'
    } else if d == 7 {
        '7'
    } else if d == 8 {
        '8'
    } else {
        '9'
    }
}

/// The decimal numeral of a natural number, most significant digit first,
/// without leading zeros.
pub open spec fn decimal_nat(n: nat) -> Seq<char>
    decreases n,
{
    if n < 10 {
        seq![digit(n as int)]
    } else {
        decimal_nat(n / 10).push(digit((n % 10) as int))
    }
}

/// The decimal numeral of an integer: a minus sign before the numeral of its
/// magnitude when it is negative.
pub open spec fn decimal(n: int) -> Seq<char> {
    if n < 0 {
        seq!['-'] + decimal_nat((-n) as nat)
    } else {
        decimal_nat(n as nat)
    }
}

/// The digit that a character stands for; 0 for every character that is no
/// digit.
pub open spec fn digit_value(c: char) -> nat {
    if c == '1' {
        1
    } else if c == '2' {
        2
    } else if c == '3' {
        3
    } else if c == '4' {
        4
    } else if c == '5' {
        5
    } else if c == '6' {
        6
    } else if c == '7' {
        7
    } else if c == '8' {
        8
    } else if c == '9' {
        9
    } else {
        0
    }
}

/// The number that a decimal numeral names.
pub open spec fn numeral_value(numeral: Seq<char>) -> nat
    decreases numeral.len(),
{
    if numeral.len() == 0 {
        0
    } else {
        10 * numeral_value(numeral.drop_last()) + digit_value(numeral.last())
    }
}

/// A numeral names the number it was made from, holds at least one
/// character, and none of its characters is a minus sign.
pub proof fn lemma_decimal_nat_names_its_number(n: nat)
    ensures
        numeral_value(decimal_nat(n)) == n,
        decimal_nat(n).len() >= 1,
        forall|i: int| 0 <= i < decimal_nat(n).len() ==> decimal_nat(n)[i] != '-',
    decreases n,
{
    let numeral = decimal_nat(n);
    if n < 10 {
        assert(numeral.drop_last() =~= Seq::<char>::empty());
        assert(numeral_value(numeral.drop_last()) == 0);
        assert(digit_value(numeral.last()) == n);
    } else {
        lemma_decimal_nat_names_its_number(n / 10);
        assert(numeral.drop_last() =~= decimal_nat(n / 10));
        assert(digit_value(numeral.last()) == n % 10);
    }
}

/// Different numbers have different numerals.
pub proof fn lemma_decimal_is_one_to_one(a: int, b: int)
    requires
        decimal(a) == decimal(b),
    ensures
        a == b,
{
    let abs_a = (if a < 0 { -a } else { a }) as nat;
    let abs_b = (if b < 0 { -b } else { b }) as nat;
    lemma_decimal_nat_names_its_number(abs_a);
    lemma_decimal_nat_names_its_number(abs_b);
    if a < 0 {
        assert(decimal(a)[0] == '-');
        assert(b < 0);
        assert(decimal(a).skip(1) =~= decimal_nat(abs_a));
        assert(decimal(b).skip(1) =~= decimal_nat(abs_b));
    } else {
        assert(decimal(a)[0] != '-');
        if b < 0 {
            assert(decimal(b)[0] == '-');
        }
    }
}

/// The last separator of a path is a `/`, and no `/` comes after it.
pub proof fn lemma_last_separator(path: Seq<char>)
    ensures
        -1 <= last_separator(path) < path.len(),
        last_separator(path) >= 0 ==> path[last_separator(path)] == '/',
        forall|i: int| last_separator(path) < i < path.len() ==> path[i] != '/',
    decreases path.len(),
{
    if path.len() > 0 && path.last() != '/' {
        let head = path.drop_last();
        lemma_last_separator(head);
        assert forall|i: int| last_separator(path) < i < path.len() implies path[i] != '/' by {
            if i < head.len() {
                assert(path[i] == head[i]);
            }
        }
    }
}

/// The directory of a path is a beginning of the path, and shorter.
pub proof fn law_directory_begins_its_path(path: Seq<char>)
    ensures
        directory_spec(path) matches Some(dir) ==> dir.len() < path.len() && dir == path.take(
            dir.len() as int,
        ),
{
    lemma_last_separator(path);
    if last_separator(path) == 0 && path.len() > 1 {
        assert(seq!['/'] =~= path.take(1));
    }
    if last_separator(path) < 0 {
        assert(Seq::<char>::empty() =~= path.take(0));
    }
}

/// The placeholder that a path template holds for the year.
pub open spec fn year_key() -> Seq<char> {
    seq!['{', 'y', 'e', 'a', 'r', '}']
}

/// The placeholder that a path template holds for the day.
pub open spec fn day_key() -> Seq<char> {
    seq!['{', 'd', 'a', 'y', '}']
}

/// A path template with its placeholders filled in: read from left to right,
/// each `{year}` becomes the numeral of `year`, each `{day}` the numeral of
/// `day`, and every other character stands for itself.
pub open spec fn expand_spec(template: Seq<char>, year: int, day: int) -> Seq<char>
    decreases template.len(),
{
    if template.len() == 0 {
        Seq::empty()
    } else if year_key().is_prefix_of(template) {
        decimal(year) + expand_spec(template.skip(6), year, day)
    } else if day_key().is_prefix_of(template) {
        decimal(day) + expand_spec(template.skip(5), year, day)
    } else {
        seq![template[0]] + expand_spec(template.skip(1), year, day)
    }
}

/// The position of the last `/` in `path`, or -1 where it holds none.
pub open spec fn last_separator(path: Seq<char>) -> int
    decreases path.len(),
{
    if path.len() == 0 {
        -1
    } else if path.last() == '/' {
        path.len() - 1
    } else {
        last_separator(path.drop_last())
    }
}

/// The directory in which the file named by a `/`-separated path lies.
///
/// A path that is empty or ends in `/` names no file and has no directory.
/// A bare file name lies in the working directory, written as the empty
/// path; a file directly under the root lies in `/`; any other file lies in
/// what stands before the last `/`.
pub open spec fn directory_spec(path: Seq<char>) -> Option<Seq<char>> {
    let cut = last_separator(path);
    if path.len() == 0 || cut == path.len() - 1 {
        None
    } else if cut < 0 {
        Some(Seq::empty())
    } else if cut == 0 {
        Some(seq!['/'])
    } else {
        Some(path.take(cut))
    }
}

fn digit_str(d: u64) -> (s: &'static str)
    requires
        d < 10,
    ensures
        s@ == seq![digit(d as int)],
{
    proof {
        reveal_strlit("0");
        reveal_strlit("1");
        reveal_strlit("2");
        reveal_strlit("3");
        reveal_strlit("4");
        reveal_strlit("5");
        reveal_strlit("6");
        reveal_strlit("7");
        reveal_strlit("8");
        reveal_strlit("9");
    }
    let s = if d == 0 {
        "0"
    } else if d == 1 {
        "1"
    } else if d == 2 {
        "2"
    } else if d == 3 {
        "3"
    } else if d == 4 {
        "4"
    } else if d == 5 {
        "5"
    } else if d == 6 {
        "6"
    } else if d == 7 {
        "7"
    } else if d == 8 {
        "8"
    } else {
        "9"
    };
    assert(s@ =~= seq![digit(d as int)]);
    s
}

fn push_decimal_nat(out: &mut String, n: u64)
    ensures
        final(out)@ == old(out)@ + decimal_nat(n as nat),
    decreases n,
{
    if n >= 10 {
        push_decimal_nat(out, n / 10);
    }
    out.append(digit_str(n % 10));
    assert(out@ =~= old(out)@ + decimal_nat(n as nat));
}

/// Appends the decimal numeral of `n` to `out`.
pub fn push_decimal(out: &mut String, n: i32)
    ensures
        final(out)@ == old(out)@ + decimal(n as int),
{
    if n < 0 {
        proof {
            reveal_strlit("-");
        }
        out.append("-");
        let magnitude: i64 = 0 - (n as i64);
        push_decimal_nat(out, magnitude as u64);
        assert(out@ =~= old(out)@ + decimal(n as int));
    } else {
        push_decimal_nat(out, n as u64);
    }
}

/// The decimal numeral of `n` as a string.
pub fn decimal_string(n: i32) -> (s: String)
    ensures
        s@ == decimal(n as int),
{
    let mut s = String::new();
    push_decimal(&mut s, n);
    assert(s@ =~= decimal(n as int));
    s
}

/// The characters of `s`, in order.
fn chars_of(s: &str) -> (v: Vec<char>)
    ensures
        v@ == s@,
{
    let mut v: Vec<char> = Vec::new();
    for c in it: s.chars()
        invariant
            v@ == it.seq().take(it.index() as int),
    {
        v.push(c);
    }
    v
}

/// Whether `key` stands in `text` at position `at`.
fn matches_at(text: &Vec<char>, at: usize, key: &Vec<char>) -> (found: bool)
    requires
        at <= text.len(),
    ensures
        found == key@.is_prefix_of(text@.skip(at as int)),
{
    if key.len() > text.len() - at {
        return false;
    }
    let mut k: usize = 0;
    while k < key.len()
        invariant
            at <= text.len(),
            key.len() <= text.len() - at,
            k <= key.len(),
            forall|j: int| 0 <= j < k ==> key@[j] == text@[at + j],
        decreases key.len() - k,
    {
        if key[k] != text[at + k] {
            let ghost found = text@.skip(at as int).subrange(0, key@.len() as int);
            assert(key@[k as int] != found[k as int]);
            return false;
        }
        k += 1;
    }
    assert(key@ =~= text@.skip(at as int).subrange(0, key@.len() as int));
    true
}

/// Fills in the placeholders of a path template: each `{year}` becomes the
/// numeral of `year` and each `{day}` the numeral of `day`.
pub fn expand(template: &str, year: i32, day: u8) -> (path: String)
    ensures
        path@ == expand_spec(template@, year as int, day as int),
{
    proof {
        reveal_strlit("{year}");
        reveal_strlit("{day}");
    }
    let text = chars_of(template);
    let year_mark = chars_of("{year}");
    let day_mark = chars_of("{day}");
    assert(year_mark@ =~= year_key());
    assert(day_mark@ =~= day_key());
    let mut path = String::new();
    // The characters from `plain` up to `at` stand for themselves and are
    // copied in one piece when a placeholder or the end is reached.
    let mut plain: usize = 0;
    let mut at: usize = 0;
    assert(text@.skip(0) =~= text@);
    assert(text@.subrange(0, 0) + expand_spec(text@, year as int, day as int) =~= expand_spec(
        text@,
        year as int,
        day as int,
    ));
    while at < text.len()
        invariant
            plain <= at <= text.len(),
            text@ == template@,
            year_mark@ == year_key(),
            day_mark@ == day_key(),
            expand_spec(template@, year as int, day as int) == path@ + expand_spec(
                text@.skip(plain as int),
                year as int,
                day as int,
            ),
            expand_spec(text@.skip(plain as int), year as int, day as int) == text@.subrange(
                plain as int,
                at as int,
            ) + expand_spec(text@.skip(at as int), year as int, day as int),
        decreases text.len() - at,
    {
        let ghost rest = text@.skip(at as int);
        let ghost before = path@;
        let ghost run = text@.subrange(plain as int, at as int);
        let is_year = matches_at(&text, at, &year_mark);
        let is_day = !is_year && matches_at(&text, at, &day_mark);
        if is_year || is_day {
            path.append(template.substring_char(plain, at));
            if is_year {
                push_decimal(&mut path, year);
                at += 6;
                assert(rest.skip(6) =~= text@.skip(at as int));
            } else {
                push_decimal(&mut path, day as i32);
                at += 5;
                assert(rest.skip(5) =~= text@.skip(at as int));
            }
            plain = at;
            let ghost tail = expand_spec(text@.skip(at as int), year as int, day as int);
            assert(text@.subrange(at as int, at as int) + tail =~= tail);
            assert(path@ + tail =~= before + (run + expand_spec(rest, year as int, day as int)));
        } else {
            at += 1;
            assert(rest.skip(1) =~= text@.skip(at as int));
            assert(run + seq![rest[0]] =~= text@.subrange(plain as int, at as int));
            assert(run + (seq![rest[0]] + expand_spec(
                text@.skip(at as int),
                year as int,
                day as int,
            )) =~= text@.subrange(plain as int, at as int) + expand_spec(
                text@.skip(at as int),
                year as int,
                day as int,
            ));
        }
    }
    let ghost before = path@;
    path.append(template.substring_char(plain, at));
    assert(path@ =~= before + (text@.subrange(plain as int, at as int) + expand_spec(
        text@.skip(at as int),
        year as int,
        day as int,
    )));
    path
}

/// The directory in which the file named by `path` lies, where it names one.
pub fn directory_of(path: &str) -> (dir: Option<String>)
    ensures
        dir.deep_view() == directory_spec(path@),
{
    let text = chars_of(path);
    let mut cut: usize = text.len();
    assert(text@.take(cut as int) =~= text@);
    while cut > 0 && text[cut - 1] != '/'
        invariant
            cut <= text.len(),
            last_separator(text@) == last_separator(text@.take(cut as int)),
        decreases cut,
    {
        proof {
            let head = text@.take(cut as int);
            assert(head.drop_last() =~= text@.take(cut as int - 1));
        }
        cut -= 1;
    }
    proof {
        let head = text@.take(cut as int);
        if cut > 0 {
            assert(head.last() == '/');
        }
        assert(last_separator(text@) == cut as int - 1);
    }
    if text.len() == 0 || cut == text.len() {
        None
    } else if cut == 0 {
        Some(String::new())
    } else if cut == 1 {
        proof {
            reveal_strlit("/");
        }
        let root = String::from_str("/");
        assert(root@ =~= seq!['/']);
        Some(root)
    } else {
        let head = path.substring_char(0, cut - 1);
        let dir = String::from_str(head);
        assert(dir@ =~= path@.take(cut as int - 1));
        Some(dir)
    }
}

} // verus!
