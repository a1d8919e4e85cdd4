//! Identifiers of puzzle inputs: a day of a year, with the address it is
//! fetched from and the file it is stored in.

use crate::text::{decimal, directory_of, directory_spec, expand, expand_spec, push_decimal};
use vstd::prelude::*;

verus! {

/// The first day of a season.
pub const FIRST_DAY: u8 = 1;

/// The last day of a season.
pub const LAST_DAY: u8 = 25;

/// The month in which a season runs.
pub const SEASON_MONTH: u32 = 12;

/// One puzzle input: a day of a year, and where asked for, a template that
/// says where its file goes.
#[derive(Debug, PartialEq, Eq)]
pub struct AdvInput {
    day: u8,
    year: i32,
    template: Option<String>,
}

/// What an identifier is, as plain mathematical values.
pub struct InputView {
    pub day: int,
    pub year: int,
    pub template: Option<Seq<char>>,
}

impl InputView {
    /// The day is a day of the season. Every [`AdvInput`] is in season.
    pub open spec fn in_season(self) -> bool {
        FIRST_DAY <= self.day <= LAST_DAY
    }
}

impl View for AdvInput {
    type V = InputView;

    closed spec fn view(&self) -> InputView {
        InputView {
            day: self.day as int,
            year: self.year as int,
            template: self.template.deep_view(),
        }
    }
}

impl DeepView for AdvInput {
    type V = InputView;

    open spec fn deep_view(&self) -> InputView {
        self@
    }
}

impl Clone for AdvInput {
    fn clone(&self) -> (copy: AdvInput)
        ensures
            copy@ == self@,
    {
        proof {
            use_type_invariant(self);
        }
        let template = match &self.template {
            Some(text) => Some(text.clone()),
            None => None,
        };
        AdvInput { day: self.day, year: self.year, template }
    }
}

/// The address from which an identifier's input is fetched.
pub open spec fn request_url_spec(input: InputView) -> Seq<char> {
    "https://adventofcode.com/"@ + decimal(input.year) + "/day/"@ + decimal(input.day)
        + "/input"@
}

/// The file in which an identifier's input is stored: its template with the
/// placeholders filled in, or, without a template,
/// `inputs/<year>/<day>/input.txt`.
pub open spec fn path_spec(input: InputView) -> Seq<char> {
    match input.template {
        Some(template) => expand_spec(template, input.year, input.day),
        None => "inputs/"@ + decimal(input.year) + "/"@ + decimal(input.day) + "/input.txt"@,
    }
}

impl AdvInput {
    #[verifier::type_invariant]
    spec fn in_season(self) -> bool {
        self@.in_season()
    }

    /// The identifier of `day` in `year`, stored at its canonical path.
    pub fn new(day: u8, year: i32) -> (input: AdvInput)
        requires
            FIRST_DAY <= day <= LAST_DAY,
        ensures
            input@ == (InputView { day: day as int, year: year as int, template: None }),
            input@.in_season(),
    {
        AdvInput { day, year, template: None }
    }

    /// The same identifier, stored where `template` says; without a
    /// template, at its canonical path.
    pub fn with_formatted_path(self, template: Option<&str>) -> (input: AdvInput)
        ensures
            input@ == (InputView { template: template.deep_view(), ..self@ }),
            input@.in_season(),
    {
        proof {
            use_type_invariant(&self);
        }
        let template = match template {
            Some(text) => Some(String::from_str(text)),
            None => None,
        };
        AdvInput { day: self.day, year: self.year, template }
    }

    /// The day, which is a day of the season.
    pub fn day(&self) -> (day: u8)
        ensures
            day == self@.day,
            self@.in_season(),
    {
        proof {
            use_type_invariant(self);
        }
        self.day
    }

    /// The year.
    pub fn year(&self) -> (year: i32)
        ensures
            year == self@.year,
    {
        self.year
    }

    /// The address from which this input is fetched.
    pub fn request_url(&self) -> (url: String)
        ensures
            url@ == request_url_spec(self@),
    {
        let mut url = String::from_str("https://adventofcode.com/");
        push_decimal(&mut url, self.year);
        url.append("/day/");
        push_decimal(&mut url, self.day as i32);
        url.append("/input");
        url
    }

    /// The file in which this input is stored.
    pub fn path(&self) -> (path: String)
        ensures
            path@ == path_spec(self@),
    {
        match &self.template {
            Some(template) => expand(template.as_str(), self.year, self.day),
            None => {
                let mut path = String::from_str("inputs/");
                push_decimal(&mut path, self.year);
                path.append("/");
                push_decimal(&mut path, self.day as i32);
                path.append("/input.txt");
                path
            },
        }
    }

    /// The directory in which this input's file lies, where its path names
    /// a file.
    pub fn directory(&self) -> (dir: Option<String>)
        ensures
            dir.deep_view() == directory_spec(path_spec(self@)),
    {
        let path = self.path();
        directory_of(path.as_str())
    }
}

/// The year of the season that was last opened, seen from `month` of
/// `year`: a season runs in December, so in any other month it is the one of
/// the year before.
pub open spec fn season_year_spec(year: int, month: int) -> int {
    if month == SEASON_MONTH {
        year
    } else {
        year - 1
    }
}

/// The year of the season that was last opened, seen from `month` of `year`.
pub fn season_year(year: i32, month: u32) -> (season: i32)
    requires
        year > i32::MIN,
    ensures
        season == season_year_spec(year as int, month as int),
{
    if month != SEASON_MONTH {
        year - 1
    } else {
        year
    }
}

/// The template that a batch goes by: the one asked for, else the one that
/// is configured.
pub open spec fn chosen_template(asked: Option<Seq<char>>, configured: Option<Seq<char>>) -> Option<
    Seq<char>,
> {
    if asked is Some {
        asked
    } else {
        configured
    }
}

/// The identifiers of a batch: the one day asked for, or every day of the
/// season in order, all of `year` and all stored by `template`.
pub open spec fn batch_spec(day: Option<u8>, year: int, template: Option<Seq<char>>) -> Seq<
    InputView,
> {
    match day {
        Some(day) => seq![InputView { day: day as int, year, template }],
        None => Seq::new(
            LAST_DAY as nat,
            |i: int| InputView { day: FIRST_DAY + i, year, template },
        ),
    }
}

/// Builds the identifiers of a batch: the one day asked for, or every day of
/// the season in order. Their files go by the template asked for, else by
/// the configured one, else to the canonical paths.
pub fn batch_inputs(
    day: Option<u8>,
    year: i32,
    asked: Option<&str>,
    configured: Option<&str>,
) -> (inputs: Vec<AdvInput>)
    requires
        day matches Some(d) ==> FIRST_DAY <= d <= LAST_DAY,
    ensures
        inputs.deep_view() == batch_spec(
            day,
            year as int,
            chosen_template(asked.deep_view(), configured.deep_view()),
        ),
{
    let template = if asked.is_some() {
        asked
    } else {
        configured
    };
    let mut inputs: Vec<AdvInput> = Vec::new();
    match day {
        Some(day) => {
            inputs.push(AdvInput::new(day, year).with_formatted_path(template));
        },
        None => {
            let mut day: u8 = FIRST_DAY;
            while day <= LAST_DAY
                invariant
                    FIRST_DAY <= day <= LAST_DAY + 1,
                    inputs.len() == day - FIRST_DAY,
                    forall|i: int|
                        0 <= i < inputs.len() ==> #[trigger] inputs[i]@ == (InputView {
                            day: FIRST_DAY + i,
                            year: year as int,
                            template: template.deep_view(),
                        }),
                decreases LAST_DAY + 1 - day,
            {
                inputs.push(AdvInput::new(day, year).with_formatted_path(template));
                day += 1;
            }
        },
    }
    assert(inputs.deep_view() =~= batch_spec(day, year as int, template.deep_view()));
    inputs
}

} // verus!
