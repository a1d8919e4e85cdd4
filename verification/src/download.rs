//! The downloader: a batch of identifiers taken through directory, request
//! and file, one action at a time.
//!
//! The batch does no I/O. It hands out one [`Action`] at a time; whoever
//! drives it performs the action and comes back with the [`Event`] that
//! tells how it went. A batch is pending until [`Download::start`], running
//! while it hands out actions, and ends completed with its warnings or
//! aborted with an error. An ended batch is gone: nothing is left to step.

use crate::api::{
    classify, classify_spec, cookie_header, cookie_spec, fetch_error_text, request_for,
    request_spec, FetchError, FetchErrorView, FetchOutcome, HttpReply, OutcomeView, ReplyView,
    Request, RequestView,
};
use crate::inputs::{path_spec, AdvInput, InputView};
use crate::text::directory_spec;
use vstd::prelude::*;

verus! {

/// Why a batch ended without completing.
#[derive(Debug, PartialEq, Eq)]
pub enum DownloadError {
    /// No session token, or an empty one.
    NoCredential,
    /// No identifier to download.
    NoInputs,
    /// The first identifier's path names no file, so there is no directory
    /// to download into.
    NoDirectory,
    /// A fetch failed for good.
    Fetch(FetchError),
    /// A directory could not be created or a file could not be written.
    Filesystem(String),
}

/// A download error as plain mathematical values.
pub enum DownloadErrorView {
    NoCredential,
    NoInputs,
    NoDirectory,
    Fetch(FetchErrorView),
    Filesystem(Seq<char>),
}

impl View for DownloadError {
    type V = DownloadErrorView;

    open spec fn view(&self) -> DownloadErrorView {
        match self {
            DownloadError::NoCredential => DownloadErrorView::NoCredential,
            DownloadError::NoInputs => DownloadErrorView::NoInputs,
            DownloadError::NoDirectory => DownloadErrorView::NoDirectory,
            DownloadError::Fetch(error) => DownloadErrorView::Fetch(error@),
            DownloadError::Filesystem(reason) => DownloadErrorView::Filesystem(reason@),
        }
    }
}

impl Clone for DownloadError {
    fn clone(&self) -> (copy: DownloadError)
        ensures
            copy@ == self@,
    {
        match self {
            DownloadError::NoCredential => DownloadError::NoCredential,
            DownloadError::NoInputs => DownloadError::NoInputs,
            DownloadError::NoDirectory => DownloadError::NoDirectory,
            DownloadError::Fetch(error) => DownloadError::Fetch(error.clone()),
            DownloadError::Filesystem(reason) => DownloadError::Filesystem(reason.clone()),
        }
    }
}

/// What a download error says.
pub open spec fn download_error_text(error: DownloadErrorView) -> Seq<char> {
    match error {
        DownloadErrorView::NoCredential => {
            "No session token found!\nPlease add a session token first"@
        },
        DownloadErrorView::NoInputs => "no input file to download"@,
        DownloadErrorView::NoDirectory => "no parent folder exists"@,
        DownloadErrorView::Fetch(error) => "unhandled error while downloading input files!\n"@
            + fetch_error_text(error),
        DownloadErrorView::Filesystem(reason) => reason,
    }
}

impl DownloadError {
    /// What this error says, for a reader.
    pub fn message(&self) -> (text: String)
        ensures
            text@ == download_error_text(self@),
    {
        match self {
            DownloadError::NoCredential => String::from_str(
                "No session token found!\nPlease add a session token first",
            ),
            DownloadError::NoInputs => String::from_str("no input file to download"),
            DownloadError::NoDirectory => String::from_str("no parent folder exists"),
            DownloadError::Fetch(error) => {
                let mut text = String::from_str("unhandled error while downloading input files!\n");
                let cause = error.message();
                text.append(cause.as_str());
                text
            },
            DownloadError::Filesystem(reason) => reason.clone(),
        }
    }
}

/// A file to write: create `dir` and what lies above it where they are
/// missing, then create `path` or empty it, and put `body` in it unchanged.
/// Where the path names no file, there is no `dir`, and the write is left
/// to fail.
#[derive(Debug, PartialEq, Eq)]
pub struct OutputFile {
    pub dir: Option<String>,
    pub path: String,
    pub body: String,
}

/// A file to write, as plain mathematical values.
pub struct FileView {
    pub dir: Option<Seq<char>>,
    pub path: Seq<char>,
    pub body: Seq<char>,
}

impl View for OutputFile {
    type V = FileView;

    open spec fn view(&self) -> FileView {
        FileView { dir: self.dir.deep_view(), path: self.path@, body: self.body@ }
    }
}

impl Clone for OutputFile {
    fn clone(&self) -> (copy: OutputFile)
        ensures
            copy@ == self@,
    {
        let dir = match &self.dir {
            Some(dir) => Some(dir.clone()),
            None => None,
        };
        OutputFile { dir, path: self.path.clone(), body: self.body.clone() }
    }
}

/// What the batch asks its driver to do next.
#[derive(PartialEq, Eq)]
pub enum Action {
    /// Create this directory, and what lies above it, where missing.
    EnsureDirectory(String),
    /// Make this network call.
    Fetch(Request),
    /// Write this file.
    Store(OutputFile),
}

/// An action as plain mathematical values.
pub enum ActionView {
    EnsureDirectory(Seq<char>),
    Fetch(RequestView),
    Store(FileView),
}

impl View for Action {
    type V = ActionView;

    open spec fn view(&self) -> ActionView {
        match self {
            Action::EnsureDirectory(dir) => ActionView::EnsureDirectory(dir@),
            Action::Fetch(request) => ActionView::Fetch(request@),
            Action::Store(file) => ActionView::Store(file@),
        }
    }
}

impl DeepView for Action {
    type V = ActionView;

    open spec fn deep_view(&self) -> ActionView {
        self@
    }
}

impl Clone for Action {
    fn clone(&self) -> (copy: Action)
        ensures
            copy@ == self@,
    {
        match self {
            Action::EnsureDirectory(dir) => Action::EnsureDirectory(dir.clone()),
            Action::Fetch(request) => Action::Fetch(request.clone()),
            Action::Store(file) => Action::Store(file.clone()),
        }
    }
}

/// How an action went.
#[derive(Debug, PartialEq, Eq)]
pub enum Event {
    /// The directory is there, or could not be created for the given reason.
    DirectoryReady(Result<(), String>),
    /// What came back for the request.
    Reply(HttpReply),
    /// The file is written, or could not be for the given reason.
    Stored(Result<(), String>),
}

/// An event as plain mathematical values.
pub enum EventView {
    DirectoryReady(Result<(), Seq<char>>),
    Reply(ReplyView),
    Stored(Result<(), Seq<char>>),
}

impl View for Event {
    type V = EventView;

    open spec fn view(&self) -> EventView {
        match self {
            Event::DirectoryReady(Ok(_)) => EventView::DirectoryReady(Ok(())),
            Event::DirectoryReady(Err(reason)) => EventView::DirectoryReady(Err(reason@)),
            Event::Reply(reply) => EventView::Reply(reply@),
            Event::Stored(Ok(_)) => EventView::Stored(Ok(())),
            Event::Stored(Err(reason)) => EventView::Stored(Err(reason@)),
        }
    }
}

/// A running batch: its identifiers, its session cookie, the identifier it
/// is working on, and the warnings gathered so far.
#[derive(PartialEq, Eq)]
pub struct Download {
    inputs: Vec<AdvInput>,
    cookie: String,
    index: usize,
    warnings: Vec<String>,
}

/// A running batch as plain mathematical values.
pub struct DownloadView {
    pub inputs: Seq<InputView>,
    pub cookie: Seq<char>,
    pub index: nat,
    pub warnings: Seq<Seq<char>>,
}

impl DownloadView {
    /// The identifier in work is one of the batch.
    pub open spec fn wf(self) -> bool {
        self.index < self.inputs.len()
    }

    /// The identifier in work.
    pub open spec fn current(self) -> InputView {
        self.inputs[self.index as int]
    }
}

impl View for Download {
    type V = DownloadView;

    closed spec fn view(&self) -> DownloadView {
        DownloadView {
            inputs: self.inputs.deep_view(),
            cookie: self.cookie@,
            index: self.index as nat,
            warnings: self.warnings.deep_view(),
        }
    }
}

/// Where a batch stands after a step.
#[derive(PartialEq, Eq)]
pub enum Progress {
    /// Running: perform the action, then step the batch with its event.
    Next(Download, Action),
    /// Every identifier is done. Holds the warnings, in the identifiers'
    /// order; none where every input was there.
    Completed(Vec<String>),
    /// The batch gave up. What was written before stays written.
    Aborted(DownloadError),
}

/// Progress as plain mathematical values.
pub enum ProgressView {
    Next(DownloadView, ActionView),
    Completed(Seq<Seq<char>>),
    Aborted(DownloadErrorView),
}

impl View for Progress {
    type V = ProgressView;

    open spec fn view(&self) -> ProgressView {
        match self {
            Progress::Next(batch, action) => ProgressView::Next(batch@, action@),
            Progress::Completed(warnings) => ProgressView::Completed(warnings.deep_view()),
            Progress::Aborted(error) => ProgressView::Aborted(error@),
        }
    }
}

/// The file for an identifier's input.
pub open spec fn file_spec(input: InputView, body: Seq<char>) -> FileView {
    FileView { dir: directory_spec(path_spec(input)), path: path_spec(input), body }
}

/// The step that asks for the current identifier's input.
pub open spec fn fetch_current(batch: DownloadView) -> ProgressView {
    ProgressView::Next(batch, ActionView::Fetch(request_spec(batch.current(), batch.cookie)))
}

/// Where a batch stands once its current identifier is done: at the request
/// for the next one, or completed after the last.
pub open spec fn proceed_spec(batch: DownloadView) -> ProgressView {
    if batch.index + 1 < batch.inputs.len() {
        fetch_current(DownloadView { index: batch.index + 1, ..batch })
    } else {
        ProgressView::Completed(batch.warnings)
    }
}

/// Where a batch starts. Without a token, or with an empty one, it is
/// aborted at once, and so it is without identifiers, or where the first
/// identifier's path has no directory. Else it runs, and first asks for
/// that directory.
pub open spec fn start_spec(inputs: Seq<InputView>, credential: Option<Seq<char>>) -> ProgressView {
    if credential is None || credential->0.len() == 0 {
        ProgressView::Aborted(DownloadErrorView::NoCredential)
    } else if inputs.len() == 0 {
        ProgressView::Aborted(DownloadErrorView::NoInputs)
    } else {
        match directory_spec(path_spec(inputs[0])) {
            None => ProgressView::Aborted(DownloadErrorView::NoDirectory),
            Some(dir) => ProgressView::Next(
                DownloadView {
                    inputs,
                    cookie: cookie_spec(credential->0),
                    index: 0,
                    warnings: Seq::empty(),
                },
                ActionView::EnsureDirectory(dir),
            ),
        }
    }
}

/// Where a running batch stands after an event.
///
/// - The directory is there: ask for the current identifier's input. It
///   could not be created: aborted.
/// - A reply that counts as a body: write the current identifier's file.
///   One that counts as a soft failure: keep the warning and go on to the
///   next identifier. One that counts as a hard failure: aborted.
/// - The file is written: go on to the next identifier. It could not be
///   written: aborted.
pub open spec fn step_spec(batch: DownloadView, event: EventView) -> ProgressView {
    match event {
        EventView::DirectoryReady(Ok(_)) => fetch_current(batch),
        EventView::DirectoryReady(Err(reason)) => ProgressView::Aborted(
            DownloadErrorView::Filesystem(reason),
        ),
        EventView::Reply(reply) => match classify_spec(batch.current(), reply) {
            OutcomeView::Success(body) => ProgressView::Next(
                batch,
                ActionView::Store(file_spec(batch.current(), body)),
            ),
            OutcomeView::SoftFailure(warning) => proceed_spec(
                DownloadView { warnings: batch.warnings.push(warning), ..batch },
            ),
            OutcomeView::HardFailure(error) => ProgressView::Aborted(
                DownloadErrorView::Fetch(error),
            ),
        },
        EventView::Stored(Ok(_)) => proceed_spec(batch),
        EventView::Stored(Err(reason)) => ProgressView::Aborted(
            DownloadErrorView::Filesystem(reason),
        ),
    }
}

/// The file for `input`, holding `body`.
pub fn output_file(input: &AdvInput, body: String) -> (file: OutputFile)
    ensures
        file@ == file_spec(input@, body@),
{
    OutputFile { dir: input.directory(), path: input.path(), body }
}

impl Download {
    #[verifier::type_invariant]
    spec fn in_range(self) -> bool {
        self.index < self.inputs.len()
    }

    /// Starts a batch over `inputs` with the session token `credential`.
    /// Nothing has been asked of the network or the disk when this returns.
    pub fn start(inputs: Vec<AdvInput>, credential: Option<&str>) -> (progress: Progress)
        ensures
            progress@ == start_spec(inputs.deep_view(), credential.deep_view()),
            progress@ matches ProgressView::Next(batch, _) ==> batch.wf(),
    {
        let token = match credential {
            Some(token) => token,
            None => {
                return Progress::Aborted(DownloadError::NoCredential);
            },
        };
        if token.is_empty() {
            return Progress::Aborted(DownloadError::NoCredential);
        }
        if inputs.len() == 0 {
            return Progress::Aborted(DownloadError::NoInputs);
        }
        match inputs[0].directory() {
            None => Progress::Aborted(DownloadError::NoDirectory),
            Some(dir) => {
                let batch = Download {
                    inputs,
                    cookie: cookie_header(token),
                    index: 0,
                    warnings: Vec::new(),
                };
                assert(batch.warnings.deep_view() =~= Seq::empty());
                Progress::Next(batch, Action::EnsureDirectory(dir))
            },
        }
    }

    /// The position, among the batch's identifiers, of the one in work.
    pub fn position(&self) -> (index: usize)
        ensures
            index == self@.index,
            self@.wf(),
    {
        proof {
            use_type_invariant(self);
        }
        self.index
    }

    /// The identifier in work.
    pub fn current(&self) -> (input: &AdvInput)
        ensures
            input@ == self@.current(),
            self@.wf(),
    {
        proof {
            use_type_invariant(self);
        }
        &self.inputs[self.index]
    }

    /// Asks for the current identifier's input.
    fn fetch(self) -> (progress: Progress)
        ensures
            progress@ == fetch_current(self@),
    {
        proof {
            use_type_invariant(&self);
        }
        let request = request_for(&self.inputs[self.index], &self.cookie);
        Progress::Next(self, Action::Fetch(request))
    }

    /// Goes on to the next identifier, or completes after the last.
    fn proceed(self) -> (progress: Progress)
        ensures
            progress@ == proceed_spec(self@),
    {
        proof {
            use_type_invariant(&self);
        }
        if self.index + 1 < self.inputs.len() {
            let next = Download {
                inputs: self.inputs,
                cookie: self.cookie,
                index: self.index + 1,
                warnings: self.warnings,
            };
            next.fetch()
        } else {
            Progress::Completed(self.warnings)
        }
    }

    /// Takes the event for the action that the batch last handed out, and
    /// says where the batch stands now.
    pub fn step(self, event: Event) -> (progress: Progress)
        ensures
            progress@ == step_spec(self@, event@),
            progress@ matches ProgressView::Next(batch, _) ==> batch.wf(),
    {
        proof {
            use_type_invariant(&self);
        }
        match event {
            Event::DirectoryReady(Ok(_)) => self.fetch(),
            Event::DirectoryReady(Err(reason)) => Progress::Aborted(
                DownloadError::Filesystem(reason),
            ),
            Event::Reply(reply) => match classify(&self.inputs[self.index], reply) {
                FetchOutcome::Success(body) => {
                    let file = output_file(&self.inputs[self.index], body);
                    Progress::Next(self, Action::Store(file))
                },
                FetchOutcome::SoftFailure(warning) => {
                    let mut warnings = self.warnings;
                    warnings.push(warning);
                    assert(warnings.deep_view() =~= self.warnings.deep_view().push(warning@));
                    let batch = Download {
                        inputs: self.inputs,
                        cookie: self.cookie,
                        index: self.index,
                        warnings,
                    };
                    batch.proceed()
                },
                FetchOutcome::HardFailure(error) => Progress::Aborted(DownloadError::Fetch(error)),
            },
            Event::Stored(Ok(_)) => self.proceed(),
            Event::Stored(Err(reason)) => Progress::Aborted(DownloadError::Filesystem(reason)),
        }
    }
}

} // verus!
