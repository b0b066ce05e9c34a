//! The course of one archiving session: what to do next after each outside step.
use vstd::prelude::*;

verus! {

/// Where a session stands.
#[derive(Debug, Clone, Copy, PartialEq, Eq, Structural)]
pub enum Stage {
    Start,
    Scanning,
    Fetching,
    Filtering,
    Showing,
    Ripping,
    Preparing,
    Encoding,
    Finished,
}

/// What the last outside step reported.
#[derive(Debug, Clone, Copy, PartialEq, Eq, Structural)]
pub enum Event {
    /// The session begins.
    Begin,
    /// The disc was scanned.
    DiscScanned,
    /// This many releases were found for the disc.
    ReleasesFetched(usize),
    /// This many releases passed the filters.
    ReleasesFiltered(usize),
    /// The chosen release and its tracklist were shown.
    ReleaseShown,
    /// The ripper finished, successfully or not.
    RipDone(bool),
    /// The metadata and album directory are ready; whether the cue sheet exists.
    AlbumPrepared(bool),
    /// All tracks were encoded.
    AlbumEncoded,
}

/// What a session reports when it ends.
#[derive(Debug, Clone, Copy, PartialEq, Eq, Structural)]
pub enum Outcome {
    /// No release is known for the disc (an error).
    NoReleasesFound,
    /// No release passed the filters.
    NoMatch,
    /// The ripper failed.
    RipFailed,
    /// The ripper wrote no cue sheet.
    NoCueSheet,
    /// The album was written.
    Success,
}

impl Outcome {
    /// Whether the session ends in an error.
    pub open spec fn is_failure(self) -> bool {
        self == Outcome::NoReleasesFound
    }
}

/// The next outside step.
#[derive(Debug, Clone, Copy, PartialEq, Eq, Structural)]
pub enum Action {
    /// Scan the disc for its table of contents.
    ScanDisc,
    /// Look up the releases of the disc.
    FetchReleases,
    /// Filter the releases.
    FilterReleases,
    /// Show the chosen release and its tracklist, warning first when this
    /// many releases matched.
    ShowRelease(Option<usize>),
    /// Run the ripper.
    StartRip,
    /// Build the metadata and create the album directory.
    PrepareAlbum,
    /// Encode the tracks of the cue sheet.
    EncodeAlbum,
    /// End the session.
    Finish(Outcome),
    /// The event does not belong to the stage: nothing to do.
    Ignore,
}

/// The next stage and step of a session after `event`; `skip_rip` says
/// whether ripping is skipped.
pub open spec fn transition(stage: Stage, event: Event, skip_rip: bool) -> (Stage, Action) {
    match (stage, event) {
        (Stage::Start, Event::Begin) => (Stage::Scanning, Action::ScanDisc),
        (Stage::Scanning, Event::DiscScanned) => (Stage::Fetching, Action::FetchReleases),
        (Stage::Fetching, Event::ReleasesFetched(n)) => if n == 0 {
            (Stage::Finished, Action::Finish(Outcome::NoReleasesFound))
        } else {
            (Stage::Filtering, Action::FilterReleases)
        },
        (Stage::Filtering, Event::ReleasesFiltered(m)) => if m == 0 {
            (Stage::Finished, Action::Finish(Outcome::NoMatch))
        } else {
            (Stage::Showing, Action::ShowRelease(if m > 1 { Some(m) } else { None }))
        },
        (Stage::Showing, Event::ReleaseShown) => if skip_rip {
            (Stage::Preparing, Action::PrepareAlbum)
        } else {
            (Stage::Ripping, Action::StartRip)
        },
        (Stage::Ripping, Event::RipDone(ok)) => if ok {
            (Stage::Preparing, Action::PrepareAlbum)
        } else {
            (Stage::Finished, Action::Finish(Outcome::RipFailed))
        },
        (Stage::Preparing, Event::AlbumPrepared(cue)) => if cue {
            (Stage::Encoding, Action::EncodeAlbum)
        } else {
            (Stage::Finished, Action::Finish(Outcome::NoCueSheet))
        },
        (Stage::Encoding, Event::AlbumEncoded) => (Stage::Finished, Action::Finish(Outcome::Success)),
        _ => (stage, Action::Ignore),
    }
}

/// Decides the next stage and step of a session.
pub fn next_step(stage: Stage, event: Event, skip_rip: bool) -> (r: (Stage, Action))
    ensures
        r == transition(stage, event, skip_rip),
{
    match (stage, event) {
        (Stage::Start, Event::Begin) => (Stage::Scanning, Action::ScanDisc),
        (Stage::Scanning, Event::DiscScanned) => (Stage::Fetching, Action::FetchReleases),
        (Stage::Fetching, Event::ReleasesFetched(n)) => if n == 0 {
            (Stage::Finished, Action::Finish(Outcome::NoReleasesFound))
        } else {
            (Stage::Filtering, Action::FilterReleases)
        },
        (Stage::Filtering, Event::ReleasesFiltered(m)) => if m == 0 {
            (Stage::Finished, Action::Finish(Outcome::NoMatch))
        } else {
            (Stage::Showing, Action::ShowRelease(if m > 1 { Some(m) } else { None }))
        },
        (Stage::Showing, Event::ReleaseShown) => if skip_rip {
            (Stage::Preparing, Action::PrepareAlbum)
        } else {
            (Stage::Ripping, Action::StartRip)
        },
        (Stage::Ripping, Event::RipDone(ok)) => if ok {
            (Stage::Preparing, Action::PrepareAlbum)
        } else {
            (Stage::Finished, Action::Finish(Outcome::RipFailed))
        },
        (Stage::Preparing, Event::AlbumPrepared(cue)) => if cue {
            (Stage::Encoding, Action::EncodeAlbum)
        } else {
            (Stage::Finished, Action::Finish(Outcome::NoCueSheet))
        },
        (Stage::Encoding, Event::AlbumEncoded) => (Stage::Finished, Action::Finish(Outcome::Success)),
        _ => (stage, Action::Ignore),
    }
}

} // verus!

verus! {

/// With ripping skipped, a session never starts the ripper.
pub proof fn law_skip_never_rips(stage: Stage, event: Event)
    ensures
        transition(stage, event, true).1 != Action::StartRip,
{
}

/// A session ends exactly when it reports an outcome, and once finished it
/// ignores every event.
pub proof fn law_finish_is_final(stage: Stage, event: Event, skip_rip: bool)
    ensures
        (transition(stage, event, skip_rip).1 is Finish) ==> transition(stage, event, skip_rip).0 == Stage::Finished,
        transition(Stage::Finished, event, skip_rip) == (Stage::Finished, Action::Ignore),
{
}

/// Encoding follows only a prepared album whose cue sheet exists, and ripping
/// follows only the display of a chosen release.
pub proof fn law_step_order(stage: Stage, event: Event, skip_rip: bool)
    ensures
        transition(stage, event, skip_rip).1 == Action::EncodeAlbum ==> stage == Stage::Preparing
            && event == Event::AlbumPrepared(true),
        transition(stage, event, skip_rip).1 == Action::StartRip ==> stage == Stage::Showing && !skip_rip,
{
}

} // verus!
