use blue_book::session::{next_step, Action, Event, Outcome, Stage};

fn run(events: &[Event], skip: bool) -> Vec<Action> {
    let mut stage = Stage::Start;
    let mut actions = Vec::new();
    for e in events {
        let (s, a) = next_step(stage, *e, skip);
        stage = s;
        actions.push(a);
    }
    actions
}

#[test]
fn full_session() {
    let actions = run(
        &[
            Event::Begin,
            Event::DiscScanned,
            Event::ReleasesFetched(3),
            Event::ReleasesFiltered(2),
            Event::ReleaseShown,
            Event::RipDone(true),
            Event::AlbumPrepared(true),
            Event::AlbumEncoded,
        ],
        false,
    );
    assert_eq!(
        actions,
        vec![
            Action::ScanDisc,
            Action::FetchReleases,
            Action::FilterReleases,
            Action::ShowRelease(Some(2)),
            Action::StartRip,
            Action::PrepareAlbum,
            Action::EncodeAlbum,
            Action::Finish(Outcome::Success),
        ]
    );
}

#[test]
fn skipped_rip_goes_to_metadata() {
    let actions = run(
        &[Event::Begin, Event::DiscScanned, Event::ReleasesFetched(1), Event::ReleasesFiltered(1), Event::ReleaseShown],
        true,
    );
    assert_eq!(actions[3], Action::ShowRelease(None));
    assert_eq!(actions[4], Action::PrepareAlbum);
}

#[test]
fn early_ends() {
    assert_eq!(next_step(Stage::Fetching, Event::ReleasesFetched(0), false), (Stage::Finished, Action::Finish(Outcome::NoReleasesFound)));
    assert_eq!(next_step(Stage::Filtering, Event::ReleasesFiltered(0), false), (Stage::Finished, Action::Finish(Outcome::NoMatch)));
    assert_eq!(next_step(Stage::Ripping, Event::RipDone(false), false), (Stage::Finished, Action::Finish(Outcome::RipFailed)));
    assert_eq!(next_step(Stage::Preparing, Event::AlbumPrepared(false), false), (Stage::Finished, Action::Finish(Outcome::NoCueSheet)));
    assert_eq!(next_step(Stage::Finished, Event::Begin, false), (Stage::Finished, Action::Ignore));
    assert_eq!(next_step(Stage::Scanning, Event::AlbumEncoded, true), (Stage::Scanning, Action::Ignore));
}
