use blue_book::config::Config;
use blue_book::release::{
    artist_credit_phrase, bold_substring, find_best_release, has_disc_id, original_date,
    pick_genre, release_table_lines, same_credits, track_lines, CreditInfo, LabelEntry,
    MediumInfo, RecordingInfo, ReleaseGroupInfo, ReleaseInfo, TagInfo, TrackInfo,
    TrackListError,
};

fn credit(name: &str, join: Option<&str>, artist: u64) -> CreditInfo {
    CreditInfo { name: name.into(), joinphrase: join.map(|s| s.into()), artist }
}

fn track(number: &str, title: &str, length: Option<u32>, credits: Option<Vec<CreditInfo>>) -> TrackInfo {
    TrackInfo {
        recording: Some(RecordingInfo { title: title.into(), length: Some(1000) }),
        title: title.into(),
        number: number.into(),
        length,
        artist_credit: credits,
    }
}

fn release(id: &str, barcode: Option<&str>, country: Option<&str>, date: Option<&str>) -> ReleaseInfo {
    ReleaseInfo {
        id: id.into(),
        title: "A Night at the Opera".into(),
        status: Some("Official".into()),
        date: date.map(|s| s.into()),
        country: country.map(|s| s.into()),
        barcode: barcode.map(|s| s.into()),
        packaging: Some("Jewel Case".into()),
        release_group: Some(ReleaseGroupInfo {
            id: "rg".into(),
            first_release_date: Some("1975-11-21".into()),
        }),
        artist_credit: Some(vec![credit("Queen", None, 1)]),
        media: Some(vec![MediumInfo {
            discs: Some(vec!["4t8cmsDJx5c4Whz348aldu1EshA-".into()]),
            position: Some(1),
            format: Some("CD".into()),
            tracks: Some(vec![
                track("1", "Death on Two Legs", Some(224_000), Some(vec![credit("Queen", None, 1)])),
                track("2", "Lazing on a Sunday Afternoon", Some(67_000), Some(vec![
                    credit("Queen", Some(" feat. "), 1),
                    credit("Guest", None, 2),
                ])),
            ]),
        }]),
        label_info: Some(vec![LabelEntry {
            label_name: Some("EMI".into()),
            catalog_number: Some("CDP 7 46207 2".into()),
        }]),
    }
}

fn ids(rs: &[ReleaseInfo]) -> Vec<String> {
    rs.iter().map(|r| r.id.clone()).collect()
}

#[test]
fn credit_phrase_joins_names() {
    let c = Some(vec![credit("Simon", Some(" & "), 1), credit("Garfunkel", None, 2)]);
    assert_eq!(artist_credit_phrase(&c), Some("Simon & Garfunkel".to_string()));
    assert_eq!(artist_credit_phrase(&None), None);
    assert_eq!(artist_credit_phrase(&Some(vec![])), Some(String::new()));
}

#[test]
fn credits_compare_by_value() {
    let a = Some(vec![credit("Queen", None, 1)]);
    let b = Some(vec![credit("Queen", None, 1)]);
    let c = Some(vec![credit("Queen", None, 2)]);
    assert!(same_credits(&a, &b));
    assert!(!same_credits(&a, &c));
    assert!(!same_credits(&a, &None));
    assert!(same_credits(&None, &None));
}

#[test]
fn disc_membership() {
    let r = release("r", None, None, None);
    let m = &r.media.as_ref().unwrap()[0];
    assert!(has_disc_id(m, "4t8cmsDJx5c4Whz348aldu1EshA-"));
    assert!(!has_disc_id(m, "other"));
    let none = MediumInfo { discs: None, position: None, format: None, tracks: None };
    assert!(!has_disc_id(&none, "4t8cmsDJx5c4Whz348aldu1EshA-"));
}

#[test]
fn original_year_is_first_four_bytes() {
    let mut r = release("r", None, None, None);
    assert_eq!(original_date(&r), Some("1975".to_string()));
    r.release_group.as_mut().unwrap().first_release_date = Some("197".into());
    assert_eq!(original_date(&r), None);
    r.release_group.as_mut().unwrap().first_release_date = Some("é199".into());
    assert_eq!(original_date(&r), Some("é19".to_string()));
    r.release_group.as_mut().unwrap().first_release_date = Some("19€5".into());
    assert_eq!(original_date(&r), None);
    r.release_group = None;
    assert_eq!(original_date(&r), None);
}

#[test]
fn bold_only_when_verbose() {
    assert_eq!(bold_substring("077774620727", Some("7746"), true), "077\x1b[1m7746\x1b[0m20727");
    assert_eq!(bold_substring("a-a-a", Some("a"), true), "a-a-a".replace("a", "\x1b[1ma\x1b[0m"));
    assert_eq!(bold_substring("077774620727", Some("7746"), false), "077774620727");
    assert_eq!(bold_substring("abc", Some(""), true), "abc");
    assert_eq!(bold_substring("abc", None, true), "abc");
    assert_eq!(bold_substring("abc", Some("x"), true), "abc");
}

#[test]
fn filters_select_releases() {
    let all = || {
        vec![
            release("a", Some("077774620727"), Some("GB"), Some("1987")),
            release("b", Some("0777746207270"), Some("US"), Some("1975-11-21")),
            release("c", None, Some("GB"), None),
            release("d", Some(""), None, Some("1987-01-01")),
        ]
    };
    let mut config = Config::default();
    assert_eq!(ids(&find_best_release(all(), &config)), ["a", "b", "c", "d"]);
    config.filter.barcode = Some("0-77774-62072-7".into());
    assert_eq!(ids(&find_best_release(all(), &config)), ["a", "b"]);
    config.filter.country = Some("GB".into());
    assert_eq!(ids(&find_best_release(all(), &config)), ["a"]);
    config.filter.barcode = Some("".into());
    config.filter.country = None;
    assert_eq!(ids(&find_best_release(all(), &config)), ["c", "d"]);
    config.filter.barcode = None;
    config.filter.date = Some("1987".into());
    assert_eq!(ids(&find_best_release(all(), &config)), ["a", "d"]);
    assert!(find_best_release(Vec::new(), &config).is_empty());
    let once = find_best_release(all(), &config);
    assert_eq!(ids(&find_best_release(once, &config)), ["a", "d"]);
}

#[test]
fn genre_is_most_voted_tag() {
    let tags = vec![
        TagInfo { name: "progressive rock".into(), count: Some(3) },
        TagInfo { name: "hard rock".into(), count: Some(7) },
        TagInfo { name: "glam".into(), count: Some(7) },
        TagInfo { name: "none".into(), count: None },
    ];
    assert_eq!(pick_genre(Some(tags)), Some("Hard Rock".to_string()));
    assert_eq!(pick_genre(Some(vec![TagInfo { name: "rock".into(), count: None }])), Some("Rock".to_string()));
    assert_eq!(pick_genre(Some(vec![])), None);
    assert_eq!(pick_genre(None), None);
}

#[test]
fn release_table() {
    let rs = vec![release("x", None, None, None), release("38723ee2", Some("077774620727"), Some("GB"), Some("1987"))];
    let lines = release_table_lines(&rs, Some("Rock".into()));
    let expected = vec![
        format!("{:<20} | {}", "Field", "Value"),
        "-".repeat(60),
        format!("{:<20} | {}", "Release ID", "38723ee2"),
        format!("{:<20} | {}", "Artist", "Queen"),
        format!("{:<20} | {}", "Album", "A Night at the Opera"),
        format!("{:<20} | {}", "Date", "1975"),
        format!("{:<20} | {}", "Genre", "Rock"),
        format!("{:<20} | {}", "Status", "Official"),
        format!("{:<20} | {}", "Format", "CD (Jewel Case)"),
        format!("{:<20} | {}", "Label", "EMI"),
        format!("{:<20} | {}", "Catalog#", "CDP 7 46207 2"),
        format!("{:<20} | {}", "Barcode", "077774620727"),
        format!("{:<20} | {}", "Country", "GB"),
        format!("{:<20} | {}", "Released", "1987"),
    ];
    assert_eq!(lines, expected);
    assert!(release_table_lines(&Vec::new(), None).is_empty());
    let mut bare = release("y", None, None, None);
    bare.media = None;
    bare.packaging = None;
    bare.label_info = None;
    let lines = release_table_lines(&vec![bare], None);
    assert_eq!(lines[6], format!("{:<20} | {}", "Genre", "N/A"));
    assert_eq!(lines[8], format!("{:<20} | {}", "Format", "N/A (N/A)"));
    assert_eq!(lines[9], format!("{:<20} | {}", "Label", "N/A"));
}

#[test]
fn tracklist() {
    let rs = vec![release("r", None, None, None)];
    let listing = track_lines(&rs, "4t8cmsDJx5c4Whz348aldu1EshA-");
    assert_eq!(listing.error, None);
    assert_eq!(
        listing.lines,
        vec![
            "".to_string(),
            "Tracklist:".to_string(),
            "-".repeat(60),
            " 1. Death on Two Legs (3:44)".to_string(),
            " 2. Lazing on a Sunday Afternoon - Queen feat. Guest (1:07)".to_string(),
        ]
    );
    let other = track_lines(&rs, "another disc");
    assert_eq!(other.lines.len(), 3);
    assert_eq!(other.error, None);
    let none = track_lines(&Vec::new(), "x");
    assert_eq!(none.error, Some(TrackListError::NoReleases));
    assert!(none.lines.is_empty());
    assert_eq!(TrackListError::NoReleases.message(), "no releases found");
}

#[test]
fn tracklist_stops_at_missing_recording() {
    let mut r = release("r", None, None, None);
    let tracks = r.media.as_mut().unwrap()[0].tracks.as_mut().unwrap();
    tracks[1].recording = None;
    tracks[0].length = None;
    tracks[0].number = "12".into();
    let listing = track_lines(&vec![r], "4t8cmsDJx5c4Whz348aldu1EshA-");
    assert_eq!(listing.error, Some(TrackListError::NoRecording));
    assert_eq!(listing.lines[3], "12. Death on Two Legs (0:01)");
    assert_eq!(listing.lines.len(), 4);
    assert_eq!(TrackListError::NoRecording.message(), "no recording");
}

#[test]
fn one_more_filter_keeps_a_subsequence() {
    let all = || {
        vec![
            release("a", Some("077774620727"), Some("GB"), Some("1987")),
            release("b", Some("0777746207270"), Some("US"), Some("1975-11-21")),
            release("c", None, Some("GB"), None),
            release("d", Some("077774620727"), Some("GB"), Some("1993")),
        ]
    };
    let mut fewer = Config::default();
    fewer.filter.country = Some("GB".into());
    let mut more = Config::default();
    more.filter.country = Some("GB".into());
    more.filter.date = Some("1987".into());
    let kept_fewer = ids(&find_best_release(all(), &fewer));
    let kept_more = ids(&find_best_release(all(), &more));
    assert_eq!(kept_fewer, ["a", "c", "d"]);
    assert_eq!(kept_more, ["a"]);
    let again = ids(&find_best_release(find_best_release(all(), &fewer), &more));
    assert_eq!(again, kept_more);
}
