use blue_book::metadata::{build_metadata, MetaData, MetaError, MetaMap};
use blue_book::release::{CreditInfo, MediumInfo, RecordingInfo, ReleaseGroupInfo, ReleaseInfo, TrackInfo};

fn value(m: &MetaData, key: &str) -> Option<String> {
    m.get_value(key).cloned()
}

#[test]
fn values_read_back() {
    let m = MetaData::new_map().with_value("title", "Bohemian Rhapsody".into()).with_value("tracknumber", "11".into());
    assert_eq!(value(&m, "title").as_deref(), Some("Bohemian Rhapsody"));
    assert_eq!(value(&m, "tracknumber").as_deref(), Some("11"));
    assert_eq!(value(&m, "artist"), None);
    let m = m.with_value("title", "Love of My Life".into());
    assert_eq!(value(&m, "title").as_deref(), Some("Love of My Life"));
    assert_eq!(value(&m, "tracknumber").as_deref(), Some("11"));
    assert!(m.get_map("title").is_none());
}

#[test]
fn maps_read_back() {
    let mut tracks = MetaMap::new();
    tracks.insert("1".into(), MetaData::new_map().with_value("title", "Death on Two Legs".into()));
    let m = MetaData::new_map().with_value("artist", "Queen".into()).with_map("tracks", tracks);
    let t = m.get_map("tracks").expect("tracks");
    let one = t.get_map("1").expect("track one");
    assert_eq!(value(one, "title").as_deref(), Some("Death on Two Legs"));
    assert!(m.get_value("tracks").is_none());
    assert!(t.get_map("2").is_none());
}

#[test]
fn text_values_take_no_entries() {
    let v = MetaData::Value("x".into()).with_value("title", "y".into());
    assert!(matches!(v, MetaData::Value(ref s) if s == "x"));
    assert!(v.get_value("title").is_none());
    assert!(v.get_map("title").is_none());
    assert!(MetaData::hidden_track(&v).is_none());
}

#[test]
fn hidden_track_is_numbered_one_lower() {
    let t = MetaData::new_map()
        .with_value("title", "Death on Two Legs".into())
        .with_value("tracknumber", "1".into())
        .with_value("album", "A Night at the Opera".into());
    let h = MetaData::hidden_track(&t).expect("hidden track");
    assert_eq!(value(&h, "title").as_deref(), Some("[hidden]"));
    assert_eq!(value(&h, "tracknumber").as_deref(), Some("0"));
    assert_eq!(value(&h, "album").as_deref(), Some("A Night at the Opera"));
    assert_eq!(value(&t, "title").as_deref(), Some("Death on Two Legs"));
    let neg = MetaData::new_map().with_value("tracknumber", "-3".into());
    assert_eq!(value(&MetaData::hidden_track(&neg).unwrap(), "tracknumber").as_deref(), Some("-4"));
    let bad = MetaData::new_map().with_value("tracknumber", "A1".into());
    assert!(MetaData::hidden_track(&bad).is_none());
    let missing = MetaData::new_map().with_value("title", "x".into());
    assert!(MetaData::hidden_track(&missing).is_none());
}

fn credit(name: &str) -> Option<Vec<CreditInfo>> {
    Some(vec![CreditInfo { name: name.into(), joinphrase: None, artist: 1 }])
}

fn release() -> ReleaseInfo {
    let track = |n: &str, title: &str| TrackInfo {
        recording: Some(RecordingInfo { title: title.into(), length: None }),
        title: title.into(),
        number: n.into(),
        length: None,
        artist_credit: credit("Queen"),
    };
    ReleaseInfo {
        id: "r".into(),
        title: "A Night at the Opera".into(),
        status: None,
        date: None,
        country: None,
        barcode: None,
        packaging: None,
        release_group: Some(ReleaseGroupInfo { id: "g".into(), first_release_date: Some("1975-11-21".into()) }),
        artist_credit: credit("Queen"),
        media: Some(vec![
            MediumInfo {
                discs: Some(vec!["disc".into()]),
                position: Some(1),
                format: None,
                tracks: Some(vec![track("1", "Death on Two Legs"), track("2", "Lazing on a Sunday Afternoon")]),
            },
            MediumInfo { discs: Some(vec!["other".into()]), position: Some(2), format: None, tracks: Some(vec![track("9", "x")]) },
        ]),
        label_info: None,
    }
}

#[test]
fn metadata_of_release() {
    let m = build_metadata(&release(), "disc", Some("Rock".into())).expect("metadata");
    assert_eq!(value(&m, "albumtitle").as_deref(), Some("A Night at the Opera"));
    assert_eq!(value(&m, "artist").as_deref(), Some("Queen"));
    let tracks = m.get_map("tracks").unwrap();
    assert!(tracks.get_map("9").is_none());
    let two = tracks.get_map("2").unwrap();
    for (k, v) in [
        ("title", "Lazing on a Sunday Afternoon"),
        ("album", "A Night at the Opera"),
        ("artist", "Queen"),
        ("date", "1975"),
        ("genre", "Rock"),
        ("tracknumber", "2"),
        ("albumartist", "Queen"),
        ("tracktotal", "2"),
        ("discnumber", "1"),
        ("disctotal", "2"),
    ] {
        assert_eq!(value(two, k).as_deref(), Some(v), "{k}");
    }
}

#[test]
fn metadata_errors() {
    assert_eq!(build_metadata(&release(), "disc", None).err(), Some(MetaError::NoGenre));
    let mut r = release();
    r.artist_credit = None;
    assert_eq!(build_metadata(&r, "disc", None).err(), Some(MetaError::NoArtistCredit));
    let mut r = release();
    r.release_group = None;
    assert_eq!(build_metadata(&r, "disc", Some("Rock".into())).err(), Some(MetaError::NoOriginalDate));
    let mut r = release();
    r.media.as_mut().unwrap()[0].tracks.as_mut().unwrap()[1].artist_credit = None;
    assert_eq!(build_metadata(&r, "disc", Some("Rock".into())).err(), Some(MetaError::NoArtistCredit));
    assert!(build_metadata(&r, "other", Some("Rock".into())).is_ok());
    assert_eq!(MetaError::NoGenre.message(), "no genre");
    assert_eq!(MetaError::NoArtistCredit.message(), "no artist credit");
    assert_eq!(MetaError::NoOriginalDate.message(), "no original date");
}

#[test]
fn map_copy_is_equal() {
    let mut m = MetaMap::new();
    m.insert("a".into(), MetaData::Value("1".into()));
    m.insert("b".into(), MetaData::new_map().with_value("c", "2".into()));
    m.insert("a".into(), MetaData::Value("3".into()));
    let c = m.copy();
    assert!(matches!(c.get("a"), Some(MetaData::Value(s)) if s == "3"));
    assert_eq!(c.get("b").and_then(|b| b.get_value("c")).map(|s| s.as_str()), Some("2"));
    assert!(c.get("z").is_none());
}
