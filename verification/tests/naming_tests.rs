use blue_book::config::AudioFormat;
use blue_book::metadata::MetaData;
use blue_book::naming::{album_path, sanitize, track_path};

#[test]
fn sanitize_names() {
    assert_eq!(sanitize("AC/DC"), "AC-DC");
    assert_eq!(sanitize("What? <Now>: \"Yes\" | *"), "What Now Yes");
    assert_eq!(sanitize("  back\\slash  "), "back-slash");
    assert_eq!(sanitize(""), "");
    let once = sanitize(" a/b?c ");
    assert_eq!(sanitize(&once), once);
}

#[test]
fn album_directory() {
    let meta = MetaData::new_map()
        .with_value("albumtitle", "A Night at the Opera".into())
        .with_value("artist", "Queen".into());
    assert_eq!(album_path(&meta, "{artist}/{album}"), "Queen/A Night at the Opera");
    assert_eq!(album_path(&meta, "{artist} ({date})"), "Queen ()");
    let slashed = MetaData::new_map().with_value("artist", "AC/DC".into());
    assert_eq!(album_path(&slashed, "{artist}/{album}"), "AC-DC/");
}

#[test]
fn track_file_name() {
    let meta = MetaData::new_map()
        .with_value("title", "Bohemian Rhapsody".into())
        .with_value("tracknumber", "11".into())
        .with_value("discnumber", "1".into())
        .with_value("artist", "Queen".into());
    assert_eq!(
        track_path(&meta, &AudioFormat::Flac, "{discnumber}-{tracknumber} {artist} - {title}.{suffix}"),
        "1-11 Queen - Bohemian Rhapsody.flac"
    );
    assert_eq!(
        track_path(&meta, &AudioFormat::Alac, "{tracknumber:02} - {title}.{suffix}"),
        "{tracknumber:02} - Bohemian Rhapsody.m4a"
    );
    let song = MetaData::new_map().with_value("title", "Song".into());
    assert_eq!(track_path(&song, &AudioFormat::Alac, "{title}.{suffix}"), "Song.m4a");
    let odd = MetaData::new_map().with_value("m4a", "x".into()).with_value("title", "Song".into());
    assert_eq!(track_path(&odd, &AudioFormat::Alac, "{title}.{suffix}"), "Song.m4a");
}
