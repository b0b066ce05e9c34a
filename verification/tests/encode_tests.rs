use blue_book::config::{AudioFormat, Config};
use blue_book::encode::{concat_list, ffmpeg_args, needs_concat, EncodeError, FfmpegInput};
use blue_book::metadata::MetaData;

#[test]
fn input_choice() {
    assert_eq!(needs_concat(0), Err(EncodeError::NoInputFiles));
    assert_eq!(needs_concat(1), Ok(false));
    assert_eq!(needs_concat(2), Ok(true));
    assert_eq!(EncodeError::NoInputFiles.message(), "No input files provided");
}

#[test]
fn concat_list_lines() {
    let lines = concat_list(&vec!["/a/x.wav".to_string(), "/a/y.wav".to_string()]);
    assert_eq!(lines, vec!["file '/a/x.wav'", "file '/a/y.wav'"]);
}

#[test]
fn flac_command() {
    let config = Config::default();
    let meta = MetaData::new_map()
        .with_value("title", "Bohemian Rhapsody".into())
        .with_value("tracknumber", "11".into())
        .with_value("album", "A Night at the Opera".into());
    let args = ffmpeg_args(&FfmpegInput::Single("in.wav".into()), false, &config, &meta, "out.flac");
    assert_eq!(
        args,
        vec![
            "-hide_banner",
            "-loglevel",
            "error",
            "-stats",
            "-i",
            "in.wav",
            "-compression_level",
            "8",
            "-metadata",
            "album=A Night at the Opera",
            "-metadata",
            "title=Bohemian Rhapsody",
            "-metadata",
            "track=11",
            "out.flac",
            "-y",
        ]
    );
}

#[test]
fn alac_concat_command() {
    let mut config = Config::default();
    config.encode.format = AudioFormat::Alac;
    let meta = MetaData::new_map().with_value("disctotal", "2".into());
    let args = ffmpeg_args(&FfmpegInput::Concat("list.txt".into()), true, &config, &meta, "o.m4a");
    assert_eq!(
        args,
        vec!["-hide_banner", "-loglevel", "info", "-f", "concat", "-safe", "0", "-i", "list.txt", "-metadata", "disctotal=2", "o.m4a", "-y"]
    );
}
