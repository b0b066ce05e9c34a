use blue_book::config::AudioFormat;
use blue_book::cue::{
    can_plan_cue_track, file_pattern, parse_cue_lines, plan_cue_track, read_cue_line, sort_indices, CueIndex, CueReader, CueTrack,
};
use blue_book::metadata::{MetaData, MetaMap};

const CUE: &str = r#"REM GENRE Rock
FILE "960a1c0c_00.wav" WAVE
  TRACK 01 AUDIO
    INDEX 00 00:00:00
FILE "960a1c0c_01.wav" WAVE
  TRACK 01 AUDIO
    INDEX 01 00:00:00
FILE "960a1c0c_02.wav" WAVE
  TRACK 02 AUDIO
    INDEX 01 00:00:00
  TRACK 03 AUDIO
    INDEX 00 03:00:00
FILE "960a1c0c_03.wav" WAVE
    INDEX 01 00:00:00
"#;

fn parse(text: &str) -> Vec<CueTrack> {
    let p = file_pattern().expect("pattern");
    let lines: Vec<String> = text.lines().map(|l| l.to_string()).collect();
    parse_cue_lines(&p, &lines)
}

fn summary(tracks: &[CueTrack]) -> Vec<(String, Vec<(String, String)>)> {
    let mut v: Vec<(String, Vec<(String, String)>)> = tracks
        .iter()
        .map(|t| (t.number.clone(), t.indices.iter().map(|i| (i.index.clone(), i.file.clone())).collect()))
        .collect();
    v.sort();
    v
}

#[test]
fn cue_sheet_tracks() {
    let tracks = parse(CUE);
    assert_eq!(
        summary(&tracks),
        vec![
            ("01".to_string(), vec![("01".to_string(), "960a1c0c_01.wav".to_string())]),
            ("02".to_string(), vec![("01".to_string(), "960a1c0c_02.wav".to_string())]),
            (
                "03".to_string(),
                vec![
                    ("00".to_string(), "960a1c0c_02.wav".to_string()),
                    ("01".to_string(), "960a1c0c_03.wav".to_string())
                ]
            ),
        ]
    );
}

#[test]
fn cue_lines_without_context_are_ignored() {
    let tracks = parse("INDEX 01 00:00:00\nTRACK\nFILE \"\"\nTRACK 05 AUDIO\nINDEX 01 00:00:00\n");
    assert_eq!(summary(&tracks), vec![("05".to_string(), vec![])]);
    assert!(parse("").is_empty());
}

fn idx(i: &str, f: &str) -> CueIndex {
    CueIndex { index: i.into(), file: f.into() }
}

#[test]
fn indices_sort_stably() {
    let sorted = sort_indices(vec![idx("01", "b"), idx("00", "a"), idx("01", "c"), idx("10", "d"), idx("0", "e")]);
    let files: Vec<&str> = sorted.iter().map(|c| c.file.as_str()).collect();
    assert_eq!(files, ["e", "a", "b", "c", "d"]);
}

fn meta() -> MetaData {
    let mut tracks = MetaMap::new();
    tracks.insert(
        "1".into(),
        MetaData::new_map().with_value("title", "Death on Two Legs".into()).with_value("tracknumber", "1".into()),
    );
    tracks.insert(
        "3".into(),
        MetaData::new_map().with_value("title", "I'm in Love With My Car".into()).with_value("tracknumber", "3".into()),
    );
    MetaData::new_map().with_map("tracks", tracks)
}

#[test]
fn plan_single_track() {
    let m = meta();
    let t = CueTrack { number: "03".into(), indices: vec![idx("01", "c.wav")] };
    assert!(can_plan_cue_track(&t, &m));
    let plan = plan_cue_track(t, &m, &AudioFormat::Flac, "{tracknumber} - {title}");
    assert!(!plan.hidden_failed);
    assert_eq!(plan.jobs.len(), 1);
    assert_eq!(plan.jobs[0].wav_files, vec!["c.wav".to_string()]);
    assert_eq!(plan.jobs[0].file_out, "3 - I'm in Love With My Car");
}

#[test]
fn plan_track_with_hidden_pregap() {
    let m = meta();
    let t = CueTrack { number: "01".into(), indices: vec![idx("01", "one.wav"), idx("00", "pregap.wav")] };
    assert!(can_plan_cue_track(&t, &m));
    let plan = plan_cue_track(t, &m, &AudioFormat::Flac, "{tracknumber} - {title}");
    assert!(!plan.hidden_failed);
    assert_eq!(plan.jobs.len(), 2);
    assert_eq!(plan.jobs[0].wav_files, vec!["one.wav".to_string()]);
    assert_eq!(plan.jobs[0].file_out, "1 - Death on Two Legs");
    assert_eq!(plan.jobs[1].wav_files, vec!["pregap.wav".to_string()]);
    assert_eq!(plan.jobs[1].file_out, "0 - [hidden]");
    assert_eq!(plan.jobs[1].meta.get_value("title").map(|s| s.as_str()), Some("[hidden]"));
}

#[test]
fn plan_needs_track_metadata() {
    let m = meta();
    let t = CueTrack { number: "07".into(), indices: vec![idx("01", "x.wav")] };
    assert!(!can_plan_cue_track(&t, &m));
    assert!(!can_plan_cue_track(&t, &MetaData::new_map()));
}

#[test]
fn plan_reports_missing_hidden_number() {
    let mut tracks = MetaMap::new();
    tracks.insert("1".into(), MetaData::new_map().with_value("title", "x".into()));
    let m = MetaData::new_map().with_map("tracks", tracks);
    let t = CueTrack { number: "01".into(), indices: vec![idx("00", "a.wav"), idx("01", "b.wav")] };
    assert!(can_plan_cue_track(&t, &m));
    let plan = plan_cue_track(t, &m, &AudioFormat::Alac, "{title}");
    assert!(plan.hidden_failed);
    assert_eq!(plan.jobs.len(), 1);
    assert_eq!(plan.jobs[0].wav_files, vec!["b.wav".to_string()]);
}

#[test]
fn cue_lines_read_one_at_a_time() {
    let mut reader = CueReader::new();
    read_cue_line(&mut reader, "REM GENRE Rock", None);
    read_cue_line(&mut reader, "  INDEX 01 00:00:00", None);
    assert!(reader.tracks.is_empty());
    read_cue_line(&mut reader, "FILE \"a.wav\" WAVE", Some("a.wav".into()));
    assert_eq!(reader.file.as_deref(), Some("a.wav"));
    read_cue_line(&mut reader, "  TRACK 01 AUDIO", None);
    assert_eq!(reader.track.as_deref(), Some("01"));
    read_cue_line(&mut reader, "    INDEX 01 00:00:00", None);
    read_cue_line(&mut reader, "FILE \"b.wav\" WAVE", None);
    assert_eq!(reader.file.as_deref(), Some("a.wav"));
    read_cue_line(&mut reader, "FILE \"b.wav\" WAVE", Some("b.wav".into()));
    read_cue_line(&mut reader, "    INDEX 02 00:10:00", None);
    assert_eq!(
        summary(&reader.tracks),
        vec![(
            "01".to_string(),
            vec![("01".to_string(), "a.wav".to_string()), ("02".to_string(), "b.wav".to_string())]
        )]
    );
}
