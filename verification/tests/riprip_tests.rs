use blue_book::riprip::{assemble_disc_info, cue_file_name, parse_riprip_output, riprip_args, ScanError};

const REPORT: &str = "PIONEER DVD-RW DVR-215D
-----------------------

CDTOC:       C+B6+425E+5610+8C4B+BEBB+FC78+143CA+16B84+1FE20+23E26+279C0+2E17B+2F6CC
AccurateRip: 012-0012169f-00ae1095-960a1c0c
CDDB:        960a1c0c
CUETools:    ceboFUES5TLH6UEl_g0885cbYo0-
MusicBrainz: 4t8cmsDJx5c4Whz348aldu1EshA-

NO   FIRST    LAST  LENGTH          
----------------------------------------
00       0      31      32          HTOA
01      32   16839   16808              
02   16840   21881    5042              
03   21882   35764   13883              
12  188645  194101    5457              
AA  194102                      LEAD-OUT
----------------------------------------
";

#[test]
fn reads_ripper_report() {
    let info = parse_riprip_output(REPORT).expect("disc info");
    assert_eq!(info.cdtoc, "C+B6+425E+5610+8C4B+BEBB+FC78+143CA+16B84+1FE20+23E26+279C0+2E17B+2F6CC");
    assert_eq!(info.cddb, "960a1c0c");
    assert_eq!(info.discid, "4t8cmsDJx5c4Whz348aldu1EshA-");
    assert_eq!(info.track_lengths, vec![32, 16808, 5042, 13883, 5457]);
}

#[test]
fn report_errors() {
    assert!(matches!(parse_riprip_output("nothing here"), Err(ScanError::MissingCdtoc)));
    let no_cddb = REPORT.replace("CDDB:", "CDBD:");
    assert!(matches!(parse_riprip_output(&no_cddb), Err(ScanError::MissingCddb)));
    let no_id = REPORT.replace("MusicBrainz:", "Brainz:");
    assert!(matches!(parse_riprip_output(&no_id), Err(ScanError::MissingDiscId)));
    let no_table: String = REPORT.lines().take(9).collect::<Vec<_>>().join("\n");
    let e = parse_riprip_output(&no_table).err().unwrap();
    assert!(matches!(e, ScanError::NoTrackLengths));
    assert_eq!(e.message(), Some("No track lengths found in riprip output."));
    assert_eq!(ScanError::MissingCdtoc.message(), Some("Could not find CDTOC"));
}

#[test]
fn assembling_fields() {
    let ok = assemble_disc_info(
        Some("A+B".into()),
        Some("0123abcd".into()),
        Some("id".into()),
        vec![Some("12".into()), None, Some("99999999999".into()), Some("7".into())],
    )
    .unwrap();
    assert_eq!(ok.track_lengths, vec![12, 7]);
    let e = assemble_disc_info(Some("A".into()), Some("b".into()), Some("c".into()), vec![Some("x".into())]);
    assert!(matches!(e, Err(ScanError::NoTrackLengths)));
    let e = assemble_disc_info(None, None, None, vec![]);
    assert!(matches!(e, Err(ScanError::MissingCdtoc)));
}

#[test]
fn ripper_arguments() {
    assert_eq!(riprip_args(5, &None, false), vec!["--passes", "5"]);
    assert_eq!(riprip_args(3, &Some("/dev/sr0".into()), true), vec!["--passes", "3", "--dev", "/dev/sr0"]);
    assert_eq!(riprip_args(3, &Some("/dev/sr9".into()), false), vec!["--passes", "3"]);
    assert_eq!(cue_file_name("960a1c0c"), "960a1c0c.cue");
}
