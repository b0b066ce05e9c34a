use blue_book::config::{
    normalize_barcode, to_uppercase, AudioFormat, Cli, Config, EncodeConfig, FilterConfig,
    FlacConfig, RipConfig, TemplateConfig, DEFAULT_FOLDER, RIPRIP_PATH,
};

fn cli() -> Cli {
    Cli {
        verbose: false,
        barcode: None,
        country: None,
        date: None,
        id: None,
        skip: false,
        format: None,
        toc: None,
    }
}

#[test]
fn format_names() {
    assert_eq!(AudioFormat::Flac.codec(), "flac");
    assert_eq!(AudioFormat::Alac.codec(), "alac");
    assert_eq!(AudioFormat::Flac.suffix(), "flac");
    assert_eq!(AudioFormat::Alac.suffix(), "m4a");
    assert_eq!(AudioFormat::default(), AudioFormat::Flac);
}

#[test]
fn defaults() {
    let c = Config::default();
    assert!(c.filter.barcode.is_none() && c.filter.country.is_none());
    assert!(c.filter.date.is_none() && c.filter.id.is_none());
    assert!(!c.rip.skip);
    assert_eq!(c.rip.passes, 5);
    assert!(c.rip.device.is_none());
    assert_eq!(c.encode.format, AudioFormat::Flac);
    assert_eq!(c.flac.compression_level, 8);
    assert!(!c.flac.cue_sheet);
    assert_eq!(c.template.dir, "{artist}/{album}");
    assert_eq!(c.template.file, "{tracknumber:02} - {title}.{suffix}");
    assert_eq!(RipConfig::default().passes, 5);
    assert_eq!(FlacConfig::default().compression_level, 8);
    assert_eq!(EncodeConfig::default().format, AudioFormat::Flac);
    assert!(FilterConfig::default().barcode.is_none());
    assert_eq!(TemplateConfig::default().dir, "{artist}/{album}");
    assert_eq!(RIPRIP_PATH, "_riprip");
    assert_eq!(DEFAULT_FOLDER, ".blue-book");
}

#[test]
fn barcode_normalization() {
    assert_eq!(normalize_barcode("0-77774-62072-7"), Ok("077774620727".to_string()));
    assert_eq!(normalize_barcode(" 689230 001720 "), Ok("689230001720".to_string()));
    assert_eq!(normalize_barcode("\u{3000}12\t3-"), Ok("123".to_string()));
    assert_eq!(normalize_barcode(""), Ok(String::new()));
    let once = normalize_barcode("0- 7 7").unwrap();
    assert_eq!(normalize_barcode(&once).unwrap(), once);
}

#[test]
fn country_upper_case() {
    assert_eq!(to_uppercase("gb"), Ok("GB".to_string()));
    assert_eq!(to_uppercase("Us"), Ok("US".to_string()));
    assert_eq!(to_uppercase("straße"), Ok("STRASSE".to_string()));
}

#[test]
fn cli_values_override_settings() {
    let mut c = Config::default();
    c.filter.country = Some("US".into());
    c.filter.date = Some("1975".into());
    c.rip.passes = 3;
    let mut args = cli();
    args.barcode = Some("077774620727".into());
    args.country = Some("GB".into());
    args.id = Some("abc".into());
    args.skip = true;
    args.format = Some(AudioFormat::Alac);
    c.merge_cli(args);
    assert_eq!(c.filter.barcode.as_deref(), Some("077774620727"));
    assert_eq!(c.filter.country.as_deref(), Some("GB"));
    assert_eq!(c.filter.date.as_deref(), Some("1975"));
    assert_eq!(c.filter.id.as_deref(), Some("abc"));
    assert!(c.rip.skip);
    assert_eq!(c.rip.passes, 3);
    assert_eq!(c.encode.format, AudioFormat::Alac);
}

#[test]
fn absent_cli_values_keep_settings() {
    let mut c = Config::default();
    c.rip.skip = true;
    c.filter.barcode = Some("1".into());
    c.encode.format = AudioFormat::Alac;
    c.merge_cli(cli());
    assert!(c.rip.skip);
    assert_eq!(c.filter.barcode.as_deref(), Some("1"));
    assert_eq!(c.encode.format, AudioFormat::Alac);
}
