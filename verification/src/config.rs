//! Program settings: audio formats, filters, ripping and encoding options,
//! and how command-line values override the settings file.
use vstd::prelude::*;

use crate::text::{chars_of, is_white_space, is_whitespace, string_of};

verus! {

/// Directory in which the ripper writes its working files.
pub const RIPRIP_PATH: &'static str = "_riprip";

/// Folder, below the home directory, that receives finished albums.
pub const DEFAULT_FOLDER: &'static str = ".blue-book";

/// What `str::to_uppercase` returns for a string: the Unicode uppercase mapping
/// of each character, concatenated.
pub uninterp spec fn uppercased(s: Seq<char>) -> Seq<char>;

/// Calls `str::to_uppercase`, whose result is the Unicode uppercase mapping of
/// each character of `s`; only that the result is named `uppercased(s)` is claimed.
#[verifier::external_body]
fn upper(s: &str) -> (r: String)
    ensures
        r@ == uppercased(s@),
{
    s.to_uppercase()
}

/// A barcode as it is compared: without whitespace and without hyphens.
pub open spec fn normalized_barcode(s: Seq<char>) -> Seq<char> {
    s.filter(|c: char| !is_white_space(c) && c != '-')
}

/// Removes whitespace and hyphens from a barcode given on the command line.
pub fn normalize_barcode(value: &str) -> (r: Result<String, String>)
    ensures
        r matches Ok(s) && s@ == normalized_barcode(value@),
{
    let v = chars_of(value);
    let mut out: Vec<char> = Vec::new();
    for i in 0..v.len()
        invariant
            out@ == v@.take(i as int).filter(|c: char| !is_white_space(c) && c != '-'),
    {
        let c = v[i];
        proof {
            reveal_with_fuel(Seq::<_>::filter, 1);
            assert(v@.take(i + 1).drop_last() == v@.take(i as int));
        }
        if !is_whitespace(c) && c != '-' {
            out.push(c);
        }
    }
    assert(v@.take(v@.len() as int) == v@);
    Ok(string_of(out.as_slice()))
}

/// Converts a country code given on the command line to upper case.
pub fn to_uppercase(value: &str) -> (r: Result<String, String>)
    ensures
        r matches Ok(s) && s@ == uppercased(value@),
{
    Ok(upper(value))
}

/// The audio format of the encoded files.
#[derive(Debug, Clone, Copy, PartialEq, Eq, Structural)]
pub enum AudioFormat {
    Flac,
    Alac,
}

impl AudioFormat {
    /// The ffmpeg codec name of the format.
    pub open spec fn codec_name(self) -> Seq<char> {
        match self {
            AudioFormat::Flac => "flac"@,
            AudioFormat::Alac => "alac"@,
        }
    }

    /// The file extension of the format.
    pub open spec fn suffix_name(self) -> Seq<char> {
        match self {
            AudioFormat::Flac => "flac"@,
            AudioFormat::Alac => "m4a"@,
        }
    }

    /// Returns the ffmpeg codec string.
    pub fn codec(&self) -> (r: &'static str)
        ensures
            r@ == self.codec_name(),
    {
        match self {
            AudioFormat::Flac => "flac",
            AudioFormat::Alac => "alac",
        }
    }

    /// Returns the file extension.
    pub fn suffix(&self) -> (r: &'static str)
        ensures
            r@ == self.suffix_name(),
    {
        match self {
            AudioFormat::Flac => "flac",
            AudioFormat::Alac => "m4a",
        }
    }
}

impl Default for AudioFormat {
    fn default() -> (r: Self)
        ensures
            r == AudioFormat::Flac,
    {
        AudioFormat::Flac
    }
}

/// Values given on the command line.
#[derive(Debug)]
pub struct Cli {
    /// Show raw data for debugging.
    pub verbose: bool,
    /// Filter release by barcode.
    pub barcode: Option<String>,
    /// Filter release by country code.
    pub country: Option<String>,
    /// Filter release by date.
    pub date: Option<String>,
    /// Filter release by id.
    pub id: Option<String>,
    /// Skip the ripping process.
    pub skip: bool,
    /// Output audio format.
    pub format: Option<AudioFormat>,
    /// A TOC string given by hand.
    pub toc: Option<String>,
}

/// Which releases to keep.
#[derive(Debug)]
pub struct FilterConfig {
    pub barcode: Option<String>,
    pub country: Option<String>,
    pub date: Option<String>,
    pub id: Option<String>,
}

impl Default for FilterConfig {
    fn default() -> (r: Self)
        ensures
            r.barcode is None,
            r.country is None,
            r.date is None,
            r.id is None,
    {
        FilterConfig { barcode: None, country: None, date: None, id: None }
    }
}

/// How to rip the disc.
#[derive(Debug)]
pub struct RipConfig {
    pub skip: bool,
    pub passes: u32,
    /// The device to read from, as a path.
    pub device: Option<String>,
}

impl Default for RipConfig {
    fn default() -> (r: Self)
        ensures
            r.skip == false,
            r.passes == 5,
            r.device is None,
    {
        RipConfig { skip: false, passes: 5, device: None }
    }
}

/// How to encode the tracks.
#[derive(Debug)]
pub struct EncodeConfig {
    pub format: AudioFormat,
}

impl Default for EncodeConfig {
    fn default() -> (r: Self)
        ensures
            r.format == AudioFormat::Flac,
    {
        EncodeConfig { format: AudioFormat::default() }
    }
}

/// FLAC encoder settings.
#[derive(Debug)]
pub struct FlacConfig {
    pub compression_level: u32,
    pub cue_sheet: bool,
}

impl Default for FlacConfig {
    fn default() -> (r: Self)
        ensures
            r.compression_level == 8,
            r.cue_sheet == false,
    {
        FlacConfig { compression_level: 8, cue_sheet: false }
    }
}

/// Templates for album directories and track file names.
#[derive(Debug)]
pub struct TemplateConfig {
    pub dir: String,
    pub file: String,
}

impl Default for TemplateConfig {
    fn default() -> (r: Self)
        ensures
            r.dir@ == "{artist}/{album}"@,
            r.file@ == "{tracknumber:02} - {title}.{suffix}"@,
    {
        TemplateConfig {
            dir: String::from_str("{artist}/{album}"),
            file: String::from_str("{tracknumber:02} - {title}.{suffix}"),
        }
    }
}

/// All settings.
#[derive(Debug)]
pub struct Config {
    pub filter: FilterConfig,
    pub rip: RipConfig,
    pub encode: EncodeConfig,
    pub flac: FlacConfig,
    pub template: TemplateConfig,
}

impl Default for Config {
    fn default() -> (r: Self)
        ensures
            r.filter.barcode is None,
            r.filter.country is None,
            r.filter.date is None,
            r.filter.id is None,
            r.rip.skip == false,
            r.rip.passes == 5,
            r.rip.device is None,
            r.encode.format == AudioFormat::Flac,
            r.flac.compression_level == 8,
            r.flac.cue_sheet == false,
            r.template.dir@ == "{artist}/{album}"@,
            r.template.file@ == "{tracknumber:02} - {title}.{suffix}"@,
    {
        Config {
            filter: FilterConfig::default(),
            rip: RipConfig::default(),
            encode: EncodeConfig::default(),
            flac: FlacConfig::default(),
            template: TemplateConfig::default(),
        }
    }
}

impl Config {
    /// Merges CLI arguments into the existing configuration: each value given
    /// on the command line replaces the one from the settings file, and the rest
    /// is left as it was.
    pub fn merge_cli(&mut self, cli: Cli)
        ensures
            final(self).filter.barcode == (if cli.barcode is Some {
                cli.barcode
            } else {
                old(self).filter.barcode
            }),
            final(self).filter.country == (if cli.country is Some {
                cli.country
            } else {
                old(self).filter.country
            }),
            final(self).filter.date == (if cli.date is Some {
                cli.date
            } else {
                old(self).filter.date
            }),
            final(self).filter.id == (if cli.id is Some {
                cli.id
            } else {
                old(self).filter.id
            }),
            final(self).rip.skip == (cli.skip || old(self).rip.skip),
            final(self).rip.passes == old(self).rip.passes,
            final(self).rip.device == old(self).rip.device,
            final(self).encode.format == (match cli.format {
                Some(f) => f,
                None => old(self).encode.format,
            }),
            final(self).flac == old(self).flac,
            final(self).template == old(self).template,
    {
        if let Some(barcode) = cli.barcode {
            self.filter.barcode = Some(barcode);
        }
        if let Some(country) = cli.country {
            self.filter.country = Some(country);
        }
        if let Some(date) = cli.date {
            self.filter.date = Some(date);
        }
        if let Some(id) = cli.id {
            self.filter.id = Some(id);
        }
        if cli.skip {
            self.rip.skip = true;
        }
        if let Some(format) = cli.format {
            self.encode.format = format;
        }
    }
}

} // verus!

verus! {

/// A normalized barcode holds no whitespace and no hyphen, and normalizing it
/// again changes nothing.
pub proof fn law_normalized_barcode(s: Seq<char>)
    ensures
        forall|i: int|
            0 <= i < normalized_barcode(s).len() ==> !is_white_space(#[trigger] normalized_barcode(s)[i])
                && normalized_barcode(s)[i] != '-',
        normalized_barcode(normalized_barcode(s)) == normalized_barcode(s),
{
    let p = |c: char| !is_white_space(c) && c != '-';
    s.filter_lemma(p);
    crate::text::lemma_filter_all(s.filter(p), p);
}

} // verus!
