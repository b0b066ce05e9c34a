//! What the ripper reports about a disc, and how the ripper is invoked.
use vstd::prelude::*;

use crate::pattern::{all_groups, compile, first_group, regex_all_groups, regex_compiles, regex_first_group};
use crate::text::{chars_of, decimal, parse_u32, parsed_u32, string_of, u64_to_string};

verus! {

/// The table of contents in the ripper's report.
pub const CDTOC_PATTERN: &'static str = "CDTOC:.*?([0-9A-F]+(?:\\+[0-9A-F]+)+)";

/// The CDDB identifier in the ripper's report.
pub const CDDB_PATTERN: &'static str = "CDDB:.*?([0-9a-f]{8})";

/// The MusicBrainz disc identifier in the ripper's report.
pub const DISCID_PATTERN: &'static str = "MusicBrainz:.*?([a-zA-Z0-9._-]{27,28})";

/// The track table rows of the ripper's report; group 1 is the track length.
pub const LENGTHS_PATTERN: &'static str = "(?m)^\\s*\\d{2}\\s+\\d+\\s+\\d+\\s+(\\d+)";

/// What the ripper reports about a disc.
#[derive(Debug)]
pub struct DiscInfo {
    pub cdtoc: String,
    pub cddb: String,
    pub discid: String,
    pub track_lengths: Vec<u32>,
}

/// Why the ripper's report could not be read.
#[derive(Debug)]
pub enum ScanError {
    /// A pattern was refused by the regular-expression engine.
    InvalidPattern(regex::Error),
    /// The report names no table of contents.
    MissingCdtoc,
    /// The report names no CDDB identifier.
    MissingCddb,
    /// The report names no MusicBrainz disc identifier.
    MissingDiscId,
    /// The report lists no track lengths.
    NoTrackLengths,
}

impl ScanError {
    /// The message shown for the error, for every error but a refused pattern.
    pub fn message(&self) -> (r: Option<&'static str>)
        ensures
            match self {
                ScanError::InvalidPattern(_) => r is None,
                ScanError::MissingCdtoc => r matches Some(m) && m@ == "Could not find CDTOC"@,
                ScanError::MissingCddb => r matches Some(m) && m@ == "Could not find CDDB"@,
                ScanError::MissingDiscId => r matches Some(m) && m@ == "Could not find MusicBrainz"@,
                ScanError::NoTrackLengths => r matches Some(m) && m@
                    == "No track lengths found in riprip output."@,
            },
    {
        match self {
            ScanError::InvalidPattern(_) => None,
            ScanError::MissingCdtoc => Some("Could not find CDTOC"),
            ScanError::MissingCddb => Some("Could not find CDDB"),
            ScanError::MissingDiscId => Some("Could not find MusicBrainz"),
            ScanError::NoTrackLengths => Some("No track lengths found in riprip output."),
        }
    }
}

/// The track lengths that parse as 32-bit numbers, in order.
pub open spec fn parsed_lengths(fields: Seq<Option<Seq<char>>>) -> Seq<u32>
    decreases fields.len(),
{
    if fields.len() == 0 {
        Seq::empty()
    } else {
        let rest = parsed_lengths(fields.drop_last());
        match fields.last() {
            Some(f) => match parsed_u32(f) {
                Some(n) => rest.push(n),
                None => rest,
            },
            None => rest,
        }
    }
}

/// The text of optional strings.
pub open spec fn opt_views(v: Seq<Option<String>>) -> Seq<Option<Seq<char>>> {
    v.map_values(|o: Option<String>| match o {
        Some(s) => Some(s@),
        None => None,
    })
}

/// What the fields found in a report make: the table of contents, the CDDB and
/// MusicBrainz identifiers, and the lengths that parse; the first missing
/// piece is an error.
pub open spec fn assembled(
    cdtoc: Option<Seq<char>>,
    cddb: Option<Seq<char>>,
    discid: Option<Seq<char>>,
    fields: Seq<Option<Seq<char>>>,
) -> Result<(Seq<char>, Seq<char>, Seq<char>, Seq<u32>), ()> {
    if cdtoc is None || cddb is None || discid is None || parsed_lengths(fields).len() == 0 {
        Err(())
    } else {
        Ok((cdtoc->0, cddb->0, discid->0, parsed_lengths(fields)))
    }
}

/// The error for fields that do not make a disc description.
pub open spec fn assembly_error(
    cdtoc: Option<Seq<char>>,
    cddb: Option<Seq<char>>,
    discid: Option<Seq<char>>,
    e: ScanError,
) -> bool {
    if cdtoc is None {
        e is MissingCdtoc
    } else if cddb is None {
        e is MissingCddb
    } else if discid is None {
        e is MissingDiscId
    } else {
        e is NoTrackLengths
    }
}

/// Whether `d` is the disc description `a`.
pub open spec fn describes(d: DiscInfo, a: (Seq<char>, Seq<char>, Seq<char>, Seq<u32>)) -> bool {
    d.cdtoc@ == a.0 && d.cddb@ == a.1 && d.discid@ == a.2 && d.track_lengths@ == a.3
}

/// Makes a disc description from the fields found in the ripper's report.
pub fn assemble_disc_info(
    cdtoc: Option<String>,
    cddb: Option<String>,
    discid: Option<String>,
    fields: Vec<Option<String>>,
) -> (r: Result<DiscInfo, ScanError>)
    ensures
        ({
            let c = match cdtoc { Some(s) => Some(s@), None => None };
            let b = match cddb { Some(s) => Some(s@), None => None };
            let d = match discid { Some(s) => Some(s@), None => None };
            match assembled(c, b, d, opt_views(fields@)) {
                Ok(a) => r matches Ok(info) && describes(info, a),
                Err(_) => r matches Err(e) && assembly_error(c, b, d, e),
            }
        }),
{
    let ghost fv = opt_views(fields@);
    let mut lengths: Vec<u32> = Vec::new();
    for i in 0..fields.len()
        invariant
            fv == opt_views(fields@),
            lengths@ == parsed_lengths(fv.take(i as int)),
    {
        assert(fv.take(i + 1).drop_last() == fv.take(i as int));
        if let Some(f) = &fields[i] {
            let v = chars_of(f.as_str());
            if let Some(n) = parse_u32(v.as_slice()) {
                lengths.push(n);
            }
        }
    }
    assert(fv.take(fv.len() as int) == fv);
    let cdtoc = match cdtoc {
        Some(s) => s,
        None => {
            return Err(ScanError::MissingCdtoc);
        },
    };
    let cddb = match cddb {
        Some(s) => s,
        None => {
            return Err(ScanError::MissingCddb);
        },
    };
    let discid = match discid {
        Some(s) => s,
        None => {
            return Err(ScanError::MissingDiscId);
        },
    };
    if lengths.len() == 0 {
        return Err(ScanError::NoTrackLengths);
    }
    Ok(DiscInfo { cdtoc, cddb, discid, track_lengths: lengths })
}

/// Whether the four report patterns are all accepted.
pub open spec fn patterns_compile() -> bool {
    regex_compiles(CDTOC_PATTERN@) && regex_compiles(CDDB_PATTERN@) && regex_compiles(DISCID_PATTERN@)
        && regex_compiles(LENGTHS_PATTERN@)
}

/// Reads the table of contents, the disc identifiers and the track lengths
/// from the ripper's report.
pub fn parse_riprip_output(text: &str) -> (r: Result<DiscInfo, ScanError>)
    ensures
        !patterns_compile() <==> r matches Err(ScanError::InvalidPattern(_)),
        patterns_compile() ==> ({
            let c = regex_first_group(CDTOC_PATTERN@, text@);
            let b = regex_first_group(CDDB_PATTERN@, text@);
            let d = regex_first_group(DISCID_PATTERN@, text@);
            match assembled(c, b, d, regex_all_groups(LENGTHS_PATTERN@, text@)) {
                Ok(a) => r matches Ok(info) && describes(info, a),
                Err(_) => r matches Err(e) && assembly_error(c, b, d, e),
            }
        }),
{
    let re_cdtoc = match compile(CDTOC_PATTERN) {
        Ok(p) => p,
        Err(e) => {
            return Err(ScanError::InvalidPattern(e));
        },
    };
    let re_cddb = match compile(CDDB_PATTERN) {
        Ok(p) => p,
        Err(e) => {
            return Err(ScanError::InvalidPattern(e));
        },
    };
    let re_discid = match compile(DISCID_PATTERN) {
        Ok(p) => p,
        Err(e) => {
            return Err(ScanError::InvalidPattern(e));
        },
    };
    let re_lengths = match compile(LENGTHS_PATTERN) {
        Ok(p) => p,
        Err(e) => {
            return Err(ScanError::InvalidPattern(e));
        },
    };
    let cdtoc = first_group(&re_cdtoc, text);
    let cddb = first_group(&re_cddb, text);
    let discid = first_group(&re_discid, text);
    let fields = all_groups(&re_lengths, text);
    assert(opt_views(fields@) =~= regex_all_groups(LENGTHS_PATTERN@, text@));
    assemble_disc_info(cdtoc, cddb, discid, fields)
}

} // verus!

verus! {

/// The ripper's arguments: the number of passes, and the device when one is
/// configured and exists.
pub open spec fn riprip_command(passes: u32, device: Option<Seq<char>>, device_exists: bool) -> Seq<Seq<char>> {
    seq!["--passes"@, decimal(passes as nat)] + match device {
        Some(d) => if device_exists {
            seq!["--dev"@, d]
        } else {
            Seq::empty()
        },
        None => Seq::empty(),
    }
}

/// Builds the ripper's arguments.
pub fn riprip_args(passes: u32, device: &Option<String>, device_exists: bool) -> (r: Vec<String>)
    ensures
        crate::text::string_views(r@) == riprip_command(
            passes,
            match *device {
                Some(d) => Some(d@),
                None => None,
            },
            device_exists,
        ),
{
    let mut args: Vec<String> = Vec::new();
    args.push(String::from_str("--passes"));
    args.push(u64_to_string(passes as u64));
    if let Some(d) = device {
        if device_exists {
            args.push(String::from_str("--dev"));
            args.push(d.clone());
        }
    }
    assert(crate::text::string_views(args@) =~= riprip_command(
        passes,
        match *device {
            Some(d) => Some(d@),
            None => None,
        },
        device_exists,
    ));
    args
}

/// The name of the cue sheet the ripper writes for a disc: its CDDB identifier
/// followed by `.cue`.
pub fn cue_file_name(cddb: &str) -> (r: String)
    ensures
        r@ == cddb@ + ".cue"@,
{
    let mut v = chars_of(cddb);
    let ext = chars_of(".cue");
    crate::text::extend(&mut v, ext.as_slice());
    string_of(v.as_slice())
}

} // verus!
