//! Releases as the catalogue describes them, how they are filtered, and the
//! text shown to the user about a chosen release.
use heck::ToTitleCase;
use vstd::prelude::*;

use crate::config::Config;
use crate::text::{
    chars_of, contains, decimal, decimal_digits, extend, extend_repeat, find, opt_view, pad_left,
    pad_right, padded_left, padded_right, replace, replaced, same_chars, same_text, string_of,
    string_views,
};

verus! {

/// One credited artist: the artist's name, the phrase that joins it to the
/// next credit, and a number that stands for the whole credit record (two
/// credits have the same number exactly when their records are equal).
#[derive(Debug)]
pub struct CreditInfo {
    pub name: String,
    pub joinphrase: Option<String>,
    pub artist: u64,
}

/// The recording behind a track.
#[derive(Debug)]
pub struct RecordingInfo {
    pub title: String,
    /// Length in milliseconds.
    pub length: Option<u32>,
}

/// One track of a medium.
#[derive(Debug)]
pub struct TrackInfo {
    pub recording: Option<RecordingInfo>,
    pub title: String,
    pub number: String,
    /// Length in milliseconds.
    pub length: Option<u32>,
    pub artist_credit: Option<Vec<CreditInfo>>,
}

/// One medium (disc) of a release.
#[derive(Debug)]
pub struct MediumInfo {
    /// The disc identifiers attached to the medium.
    pub discs: Option<Vec<String>>,
    pub position: Option<u32>,
    pub format: Option<String>,
    pub tracks: Option<Vec<TrackInfo>>,
}

/// A label entry of a release.
#[derive(Debug)]
pub struct LabelEntry {
    pub label_name: Option<String>,
    pub catalog_number: Option<String>,
}

/// The release group a release belongs to.
#[derive(Debug)]
pub struct ReleaseGroupInfo {
    pub id: String,
    pub first_release_date: Option<String>,
}

/// A release, holding what the program reads of it.
#[derive(Debug)]
pub struct ReleaseInfo {
    pub id: String,
    pub title: String,
    /// The release status, as its name is printed.
    pub status: Option<String>,
    pub date: Option<String>,
    pub country: Option<String>,
    pub barcode: Option<String>,
    /// The packaging, as its name is written.
    pub packaging: Option<String>,
    pub release_group: Option<ReleaseGroupInfo>,
    pub artist_credit: Option<Vec<CreditInfo>>,
    pub media: Option<Vec<MediumInfo>>,
    pub label_info: Option<Vec<LabelEntry>>,
}

/// A tag of a release group with its vote count.
#[derive(Debug)]
pub struct TagInfo {
    pub name: String,
    pub count: Option<i32>,
}

/// The text of an optional string, empty when absent.
pub open spec fn text_or_empty(s: Option<String>) -> Seq<char> {
    match s {
        Some(t) => t@,
        None => Seq::empty(),
    }
}

/// The combined credit phrase: each credited name followed by its join phrase.
pub open spec fn credit_phrase(credits: Seq<CreditInfo>) -> Seq<char>
    decreases credits.len(),
{
    if credits.len() == 0 {
        Seq::empty()
    } else {
        credit_phrase(credits.drop_last()) + credits.last().name@ + text_or_empty(
            credits.last().joinphrase,
        )
    }
}

/// The combined phrase of an optional credit list.
pub open spec fn credit_phrase_of(credits: Option<Vec<CreditInfo>>) -> Option<Seq<char>> {
    match credits {
        Some(v) => Some(credit_phrase(v@)),
        None => None,
    }
}

/// Copies an optional string's text into a character vector (empty when absent).
fn chars_or_empty(s: &Option<String>) -> (r: Vec<char>)
    ensures
        r@ == text_or_empty(*s),
{
    match s {
        Some(t) => chars_of(t.as_str()),
        None => Vec::new(),
    }
}

/// Combines artist names with their join phrases.
pub fn artist_credit_phrase(artist_credits: &Option<Vec<CreditInfo>>) -> (r: Option<String>)
    ensures
        match credit_phrase_of(*artist_credits) {
            Some(p) => r matches Some(s) && s@ == p,
            None => r is None,
        },
{
    match artist_credits {
        None => None,
        Some(credits) => {
            let mut out: Vec<char> = Vec::new();
            for i in 0..credits.len()
                invariant
                    out@ == credit_phrase(credits@.take(i as int)),
            {
                assert(credits@.take(i + 1).drop_last() == credits@.take(i as int));
                let name = chars_of(credits[i].name.as_str());
                extend(&mut out, name.as_slice());
                let join = chars_or_empty(&credits[i].joinphrase);
                extend(&mut out, join.as_slice());
            }
            assert(credits@.take(credits@.len() as int) == credits@);
            Some(string_of(out.as_slice()))
        },
    }
}

/// Whether one of the medium's discs has the given identifier.
pub open spec fn medium_has_disc(media: MediumInfo, disc_id: Seq<char>) -> bool {
    match media.discs {
        Some(discs) => exists|i: int| 0 <= i < discs@.len() && #[trigger] discs@[i]@ == disc_id,
        None => false,
    }
}

/// Whether the medium carries the disc with identifier `disc_id`.
pub fn has_disc_id(media: &MediumInfo, disc_id: &str) -> (r: bool)
    ensures
        r == medium_has_disc(*media, disc_id@),
{
    match &media.discs {
        None => false,
        Some(discs) => {
            let want = chars_of(disc_id);
            for i in 0..discs.len()
                invariant
                    want@ == disc_id@,
                    media.discs == Some(*discs),
                    forall|j: int| 0 <= j < i ==> #[trigger] discs@[j]@ != disc_id@,
            {
                let have = chars_of(discs[i].as_str());
                if same_chars(have.as_slice(), want.as_slice()) {
                    assert(media.discs->0@[i as int]@ == disc_id@);
                    return true;
                }
            }
            false
        },
    }
}

} // verus!

verus! {

/// The number of bytes UTF-8 uses for `c`.
pub open spec fn utf8_width(c: char) -> nat {
    if (c as u32) < 0x80 {
        1
    } else if (c as u32) < 0x800 {
        2
    } else if (c as u32) < 0x10000 {
        3
    } else {
        4
    }
}

/// The number of bytes of the UTF-8 encoding of `s`.
pub open spec fn utf8_len(s: Seq<char>) -> nat
    decreases s.len(),
{
    if s.len() == 0 {
        0
    } else {
        utf8_len(s.drop_last()) + utf8_width(s.last())
    }
}

/// What `str::get(0..n)` gives: the leading characters that take exactly `n`
/// bytes, or nothing when byte `n` is past the end or inside a character.
pub open spec fn byte_prefix(s: Seq<char>, n: nat) -> Option<Seq<char>> {
    if exists|k: int| 0 <= k <= s.len() && #[trigger] utf8_len(s.take(k)) == n {
        Some(s.take(choose|k: int| 0 <= k <= s.len() && #[trigger] utf8_len(s.take(k)) == n))
    } else {
        None
    }
}

proof fn lemma_utf8_len_grows(s: Seq<char>, j: int, k: int)
    requires
        0 <= j < k <= s.len(),
    ensures
        utf8_len(s.take(j)) < utf8_len(s.take(k)),
    decreases k - j,
{
    assert(s.take(k).drop_last() == s.take(k - 1));
    if j < k - 1 {
        lemma_utf8_len_grows(s, j, k - 1);
    }
}

fn char_width(c: char) -> (w: usize)
    ensures
        w == utf8_width(c),
{
    if (c as u32) < 0x80 {
        1
    } else if (c as u32) < 0x800 {
        2
    } else if (c as u32) < 0x10000 {
        3
    } else {
        4
    }
}

/// The leading characters of `s` that take exactly `n` bytes, if any.
pub fn prefix_of_bytes(s: &[char], n: usize) -> (r: Option<Vec<char>>)
    ensures
        match byte_prefix(s@, n as nat) {
            Some(p) => r matches Some(v) && v@ == p,
            None => r is None,
        },
{
    let mut k: usize = 0;
    let mut bytes: usize = 0;
    while k < s.len() && bytes < n
        invariant
            k <= s@.len(),
            bytes == utf8_len(s@.take(k as int)),
            bytes <= n,
            forall|j: int| 0 <= j < k ==> utf8_len(#[trigger] s@.take(j)) < n,
        decreases s.len() - k,
    {
        assert(s@.take(k + 1).drop_last() == s@.take(k as int));
        let w = char_width(s[k]);
        if w > n - bytes {
            // Byte `n` falls inside character `k`: no prefix ends there.
            assert forall|j: int| 0 <= j <= s@.len() implies #[trigger] utf8_len(s@.take(j)) != n by {
                if j > k {
                    if j > k + 1 {
                        lemma_utf8_len_grows(s@, k + 1, j);
                    }
                }
            }
            return None;
        }
        bytes = bytes + w;
        k = k + 1;
    }
    if bytes == n {
        let mut v: Vec<char> = Vec::new();
        for i in 0..k
            invariant
                k <= s@.len(),
                v@ == s@.take(i as int),
        {
            v.push(s[i]);
            assert(s@.take(i + 1) == s@.take(i as int).push(s@[i as int]));
        }
        proof {
            let c = choose|j: int| 0 <= j <= s@.len() && #[trigger] utf8_len(s@.take(j)) == n;
            if c < k {
                lemma_utf8_len_grows(s@, c, k as int);
            } else if c > k {
                lemma_utf8_len_grows(s@, k as int, c);
            }
        }
        Some(v)
    } else {
        assert forall|j: int| 0 <= j <= s@.len() implies #[trigger] utf8_len(s@.take(j)) != n by {
            if j == k {
            } else if j > k {
                assert(k == s@.len());
            }
        }
        None
    }
}

/// The year of the first release of a release's group: the first four bytes
/// of its first-release date.
pub open spec fn original_year(release: ReleaseInfo) -> Option<Seq<char>> {
    match release.release_group {
        Some(g) => match g.first_release_date {
            Some(d) => byte_prefix(d@, 4),
            None => None,
        },
        None => None,
    }
}

/// The year in which the release's group was first released.
pub fn original_date(release: &ReleaseInfo) -> (r: Option<String>)
    ensures
        match original_year(*release) {
            Some(y) => r matches Some(s) && s@ == y,
            None => r is None,
        },
{
    match &release.release_group {
        None => None,
        Some(group) => match &group.first_release_date {
            None => None,
            Some(date) => {
                let d = chars_of(date.as_str());
                match prefix_of_bytes(d.as_slice(), 4) {
                    Some(v) => Some(string_of(v.as_slice())),
                    None => None,
                }
            },
        },
    }
}

/// The bold form of a substring on a terminal.
pub open spec fn bold(sub: Seq<char>) -> Seq<char> {
    "\x1b[1m"@ + sub + "\x1b[0m"@
}

/// What `bold_substring` returns: in verbose mode, `text` with each occurrence
/// of a non-empty `sub` made bold; otherwise `text` unchanged.
pub open spec fn emboldened(text: Seq<char>, sub: Option<Seq<char>>, verbose: bool) -> Seq<char> {
    match sub {
        Some(p) => if verbose && p.len() > 0 {
            replaced(text, p, bold(p))
        } else {
            text
        },
        None => text,
    }
}

/// Highlights every occurrence of `sub` in `text` when `verbose` is set.
pub fn bold_substring(text: &str, sub: Option<&str>, verbose: bool) -> (r: String)
    ensures
        r@ == emboldened(text@, match sub {
            Some(p) => Some(p@),
            None => None,
        }, verbose),
{
    let t = chars_of(text);
    if !verbose {
        return string_of(t.as_slice());
    }
    match sub {
        None => string_of(t.as_slice()),
        Some(p) => {
            let pv = chars_of(p);
            if pv.len() == 0 {
                return string_of(t.as_slice());
            }
            let mut b: Vec<char> = chars_of("\x1b[1m");
            extend(&mut b, pv.as_slice());
            let close = chars_of("\x1b[0m");
            extend(&mut b, close.as_slice());
            let out = replace(t.as_slice(), pv.as_slice(), b.as_slice());
            string_of(out.as_slice())
        },
    }
}

} // verus!

verus! {

/// A barcode search term as it is compared: without hyphens and spaces.
pub open spec fn barcode_search(search: Seq<char>) -> Seq<char> {
    search.filter(|c: char| c != '-' && c != ' ')
}

/// Whether a release passes the barcode, country and date filters.
pub open spec fn keeps(r: ReleaseInfo, f: crate::config::FilterConfig) -> bool {
    let barcode_ok = match f.barcode {
        None => true,
        Some(search) => {
            let barcode = text_or_empty(r.barcode);
            if search@.len() == 0 {
                barcode.len() == 0
            } else {
                contains(barcode, barcode_search(search@))
            }
        },
    };
    let country_ok = match f.country {
        None => true,
        Some(c) => r.country matches Some(x) && x@ == c@,
    };
    let date_ok = match f.date {
        None => true,
        Some(d) => contains(text_or_empty(r.date), d@),
    };
    barcode_ok && country_ok && date_ok
}

fn strip_search(search: &[char]) -> (r: Vec<char>)
    ensures
        r@ == barcode_search(search@),
{
    let mut out: Vec<char> = Vec::new();
    for i in 0..search.len()
        invariant
            out@ == search@.take(i as int).filter(|c: char| c != '-' && c != ' '),
    {
        proof {
            reveal_with_fuel(Seq::<_>::filter, 1);
            assert(search@.take(i + 1).drop_last() == search@.take(i as int));
        }
        if search[i] != '-' && search[i] != ' ' {
            out.push(search[i]);
        }
    }
    assert(search@.take(search@.len() as int) == search@);
    out
}

fn passes_filter(r: &ReleaseInfo, f: &crate::config::FilterConfig) -> (b: bool)
    ensures
        b == keeps(*r, *f),
{
    let barcode_ok = match &f.barcode {
        None => true,
        Some(search) => {
            let barcode = chars_or_empty(&r.barcode);
            let s = chars_of(search.as_str());
            if s.len() == 0 {
                barcode.len() == 0
            } else {
                let stripped = strip_search(s.as_slice());
                find(barcode.as_slice(), stripped.as_slice())
            }
        },
    };
    let country_ok = match &f.country {
        None => true,
        Some(c) => match &r.country {
            Some(x) => {
                let xs = chars_of(x.as_str());
                let cs = chars_of(c.as_str());
                same_chars(xs.as_slice(), cs.as_slice())
            },
            None => false,
        },
    };
    let date_ok = match &f.date {
        None => true,
        Some(d) => {
            let date = chars_or_empty(&r.date);
            let ds = chars_of(d.as_str());
            find(date.as_slice(), ds.as_slice())
        },
    };
    barcode_ok && country_ok && date_ok
}

/// Keeps the releases that match the barcode, country and date filters of the
/// configuration, in their original order.
pub fn find_best_release(releases: Vec<ReleaseInfo>, config: &Config) -> (r: Vec<ReleaseInfo>)
    ensures
        r@ == releases@.filter(|x: ReleaseInfo| keeps(x, config.filter)),
{
    let ghost all = releases@;
    let mut out: Vec<ReleaseInfo> = Vec::new();
    for rel in it: releases
        invariant
            it.seq() == all,
            out@ == all.take(it.index() as int).filter(|x: ReleaseInfo| keeps(x, config.filter)),
    {
        proof {
            reveal_with_fuel(Seq::<_>::filter, 1);
            assert(all.take(it.index() + 1).drop_last() == all.take(it.index() as int));
        }
        if passes_filter(&rel, &config.filter) {
            out.push(rel);
        }
    }
    assert(all.take(all.len() as int) == all);
    out
}

} // verus!

verus! {

/// What heck's `ToTitleCase::to_title_case` returns for a string: its words,
/// each capitalized, joined by single spaces.
pub uninterp spec fn title_cased(s: Seq<char>) -> Seq<char>;

/// Calls heck's `to_title_case`; only that its result is named `title_cased(s)` is claimed.
#[verifier::external_body]
fn title_case(s: &str) -> (r: String)
    ensures
        r@ == title_cased(s@),
{
    s.to_title_case()
}

/// The order of optional vote counts: an absent count is below every count.
pub open spec fn count_le(a: Option<i32>, b: Option<i32>) -> bool {
    match (a, b) {
        (None, _) => true,
        (Some(_), None) => false,
        (Some(x), Some(y)) => x <= y,
    }
}

/// Whether tag `i` comes first once the tags are sorted by descending count,
/// ties keeping their order: its count is the highest, and no earlier tag has it.
pub open spec fn is_top_tag(tags: Seq<TagInfo>, i: int) -> bool {
    &&& 0 <= i < tags.len()
    &&& forall|j: int| 0 <= j < tags.len() ==> count_le(#[trigger] tags[j].count, tags[i].count)
    &&& forall|j: int| 0 <= j < i ==> !count_le(tags[i].count, #[trigger] tags[j].count)
}

/// The genre of a release group: the title-cased name of its most voted tag,
/// the earliest one among equals; none when there are no tags.
pub fn pick_genre(tags: Option<Vec<TagInfo>>) -> (r: Option<String>)
    ensures
        match tags {
            Some(v) if v@.len() > 0 => r matches Some(s) && exists|i: int|
                is_top_tag(v@, i) && s@ == title_cased(#[trigger] v@[i].name@),
            _ => r is None,
        },
{
    match tags {
        None => None,
        Some(v) => {
            if v.len() == 0 {
                return None;
            }
            let mut best: usize = 0;
            for i in 1..v.len()
                invariant
                    best < i <= v@.len(),
                    forall|j: int| 0 <= j < i ==> count_le(#[trigger] v@[j].count, v@[best as int].count),
                    forall|j: int| 0 <= j < best ==> !count_le(v@[best as int].count, #[trigger] v@[j].count),
            {
                let better = match (v[i].count, v[best].count) {
                    (Some(x), Some(y)) => x > y,
                    (Some(_), None) => true,
                    (None, _) => false,
                };
                if better {
                    best = i;
                }
            }
            let name = title_case(v[best].name.as_str());
            assert(is_top_tag(v@, best as int));
            Some(name)
        },
    }
}

} // verus!

verus! {

/// A value as the table shows it: its text, or `N/A` when absent.
pub open spec fn or_na(v: Option<Seq<char>>) -> Seq<char> {
    match v {
        Some(s) => s,
        None => "N/A"@,
    }
}

/// The format of the first medium of a release.
pub open spec fn first_medium_format(r: ReleaseInfo) -> Option<Seq<char>> {
    match r.media {
        Some(m) => if m@.len() > 0 {
            opt_view(m@[0].format)
        } else {
            None
        },
        None => None,
    }
}

/// The first label entry of a release.
pub open spec fn first_label(r: ReleaseInfo) -> Option<LabelEntry> {
    match r.label_info {
        Some(l) => if l@.len() > 0 {
            Some(l@[0])
        } else {
            None
        },
        None => None,
    }
}

/// The rows of the release table: a field name and its value, if known.
pub open spec fn table_rows(r: ReleaseInfo, genre: Option<Seq<char>>) -> Seq<(Seq<char>, Option<Seq<char>>)> {
    seq![
        ("Release ID"@, Some(r.id@)),
        ("Artist"@, credit_phrase_of(r.artist_credit)),
        ("Album"@, Some(r.title@)),
        ("Date"@, original_year(r)),
        ("Genre"@, genre),
        ("Status"@, opt_view(r.status)),
        ("Format"@, Some(or_na(first_medium_format(r)) + " ("@ + or_na(opt_view(r.packaging)) + ")"@)),
        ("Label"@, match first_label(r) { Some(l) => opt_view(l.label_name), None => None }),
        ("Catalog#"@, match first_label(r) { Some(l) => opt_view(l.catalog_number), None => None }),
        ("Barcode"@, opt_view(r.barcode)),
        ("Country"@, opt_view(r.country)),
        ("Released"@, opt_view(r.date)),
    ]
}

/// One line of the release table: the field name in a column of twenty, then the value.
pub open spec fn table_line(field: Seq<char>, value: Option<Seq<char>>) -> Seq<char> {
    pad_right(field, 20) + " | "@ + or_na(value)
}

/// The lines of the release table for the last release: a header, a rule,
/// and one line per row; nothing when there is no release.
pub open spec fn release_table(releases: Seq<ReleaseInfo>, genre: Option<Seq<char>>) -> Seq<Seq<char>> {
    if releases.len() == 0 {
        Seq::empty()
    } else {
        seq![table_line("Field"@, Some("Value"@)), Seq::new(60, |i: int| '-')] + table_rows(
            releases.last(),
            genre,
        ).map_values(|row: (Seq<char>, Option<Seq<char>>)| table_line(row.0, row.1))
    }
}

fn opt_chars(s: &Option<String>) -> (r: Option<Vec<char>>)
    ensures
        match opt_view(*s) {
            Some(t) => r matches Some(v) && v@ == t,
            None => r is None,
        },
{
    match s {
        Some(t) => Some(chars_of(t.as_str())),
        None => None,
    }
}

fn line_of(field: &str, value: Option<Vec<char>>) -> (r: String)
    ensures
        r@ == table_line(field@, match value {
            Some(v) => Some(v@),
            None => None,
        }),
{
    let f = chars_of(field);
    let mut line = padded_right(f.as_slice(), 20);
    let sep = chars_of(" | ");
    extend(&mut line, sep.as_slice());
    match value {
        Some(v) => extend(&mut line, v.as_slice()),
        None => {
            let na = chars_of("N/A");
            extend(&mut line, na.as_slice());
        },
    }
    string_of(line.as_slice())
}

fn chars_or_na(v: Option<Vec<char>>) -> (r: Vec<char>)
    ensures
        r@ == or_na(match v {
            Some(x) => Some(x@),
            None => None,
        }),
{
    match v {
        Some(x) => x,
        None => chars_of("N/A"),
    }
}

/// The lines that describe the chosen (last) release.
pub fn release_table_lines(releases: &Vec<ReleaseInfo>, genre: Option<String>) -> (r: Vec<String>)
    ensures
        string_views(r@) == release_table(releases@, opt_view(genre)),
{
    let mut lines: Vec<String> = Vec::new();
    if releases.len() == 0 {
        assert(string_views(lines@) =~= Seq::<Seq<char>>::empty());
        return lines;
    }
    let release = &releases[releases.len() - 1];
    let ghost rows = table_rows(*release, opt_view(genre));
    let ghost expect = release_table(releases@, opt_view(genre));
    lines.push(line_of("Field", Some(chars_of("Value"))));
    let mut rule: Vec<char> = Vec::new();
    extend_repeat(&mut rule, '-', 60);
    lines.push(string_of(rule.as_slice()));

    let artist = match artist_credit_phrase(&release.artist_credit) {
        Some(s) => Some(chars_of(s.as_str())),
        None => None,
    };
    let date = match original_date(release) {
        Some(s) => Some(chars_of(s.as_str())),
        None => None,
    };
    let format = match &release.media {
        Some(m) => if m.len() > 0 {
            opt_chars(&m[0].format)
        } else {
            None
        },
        None => None,
    };
    let mut format_text = chars_or_na(format);
    extend(&mut format_text, chars_of(" (").as_slice());
    extend(&mut format_text, chars_or_na(opt_chars(&release.packaging)).as_slice());
    extend(&mut format_text, chars_of(")").as_slice());
    let (label, catalog) = match &release.label_info {
        Some(l) => if l.len() > 0 {
            (opt_chars(&l[0].label_name), opt_chars(&l[0].catalog_number))
        } else {
            (None, None)
        },
        None => (None, None),
    };

    lines.push(line_of("Release ID", Some(chars_of(release.id.as_str()))));
    lines.push(line_of("Artist", artist));
    lines.push(line_of("Album", Some(chars_of(release.title.as_str()))));
    lines.push(line_of("Date", date));
    lines.push(line_of("Genre", opt_chars(&genre)));
    lines.push(line_of("Status", opt_chars(&release.status)));
    lines.push(line_of("Format", Some(format_text)));
    lines.push(line_of("Label", label));
    lines.push(line_of("Catalog#", catalog));
    lines.push(line_of("Barcode", opt_chars(&release.barcode)));
    lines.push(line_of("Country", opt_chars(&release.country)));
    lines.push(line_of("Released", opt_chars(&release.date)));
    assert(string_views(lines@) =~= expect);
    lines
}

} // verus!

verus! {

/// What a credit is compared by: its name, join phrase and artist.
pub open spec fn credit_view(c: CreditInfo) -> (Seq<char>, Option<Seq<char>>, u64) {
    (c.name@, opt_view(c.joinphrase), c.artist)
}

/// What an optional credit list is compared by.
pub open spec fn credits_view(o: Option<Vec<CreditInfo>>) -> Option<Seq<(Seq<char>, Option<Seq<char>>, u64)>> {
    match o {
        Some(v) => Some(v@.map_values(|c: CreditInfo| credit_view(c))),
        None => None,
    }
}

/// Whether two optional credit lists are equal.
pub fn same_credits(a: &Option<Vec<CreditInfo>>, b: &Option<Vec<CreditInfo>>) -> (r: bool)
    ensures
        r == (credits_view(*a) == credits_view(*b)),
{
    match (a, b) {
        (None, None) => true,
        (Some(x), Some(y)) => {
            if x.len() != y.len() {
                assert(credits_view(*a)->0.len() != credits_view(*b)->0.len());
                return false;
            }
            for i in 0..x.len()
                invariant
                    x@.len() == y@.len(),
                    *a == Some(*x),
                    *b == Some(*y),
                    forall|j: int| 0 <= j < i ==> credit_view(#[trigger] x@[j]) == credit_view(y@[j]),
            {
                let same = same_chars(chars_of(x[i].name.as_str()).as_slice(), chars_of(y[i].name.as_str()).as_slice())
                    && same_text(&x[i].joinphrase, &y[i].joinphrase) && x[i].artist == y[i].artist;
                if !same {
                    assert(credits_view(*a)->0[i as int] != credits_view(*b)->0[i as int]);
                    return false;
                }
            }
            assert(credits_view(*a)->0 =~= credits_view(*b)->0);
            true
        },
        _ => false,
    }
}

/// A track length in milliseconds as minutes and zero-padded seconds.
pub open spec fn duration_text(ms: u32) -> Seq<char> {
    let total = ms / 1000;
    decimal((total / 60) as nat) + ":"@ + pad_left(decimal((total % 60) as nat), 2, '0')
}

/// The tracklist line of a track: its number right-aligned in two columns, the
/// recording title, the track's own artists when they differ from the album's,
/// and the length when known.
pub open spec fn track_line(t: TrackInfo, rec: RecordingInfo, album_credit: Option<Vec<CreditInfo>>) -> Seq<char> {
    let head = pad_left(t.number@, 2, ' ') + ". "@ + rec.title@;
    let with_artist = if credits_view(t.artist_credit) != credits_view(album_credit)
        && t.artist_credit is Some {
        head + " - "@ + credit_phrase(t.artist_credit->0@)
    } else {
        head
    };
    let length = match t.length {
        Some(x) => Some(x),
        None => rec.length,
    };
    match length {
        Some(ms) => with_artist + " ("@ + duration_text(ms) + ")"@,
        None => with_artist,
    }
}

/// The lines of a run of tracks, and whether the run stopped at a track
/// without a recording.
pub open spec fn tracks_listing(tracks: Seq<TrackInfo>, album_credit: Option<Vec<CreditInfo>>) -> (Seq<Seq<char>>, bool)
    decreases tracks.len(),
{
    if tracks.len() == 0 {
        (Seq::empty(), false)
    } else {
        match tracks[0].recording {
            None => (Seq::empty(), true),
            Some(rec) => {
                let rest = tracks_listing(tracks.drop_first(), album_credit);
                (seq![track_line(tracks[0], rec, album_credit)] + rest.0, rest.1)
            },
        }
    }
}

/// The tracks of a medium.
pub open spec fn medium_tracks(m: MediumInfo) -> Seq<TrackInfo> {
    match m.tracks {
        Some(t) => t@,
        None => Seq::empty(),
    }
}

/// The lines of the tracks on the media that carry the disc, and whether
/// listing stopped at a track without a recording.
pub open spec fn media_listing(media: Seq<MediumInfo>, disc_id: Seq<char>, album_credit: Option<Vec<CreditInfo>>) -> (Seq<Seq<char>>, bool)
    decreases media.len(),
{
    if media.len() == 0 {
        (Seq::empty(), false)
    } else if !medium_has_disc(media[0], disc_id) {
        media_listing(media.drop_first(), disc_id, album_credit)
    } else {
        let l = tracks_listing(medium_tracks(media[0]), album_credit);
        if l.1 {
            l
        } else {
            let rest = media_listing(media.drop_first(), disc_id, album_credit);
            (l.0 + rest.0, rest.1)
        }
    }
}

/// The media of a release.
pub open spec fn release_media(r: ReleaseInfo) -> Seq<MediumInfo> {
    match r.media {
        Some(m) => m@,
        None => Seq::empty(),
    }
}

/// Why a tracklist could not be completed.
#[derive(Debug, Clone, Copy, PartialEq, Eq, Structural)]
pub enum TrackListError {
    /// There is no release to list.
    NoReleases,
    /// A track has no recording.
    NoRecording,
}

impl TrackListError {
    /// The message shown for the error.
    pub fn message(&self) -> (r: &'static str)
        ensures
            r@ == (match self {
                TrackListError::NoReleases => "no releases found"@,
                TrackListError::NoRecording => "no recording"@,
            }),
    {
        match self {
            TrackListError::NoReleases => "no releases found",
            TrackListError::NoRecording => "no recording",
        }
    }
}

/// The lines of a tracklist as far as it could be written, and the error that
/// stopped it, if any.
#[derive(Debug)]
pub struct TrackListing {
    pub lines: Vec<String>,
    pub error: Option<TrackListError>,
}

/// The heading of the tracklist.
pub open spec fn tracklist_heading() -> Seq<Seq<char>> {
    seq![Seq::empty(), "Tracklist:"@, Seq::new(60, |i: int| '-')]
}

fn duration_chars(ms: u32) -> (r: Vec<char>)
    ensures
        r@ == duration_text(ms),
{
    let total = ms / 1000;
    let mut r = decimal_digits((total / 60) as u64);
    r.push(':');
    let secs = decimal_digits((total % 60) as u64);
    let padded = padded_left(secs.as_slice(), 2, '0');
    extend(&mut r, padded.as_slice());
    assert(r@ == decimal((total / 60) as nat) + ":"@ + pad_left(decimal((total % 60) as nat), 2, '0')) by {
        reveal_strlit(":");
    }
    r
}

fn track_line_text(t: &TrackInfo, rec: &RecordingInfo, album_credit: &Option<Vec<CreditInfo>>) -> (r: String)
    ensures
        r@ == track_line(*t, *rec, *album_credit),
{
    let num = chars_of(t.number.as_str());
    let mut line = padded_left(num.as_slice(), 2, ' ');
    extend(&mut line, chars_of(". ").as_slice());
    extend(&mut line, chars_of(rec.title.as_str()).as_slice());
    if !same_credits(&t.artist_credit, album_credit) {
        if let Some(phrase) = artist_credit_phrase(&t.artist_credit) {
            extend(&mut line, chars_of(" - ").as_slice());
            extend(&mut line, chars_of(phrase.as_str()).as_slice());
        }
    }
    let length = match t.length {
        Some(x) => Some(x),
        None => rec.length,
    };
    if let Some(ms) = length {
        extend(&mut line, chars_of(" (").as_slice());
        extend(&mut line, duration_chars(ms).as_slice());
        extend(&mut line, chars_of(")").as_slice());
    }
    string_of(line.as_slice())
}

/// The tracklist of the chosen (last) release, restricted to the media that
/// carry the disc `discid`.
#[verifier::loop_isolation(false)]
pub fn track_lines(releases: &Vec<ReleaseInfo>, discid: &str) -> (r: TrackListing)
    ensures
        releases@.len() == 0 ==> r.lines@.len() == 0 && r.error == Some(TrackListError::NoReleases),
        releases@.len() > 0 ==> {
            let l = media_listing(release_media(releases@.last()), discid@, releases@.last().artist_credit);
            &&& string_views(r.lines@) == tracklist_heading() + l.0
            &&& r.error == (if l.1 { Some(TrackListError::NoRecording) } else { None })
        },
{
    let mut lines: Vec<String> = Vec::new();
    if releases.len() == 0 {
        return TrackListing { lines, error: Some(TrackListError::NoReleases) };
    }
    let release = &releases[releases.len() - 1];
    let album_credit = &release.artist_credit;
    let ghost all_media = release_media(*release);
    let ghost total = media_listing(all_media, discid@, *album_credit);
    lines.push(String::new());
    lines.push(String::from_str("Tracklist:"));
    let mut rule: Vec<char> = Vec::new();
    extend_repeat(&mut rule, '-', 60);
    lines.push(string_of(rule.as_slice()));
    assert(string_views(lines@) =~= tracklist_heading());
    let ghost heading = string_views(lines@);
    let empty: Vec<MediumInfo> = Vec::new();
    let media: &Vec<MediumInfo> = match &release.media {
        Some(m) => m,
        None => &empty,
    };
    assert(media@ == all_media);
    assert(all_media.skip(0) == all_media);
    assert(string_views(lines@).skip(3) =~= Seq::<Seq<char>>::empty());
    for i in 0..media.len()
        invariant
            string_views(lines@).len() >= 3,
            string_views(lines@).take(3) == heading,
            total.0 == string_views(lines@).skip(3) + media_listing(all_media.skip(i as int), discid@, *album_credit).0,
            total.1 == media_listing(all_media.skip(i as int), discid@, *album_credit).1,
    {
        let ghost rest = all_media.skip(i as int);
        assert(rest.drop_first() == all_media.skip(i + 1));
        assert(rest[0] == media@[i as int]);
        let medium = &media[i];
        if has_disc_id(medium, discid) {
            let empty_tracks: Vec<TrackInfo> = Vec::new();
            let tracks: &Vec<TrackInfo> = match &medium.tracks {
                Some(t) => t,
                None => &empty_tracks,
            };
            let ghost ts = medium_tracks(*medium);
            assert(tracks@ == ts);
            let ghost base = string_views(lines@);
            assert(ts.skip(0) == ts);
            assert(base.skip(base.len() as int) =~= Seq::<Seq<char>>::empty());
            for j in 0..tracks.len()
                invariant
                    string_views(lines@).len() >= base.len(),
                    string_views(lines@).take(base.len() as int) == base,
                    tracks_listing(ts, *album_credit).0 == string_views(lines@).skip(base.len() as int)
                        + tracks_listing(ts.skip(j as int), *album_credit).0,
                    tracks_listing(ts, *album_credit).1 == tracks_listing(ts.skip(j as int), *album_credit).1,
            {
                let ghost tr = ts.skip(j as int);
                assert(tr.drop_first() == ts.skip(j + 1));
                assert(tr[0] == tracks@[j as int]);
                let track = &tracks[j];
                let ghost before = string_views(lines@);
                match &track.recording {
                    None => {
                        assert(tracks_listing(tr, *album_credit).0 =~= Seq::<Seq<char>>::empty());
                        assert(string_views(lines@) =~= heading + string_views(lines@).skip(3));
                        assert(string_views(lines@).skip(3) =~= base.skip(3) + string_views(lines@).skip(base.len() as int));
                        return TrackListing { lines, error: Some(TrackListError::NoRecording) };
                    },
                    Some(rec) => {
                        let line = track_line_text(track, rec, album_credit);
                        lines.push(line);
                        assert(string_views(lines@) =~= before.push(line@));
                        assert(string_views(lines@).take(base.len() as int) =~= base);
                        assert(string_views(lines@).skip(base.len() as int) =~= before.skip(base.len() as int).push(line@));
                    },
                }
            }
            assert(ts.skip(tracks@.len() as int) =~= Seq::<TrackInfo>::empty());
            assert(string_views(lines@).skip(3) =~= base.skip(3) + string_views(lines@).skip(base.len() as int));
            assert(string_views(lines@).take(3) =~= heading);
        }
    }
    assert(all_media.skip(media@.len() as int) =~= Seq::<MediumInfo>::empty());
    assert(string_views(lines@) =~= heading + string_views(lines@).skip(3));
    TrackListing { lines, error: None }
}

} // verus!

verus! {

/// The releases that are kept all pass the filters, every release that passes
/// them is kept, filtering the result again changes nothing, and with no
/// filter set every release is kept.
pub proof fn law_release_filter(releases: Seq<ReleaseInfo>, f: crate::config::FilterConfig)
    ensures
        ({
            let p = |x: ReleaseInfo| keeps(x, f);
            let kept = releases.filter(p);
            &&& forall|i: int| 0 <= i < kept.len() ==> keeps(#[trigger] kept[i], f)
            &&& forall|i: int| 0 <= i < releases.len() && keeps(releases[i], f) ==> #[trigger] kept.contains(releases[i])
            &&& kept.filter(p) == kept
            &&& (f.barcode is None && f.country is None && f.date is None) ==> kept == releases
        }),
{
    let p = |x: ReleaseInfo| keeps(x, f);
    let kept = releases.filter(p);
    releases.filter_lemma(p);
    crate::text::lemma_filter_all(kept, p);
    if f.barcode is None && f.country is None && f.date is None {
        crate::text::lemma_filter_all(releases, p);
    }
}

} // verus!

verus! {

/// Whether `a` is obtained from `b` by leaving out elements, keeping the order
/// of the rest.
pub open spec fn is_subsequence<A>(a: Seq<A>, b: Seq<A>) -> bool {
    exists|idx: Seq<int>|
        #![trigger idx.len()]
        idx.len() == a.len() && (forall|i: int| 0 <= i < idx.len() ==> 0 <= #[trigger] idx[i] < b.len()
            && a[i] == b[idx[i]]) && (forall|i: int, j: int| 0 <= i < j < idx.len() ==> #[trigger] idx[i] < #[trigger] idx[j])
}

/// Filtering gives a subsequence.
pub proof fn lemma_filter_subsequence<A>(s: Seq<A>, p: spec_fn(A) -> bool)
    ensures
        is_subsequence(s.filter(p), s),
    decreases s.len(),
{
    reveal_with_fuel(Seq::<_>::filter, 1);
    if s.len() == 0 {
        let idx = Seq::<int>::empty();
        assert(idx.len() == s.filter(p).len());
    } else {
        lemma_filter_subsequence(s.drop_last(), p);
        let t = s.drop_last().filter(p);
        let idx0 = choose|idx: Seq<int>|
            #![trigger idx.len()]
            idx.len() == t.len() && (forall|i: int| 0 <= i < idx.len() ==> 0 <= #[trigger] idx[i] < s.drop_last().len()
                && t[i] == s.drop_last()[idx[i]]) && (forall|i: int, j: int| 0 <= i < j < idx.len() ==> #[trigger] idx[i] < #[trigger] idx[j]);
        if p(s.last()) {
            let idx = idx0.push(s.len() - 1);
            assert(s.filter(p) == t.push(s.last()));
            assert(idx.len() == s.filter(p).len());
            assert forall|i: int| 0 <= i < idx.len() implies 0 <= #[trigger] idx[i] < s.len() && s.filter(p)[i] == s[idx[i]] by {
                if i < idx0.len() {
                    assert(idx[i] == idx0[i]);
                }
            }
            assert forall|i: int, j: int| 0 <= i < j < idx.len() implies #[trigger] idx[i] < #[trigger] idx[j] by {
                if j < idx0.len() {
                    assert(idx0[i] < idx0[j]);
                } else {
                    assert(idx[i] == idx0[i]);
                }
            }
        } else {
            assert(s.filter(p) == t);
            assert(idx0.len() == s.filter(p).len());
            assert forall|i: int| 0 <= i < idx0.len() implies 0 <= #[trigger] idx0[i] < s.len() && s.filter(p)[i] == s[idx0[i]] by {
                assert(s.drop_last()[idx0[i]] == s[idx0[i]]);
            }
        }
    }
}

proof fn lemma_filter_narrower<A>(s: Seq<A>, p1: spec_fn(A) -> bool, p2: spec_fn(A) -> bool)
    requires
        forall|x: A| #[trigger] p2(x) ==> p1(x),
    ensures
        s.filter(p2) == s.filter(p1).filter(p2),
    decreases s.len(),
{
    reveal_with_fuel(Seq::<_>::filter, 1);
    if s.len() > 0 {
        lemma_filter_narrower(s.drop_last(), p1, p2);
        let t = s.drop_last().filter(p1);
        if p1(s.last()) {
            assert(s.filter(p1) == t.push(s.last()));
            assert(s.filter(p1).drop_last() == t);
        } else {
            assert(s.filter(p1) == t);
        }
    }
}

/// Whether filter settings `f2` ask at least what `f1` asks: each of the
/// barcode, country and date filters of `f1` is unset or set alike in `f2`.
pub open spec fn narrows(f2: crate::config::FilterConfig, f1: crate::config::FilterConfig) -> bool {
    &&& (f1.barcode is None || opt_view(f1.barcode) == opt_view(f2.barcode))
    &&& (f1.country is None || opt_view(f1.country) == opt_view(f2.country))
    &&& (f1.date is None || opt_view(f1.date) == opt_view(f2.date))
}

/// Setting more filters keeps a subsequence of what fewer filters keep, which
/// is itself a subsequence of all releases: the releases kept under `f2` are
/// those kept under `f1`, filtered again under `f2`.
pub proof fn law_more_filters_keep_fewer(releases: Seq<ReleaseInfo>, f1: crate::config::FilterConfig, f2: crate::config::FilterConfig)
    requires
        narrows(f2, f1),
    ensures
        ({
            let kept1 = releases.filter(|x: ReleaseInfo| keeps(x, f1));
            let kept2 = releases.filter(|x: ReleaseInfo| keeps(x, f2));
            &&& kept2 == kept1.filter(|x: ReleaseInfo| keeps(x, f2))
            &&& is_subsequence(kept2, kept1)
            &&& is_subsequence(kept1, releases)
        }),
{
    let p1 = |x: ReleaseInfo| keeps(x, f1);
    let p2 = |x: ReleaseInfo| keeps(x, f2);
    assert forall|x: ReleaseInfo| #[trigger] p2(x) implies p1(x) by {}
    lemma_filter_narrower(releases, p1, p2);
    lemma_filter_subsequence(releases.filter(p1), p2);
    lemma_filter_subsequence(releases, p1);
}

/// What a release must satisfy to pass the filters: the country filter `c`
/// asks for a release whose country is `c` (one with no country fails it); the
/// date filter asks for a date holding the given text; the barcode filter asks,
/// for an empty search, for no barcode, and otherwise for a barcode holding the
/// search with its hyphens and spaces removed.
pub open spec fn meets_filters(x: ReleaseInfo, f: crate::config::FilterConfig) -> bool {
    &&& f.country matches Some(c) ==> x.country matches Some(y) && y@ == c@
    &&& f.date matches Some(d) ==> contains(text_or_empty(x.date), d@)
    &&& f.barcode matches Some(b) ==> if b@.len() == 0 {
        text_or_empty(x.barcode).len() == 0
    } else {
        contains(text_or_empty(x.barcode), b@.filter(|c: char| c != '-' && c != ' '))
    }
}

/// The releases kept by the filters are exactly those that meet them: every
/// kept release meets each filter that is set (so with a country filter `c`
/// every kept release has country `c`), and every release that meets them is
/// kept.
pub proof fn law_kept_releases_meet_filters(releases: Seq<ReleaseInfo>, f: crate::config::FilterConfig)
    ensures
        ({
            let kept = releases.filter(|x: ReleaseInfo| keeps(x, f));
            &&& forall|i: int| 0 <= i < kept.len() ==> meets_filters(#[trigger] kept[i], f)
            &&& forall|i: int| 0 <= i < releases.len() && meets_filters(#[trigger] releases[i], f) ==> kept.contains(releases[i])
            &&& forall|x: ReleaseInfo| #[trigger] kept.contains(x) ==> releases.contains(x)
        }),
{
    let p = |x: ReleaseInfo| keeps(x, f);
    releases.filter_lemma(p);
    assert forall|x: ReleaseInfo| keeps(x, f) <==> meets_filters(x, f) by {}
    assert forall|x: ReleaseInfo| #[trigger] releases.filter(p).contains(x) implies releases.contains(x) by {
        releases.lemma_filter_contains_rev(p, x);
    }
}

} // verus!
