//! The ripper's cue sheet: which files hold which track, and the encoding
//! jobs made from it.
use vstd::prelude::*;

use crate::config::AudioFormat;
use crate::metadata::{group_at, hidden_overflows, hidden_view, hidden_would_overflow, MetaData, MetaView};
use crate::naming::{track_path, track_path_text};
use crate::pattern::{compile, first_group, regex_compiles, regex_first_group, Pattern};
use crate::text::{opt_view, same_chars, string_views};
use crate::text::{chars_of, has_prefix, split_whitespace, starts_with, string_of, trim, trimmed, views, words};

verus! {

/// The quoted file name on a `FILE` line; group 1 is the name.
pub const FILE_PATTERN: &'static str = "\"([^\"]+)\"";

/// One index of a track: its index number and the file it lies in.
#[derive(Debug)]
pub struct CueIndex {
    pub index: String,
    pub file: String,
}

/// A track of the cue sheet with its indices, in the order they appear.
#[derive(Debug)]
pub struct CueTrack {
    pub number: String,
    pub indices: Vec<CueIndex>,
}

/// What an index is: its number and its file.
pub open spec fn index_view(c: CueIndex) -> (Seq<char>, Seq<char>) {
    (c.index@, c.file@)
}

/// What a list of indices is.
pub open spec fn indices_view(s: Seq<CueIndex>) -> Seq<(Seq<char>, Seq<char>)> {
    s.map_values(|c: CueIndex| index_view(c))
}

/// The tracks of a list, by number, later entries taking precedence.
pub open spec fn cue_map(s: Seq<CueTrack>) -> Map<Seq<char>, Seq<(Seq<char>, Seq<char>)>>
    decreases s.len(),
{
    if s.len() == 0 {
        Map::empty()
    } else {
        cue_map(s.drop_last()).insert(s.last().number@, indices_view(s.last().indices@))
    }
}

/// Whether no track number occurs twice.
pub open spec fn numbers_unique(s: Seq<CueTrack>) -> bool {
    forall|i: int, j: int| 0 <= i < j < s.len() ==> #[trigger] s[i].number@ != #[trigger] s[j].number@
}

/// The state of reading a cue sheet: the tracks so far, and the current file and track.
pub struct CueState {
    pub tracks: Map<Seq<char>, Seq<(Seq<char>, Seq<char>)>>,
    pub file: Option<Seq<char>>,
    pub track: Option<Seq<char>>,
}

/// The state before the first line.
pub open spec fn cue_start() -> CueState {
    CueState { tracks: Map::empty(), file: None, track: None }
}

/// The state after one line, given the quoted name found on it (used for
/// `FILE` lines only): a `FILE` line sets the current file to that name; a
/// `TRACK` line starts an empty track named by its second word and makes it
/// current; an `INDEX` line adds its second word, with the current file, to the
/// current track. Lines are trimmed first; anything else is ignored.
pub open spec fn cue_step_given(st: CueState, line: Seq<char>, file_group: Option<Seq<char>>) -> CueState {
    let l = trimmed(line);
    if starts_with(l, "FILE"@) {
        match file_group {
            Some(f) => CueState { file: Some(f), ..st },
            None => st,
        }
    } else if starts_with(l, "TRACK"@) {
        let parts = words(l);
        if parts.len() >= 2 {
            CueState { tracks: st.tracks.insert(parts[1], Seq::empty()), track: Some(parts[1]), ..st }
        } else {
            st
        }
    } else if starts_with(l, "INDEX"@) {
        match (st.track, st.file) {
            (Some(t), Some(f)) => {
                let parts = words(l);
                if parts.len() >= 2 && st.tracks.contains_key(t) {
                    CueState { tracks: st.tracks.insert(t, st.tracks[t].push((parts[1], f))), ..st }
                } else {
                    st
                }
            },
            _ => st,
        }
    } else {
        st
    }
}

/// The state after one line, the quoted name of a `FILE` line being group 1
/// of `pattern` matched against the trimmed line.
pub open spec fn cue_step(st: CueState, line: Seq<char>, pattern: Seq<char>) -> CueState {
    cue_step_given(st, line, regex_first_group(pattern, trimmed(line)))
}

/// The state after all lines.
pub open spec fn cue_fold(lines: Seq<Seq<char>>, pattern: Seq<char>) -> CueState
    decreases lines.len(),
{
    if lines.len() == 0 {
        cue_start()
    } else {
        cue_step(cue_fold(lines.drop_last(), pattern), lines.last(), pattern)
    }
}

proof fn lemma_cue_map_get(s: Seq<CueTrack>, i: int)
    requires
        numbers_unique(s),
        0 <= i < s.len(),
    ensures
        cue_map(s).contains_key(s[i].number@),
        cue_map(s)[s[i].number@] == indices_view(s[i].indices@),
    decreases s.len(),
{
    if i < s.len() - 1 {
        lemma_cue_map_get(s.drop_last(), i);
    }
}

proof fn lemma_cue_map_absent(s: Seq<CueTrack>, k: Seq<char>)
    requires
        forall|i: int| 0 <= i < s.len() ==> #[trigger] s[i].number@ != k,
    ensures
        !cue_map(s).contains_key(k),
    decreases s.len(),
{
    if s.len() > 0 {
        lemma_cue_map_absent(s.drop_last(), k);
    }
}

proof fn lemma_cue_map_update(s: Seq<CueTrack>, i: int, e: CueTrack)
    requires
        numbers_unique(s),
        0 <= i < s.len(),
        e.number@ == s[i].number@,
    ensures
        cue_map(s.update(i, e)) == cue_map(s).insert(e.number@, indices_view(e.indices@)),
        numbers_unique(s.update(i, e)),
    decreases s.len(),
{
    let t = s.update(i, e);
    assert(numbers_unique(t)) by {
        assert forall|a: int, b: int| 0 <= a < b < t.len() implies #[trigger] t[a].number@ != #[trigger] t[b].number@ by {
            assert(s[a].number@ != s[b].number@);
        }
    }
    if i == s.len() - 1 {
        assert(t.drop_last() == s.drop_last());
        assert forall|j: int| 0 <= j < s.drop_last().len() implies #[trigger] s.drop_last()[j].number@ != e.number@ by {
            assert(s[j].number@ != s[i].number@);
        }
        lemma_cue_map_absent(s.drop_last(), e.number@);
        assert(cue_map(t) =~= cue_map(s).insert(e.number@, indices_view(e.indices@)));
    } else {
        assert(t.drop_last() == s.drop_last().update(i, e));
        lemma_cue_map_update(s.drop_last(), i, e);
        assert(s.last().number@ != e.number@);
        assert(cue_map(t) =~= cue_map(s).insert(e.number@, indices_view(e.indices@)));
    }
}

fn track_position(tracks: &Vec<CueTrack>, number: &[char]) -> (r: Option<usize>)
    ensures
        match r {
            Some(i) => i < tracks@.len() && tracks@[i as int].number@ == number@,
            None => forall|i: int| 0 <= i < tracks@.len() ==> #[trigger] tracks@[i].number@ != number@,
        },
{
    for i in 0..tracks.len()
        invariant
            forall|j: int| 0 <= j < i ==> #[trigger] tracks@[j].number@ != number@,
    {
        let n = chars_of(tracks[i].number.as_str());
        if same_chars(n.as_slice(), number) {
            return Some(i);
        }
    }
    None
}

/// Why a cue sheet could not be read.
#[derive(Debug)]
pub enum CueError {
    /// The pattern of `FILE` lines was refused by the regular-expression engine.
    InvalidPattern(regex::Error),
}

/// Compiles the pattern of `FILE` lines.
pub fn file_pattern() -> (r: Result<Pattern, CueError>)
    ensures
        r is Ok <==> regex_compiles(FILE_PATTERN@),
        r matches Ok(p) ==> p.source() == FILE_PATTERN@,
{
    match compile(FILE_PATTERN) {
        Ok(p) => Ok(p),
        Err(e) => Err(CueError::InvalidPattern(e)),
    }
}

/// The reading of a cue sheet in progress: the tracks so far, and the current
/// file and track.
#[derive(Debug)]
pub struct CueReader {
    pub tracks: Vec<CueTrack>,
    pub file: Option<String>,
    pub track: Option<String>,
}

impl CueReader {
    /// What the reading stands at.
    pub open spec fn state(&self) -> CueState {
        CueState { tracks: cue_map(self.tracks@), file: opt_view(self.file), track: opt_view(self.track) }
    }

    /// Whether no track number occurs twice.
    pub open spec fn wf(&self) -> bool {
        numbers_unique(self.tracks@)
    }

    /// A reading before the first line.
    pub fn new() -> (r: CueReader)
        ensures
            r.wf(),
            r.state() == cue_start(),
    {
        let r = CueReader { tracks: Vec::new(), file: None, track: None };
        assert(r.state().tracks =~= Map::<Seq<char>, Seq<(Seq<char>, Seq<char>)>>::empty());
        r
    }
}

/// Reads one line of a cue sheet, given the quoted name found on it by the
/// pattern of `FILE` lines (looked at for `FILE` lines only).
pub fn read_cue_line(reader: &mut CueReader, line: &str, file_group: Option<String>)
    requires
        old(reader).wf(),
    ensures
        final(reader).wf(),
        final(reader).state() == cue_step_given(old(reader).state(), line@, opt_view(file_group)),
{
    let ghost st = reader.state();
    let file_word = chars_of("FILE");
    let track_word = chars_of("TRACK");
    let index_word = chars_of("INDEX");
    let raw = chars_of(line);
    let line = trim(raw.as_slice());
    if has_prefix(line.as_slice(), file_word.as_slice()) {
        if let Some(f) = file_group {
            reader.file = Some(f);
        }
    } else if has_prefix(line.as_slice(), track_word.as_slice()) {
        let parts = split_whitespace(line.as_slice());
        if parts.len() >= 2 {
            let number = string_of(parts[1].as_slice());
            assert(views(parts@)[1] == parts@[1]@);
            let ghost old_tracks = reader.tracks@;
            let mut tracks = Vec::new();
            std::mem::swap(&mut tracks, &mut reader.tracks);
            match track_position(&tracks, parts[1].as_slice()) {
                Some(i) => {
                    let e = CueTrack { number: string_of(parts[1].as_slice()), indices: Vec::new() };
                    proof {
                        lemma_cue_map_update(old_tracks, i as int, e);
                        assert(indices_view(e.indices@) =~= Seq::<(Seq<char>, Seq<char>)>::empty());
                    }
                    tracks.set(i, e);
                },
                None => {
                    let e = CueTrack { number: string_of(parts[1].as_slice()), indices: Vec::new() };
                    tracks.push(e);
                    assert(tracks@.drop_last() == old_tracks);
                    assert(indices_view(e.indices@) =~= Seq::<(Seq<char>, Seq<char>)>::empty());
                    assert(numbers_unique(tracks@)) by {
                        assert forall|a: int, b: int| 0 <= a < b < tracks@.len() implies #[trigger] tracks@[a].number@
                            != #[trigger] tracks@[b].number@ by {
                            if b < old_tracks.len() {
                                assert(old_tracks[a].number@ != old_tracks[b].number@);
                            }
                        }
                    }
                },
            }
            reader.tracks = tracks;
            reader.track = Some(number);
        }
    } else if has_prefix(line.as_slice(), index_word.as_slice()) {
        if let (Some(track), Some(file_name)) = (&reader.track, &reader.file) {
            let parts = split_whitespace(line.as_slice());
            if parts.len() >= 2 {
                assert(views(parts@)[1] == parts@[1]@);
                let t = chars_of(track.as_str());
                let file_name = file_name.clone();
                let ghost old_tracks = reader.tracks@;
                let mut tracks = Vec::new();
                std::mem::swap(&mut tracks, &mut reader.tracks);
                match track_position(&tracks, t.as_slice()) {
                    Some(i) => {
                        let mut entry = CueTrack { number: String::new(), indices: Vec::new() };
                        tracks.set_and_swap(i, &mut entry);
                        let ghost before = entry;
                        entry.indices.push(CueIndex { index: string_of(parts[1].as_slice()), file: file_name });
                        assert(indices_view(entry.indices@) =~= indices_view(before.indices@).push(
                            (parts@[1]@, st.file->0),
                        ));
                        proof {
                            lemma_cue_map_get(old_tracks, i as int);
                            lemma_cue_map_update(old_tracks, i as int, entry);
                        }
                        tracks.set(i, entry);
                        assert(tracks@ == old_tracks.update(i as int, entry));
                    },
                    None => {
                        proof {
                            lemma_cue_map_absent(old_tracks, t@);
                        }
                    },
                }
                reader.tracks = tracks;
            }
        }
    }
}

/// Reads the tracks of a cue sheet, given its lines and the pattern of `FILE` lines.
pub fn parse_cue_lines(pattern: &Pattern, lines: &Vec<String>) -> (r: Vec<CueTrack>)
    ensures
        numbers_unique(r@),
        cue_map(r@) == cue_fold(string_views(lines@), pattern.source()).tracks,
{
    let ghost all = string_views(lines@);
    let mut reader = CueReader::new();
    let file_word = chars_of("FILE");
    for n in 0..lines.len()
        invariant
            all == string_views(lines@),
            file_word@ == "FILE"@,
            reader.wf(),
            reader.state() == cue_fold(all.take(n as int), pattern.source()),
    {
        assert(all.take(n + 1).drop_last() == all.take(n as int));
        assert(all.take(n + 1).last() == lines@[n as int]@);
        let raw = chars_of(lines[n].as_str());
        let trimmed_line = trim(raw.as_slice());
        let group = if has_prefix(trimmed_line.as_slice(), file_word.as_slice()) {
            let text = string_of(trimmed_line.as_slice());
            first_group(pattern, text.as_str())
        } else {
            None
        };
        read_cue_line(&mut reader, lines[n].as_str(), group);
    }
    assert(all.take(lines@.len() as int) == all);
    reader.tracks
}

} // verus!

verus! {

/// Whether `a` comes no later than `b` in the order of strings (lexicographic
/// by character, which is the order of their UTF-8 bytes).
pub open spec fn text_le(a: Seq<char>, b: Seq<char>) -> bool
    decreases a.len(),
{
    if a.len() == 0 {
        true
    } else if b.len() == 0 {
        false
    } else if a[0] != b[0] {
        a[0] < b[0]
    } else {
        text_le(a.drop_first(), b.drop_first())
    }
}

/// Whether `a` comes no later than `b`.
pub fn text_leq(a: &[char], b: &[char]) -> (r: bool)
    ensures
        r == text_le(a@, b@),
{
    let mut i: usize = 0;
    assert(a@.skip(0) == a@);
    assert(b@.skip(0) == b@);
    while i < a.len() && i < b.len() && a[i] == b[i]
        invariant
            i <= a@.len(),
            i <= b@.len(),
            text_le(a@, b@) == text_le(a@.skip(i as int), b@.skip(i as int)),
        decreases a.len() - i,
    {
        assert(a@.skip(i as int).drop_first() == a@.skip(i + 1));
        assert(b@.skip(i as int).drop_first() == b@.skip(i + 1));
        i += 1;
    }
    if i == a.len() {
        true
    } else if i == b.len() {
        false
    } else {
        a[i] < b[i]
    }
}

/// Where a stable insertion puts `x`: before the first entry whose index
/// comes after `x`'s.
pub open spec fn insertion_point(s: Seq<CueIndex>, x: CueIndex) -> int
    decreases s.len(),
{
    if s.len() == 0 {
        0
    } else if !text_le(s[0].index@, x.index@) {
        0
    } else {
        1 + insertion_point(s.drop_first(), x)
    }
}

/// The indices sorted by index number, equal numbers keeping their order
/// (`sort_by_key` on the index).
pub open spec fn sorted_indices(s: Seq<CueIndex>) -> Seq<CueIndex>
    decreases s.len(),
{
    if s.len() == 0 {
        s
    } else {
        let t = sorted_indices(s.drop_last());
        t.insert(insertion_point(t, s.last()), s.last())
    }
}

proof fn lemma_insertion_point(s: Seq<CueIndex>, x: CueIndex, p: int)
    requires
        0 <= p <= s.len(),
        forall|q: int| 0 <= q < p ==> text_le(#[trigger] s[q].index@, x.index@),
        p == s.len() || !text_le(s[p].index@, x.index@),
    ensures
        insertion_point(s, x) == p,
    decreases p,
{
    if p > 0 {
        assert(text_le(s[0].index@, x.index@));
        lemma_insertion_point(s.drop_first(), x, p - 1);
    }
}

/// Sorts the indices of a track by index number, keeping equal ones in order.
pub fn sort_indices(indices: Vec<CueIndex>) -> (r: Vec<CueIndex>)
    ensures
        r@ == sorted_indices(indices@),
{
    let ghost all = indices@;
    let mut out: Vec<CueIndex> = Vec::new();
    for x in it: indices
        invariant
            it.seq() == all,
            out@ == sorted_indices(all.take(it.index() as int)),
    {
        let ghost i = it.index();
        assert(all.take(i + 1).drop_last() == all.take(i as int));
        assert(all.take(i + 1).last() == x);
        let key = chars_of(x.index.as_str());
        let mut p: usize = 0;
        while p < out.len() && text_leq(chars_of(out[p].index.as_str()).as_slice(), key.as_slice())
            invariant
                p <= out@.len(),
                key@ == x.index@,
                forall|q: int| 0 <= q < p ==> text_le(#[trigger] out@[q].index@, x.index@),
            decreases out.len() - p,
        {
            p += 1;
        }
        proof {
            lemma_insertion_point(out@, x, p as int);
        }
        out.insert(p, x);
    }
    assert(all.take(all.len() as int) == all);
    out
}

/// The digits of a track number without its leading zeros (`trim_start_matches('0')`).
pub open spec fn without_leading_zeros(s: Seq<char>) -> Seq<char>
    decreases s.len(),
{
    if s.len() > 0 && s[0] == '0' {
        without_leading_zeros(s.drop_first())
    } else {
        s
    }
}

fn strip_leading_zeros(s: &[char]) -> (r: Vec<char>)
    ensures
        r@ == without_leading_zeros(s@),
{
    let mut i: usize = 0;
    assert(s@.skip(0) == s@);
    while i < s.len() && s[i] == '0'
        invariant
            i <= s@.len(),
            without_leading_zeros(s@) == without_leading_zeros(s@.skip(i as int)),
        decreases s.len() - i,
    {
        assert(s@.skip(i as int).drop_first() == s@.skip(i + 1));
        i += 1;
    }
    let mut r: Vec<char> = Vec::new();
    for k in i..s.len()
        invariant
            r@ == s@.subrange(i as int, k as int),
    {
        r.push(s[k]);
    }
    assert(s@.subrange(i as int, s@.len() as int) == s@.skip(i as int));
    r
}

} // verus!

verus! {

proof fn lemma_sorted_len(s: Seq<CueIndex>)
    ensures
        sorted_indices(s).len() == s.len(),
    decreases s.len(),
{
    if s.len() > 0 {
        lemma_sorted_len(s.drop_last());
        lemma_insertion_point_bounds(sorted_indices(s.drop_last()), s.last());
    }
}

proof fn lemma_insertion_point_bounds(s: Seq<CueIndex>, x: CueIndex)
    ensures
        0 <= insertion_point(s, x) <= s.len(),
    decreases s.len(),
{
    if s.len() > 0 {
        lemma_insertion_point_bounds(s.drop_first(), x);
    }
}

/// One encoding job: the ripped files to join, the output file name below the
/// album directory, and the tags.
#[derive(Debug)]
pub struct TrackJob {
    pub wav_files: Vec<String>,
    pub file_out: String,
    pub meta: MetaData,
}

/// The encoding jobs of one cue track, and whether the hidden-track job could
/// not be made (the program stops after the jobs before it).
#[derive(Debug)]
pub struct TrackPlan {
    pub jobs: Vec<TrackJob>,
    pub hidden_failed: bool,
}

/// The ripped files of a track in the order of their index numbers.
pub open spec fn segment_files(t: CueTrack) -> Seq<Seq<char>> {
    sorted_indices(t.indices@).map_values(|c: CueIndex| c.file@)
}

/// The key under which a track's tags are found: a track in two pieces (a
/// hidden pregap and the track) is track `1`; any other is its number without
/// leading zeros.
pub open spec fn track_key(t: CueTrack) -> Seq<char> {
    if segment_files(t).len() == 2 {
        "1"@
    } else {
        without_leading_zeros(t.number@)
    }
}

/// Whether the metadata has the tracks map and the track's entry in it.
pub open spec fn plannable(t: CueTrack, meta: MetaView) -> bool {
    match group_at(meta, "tracks"@) {
        Some(tracks) => group_at(tracks, track_key(t)) is Some,
        None => false,
    }
}

/// The tags of a plannable track.
pub open spec fn track_tags(t: CueTrack, meta: MetaView) -> MetaView {
    group_at(group_at(meta, "tracks"@)->0, track_key(t))->0
}

/// Whether a job joins `files` into `path` with the tags `meta`.
pub open spec fn job_is(j: TrackJob, files: Seq<Seq<char>>, path: Seq<char>, meta: MetaView) -> bool {
    string_views(j.wav_files@) == files && j.file_out@ == path && j.meta.deep() == meta
}

/// Whether the hidden-track job of a track can be made.
pub open spec fn hidden_possible(tags: MetaView) -> bool {
    !hidden_overflows(tags) && hidden_view(tags) is Some
}

/// Whether the metadata lets the jobs of the track be planned.
pub fn can_plan_cue_track(t: &CueTrack, meta: &MetaData) -> (r: bool)
    ensures
        r == plannable(*t, meta.deep()),
{
    proof {
        lemma_sorted_len(t.indices@);
    }
    match meta.get_map("tracks") {
        None => false,
        Some(tracks) => {
            let key = if t.indices.len() == 2 {
                chars_of("1")
            } else {
                strip_leading_zeros(chars_of(t.number.as_str()).as_slice())
            };
            let key_text = string_of(key.as_slice());
            tracks.get_map(key_text.as_str()).is_some()
        },
    }
}

fn file_names(segments: &Vec<CueIndex>, pick: Option<usize>) -> (r: Vec<String>)
    requires
        pick matches Some(k) ==> k < segments@.len(),
    ensures
        match pick {
            Some(k) => string_views(r@) == seq![segments@[k as int].file@],
            None => string_views(r@) == segments@.map_values(|c: CueIndex| c.file@),
        },
{
    let mut r: Vec<String> = Vec::new();
    match pick {
        Some(k) => {
            r.push(segments[k].file.clone());
            assert(string_views(r@) =~= seq![segments@[k as int].file@]);
        },
        None => {
            for i in 0..segments.len()
                invariant
                    string_views(r@) == segments@.take(i as int).map_values(|c: CueIndex| c.file@),
            {
                let ghost before = r@;
                r.push(segments[i].file.clone());
                assert(string_views(r@) =~= string_views(before).push(segments@[i as int].file@));
                assert(segments@.take(i + 1) == segments@.take(i as int).push(segments@[i as int]));
                assert(segments@.take(i + 1).map_values(|c: CueIndex| c.file@) =~= segments@.take(
                    i as int,
                ).map_values(|c: CueIndex| c.file@).push(segments@[i as int].file@));
            }
            assert(segments@.take(segments@.len() as int) == segments@);
        },
    }
    r
}

/// Plans the encoding jobs of one cue track: its pieces sorted by index number;
/// a track in two pieces gives track one from the second piece and then, from
/// the first piece, the hidden track before it; any other track gives one job
/// joining all its pieces.
pub fn plan_cue_track(t: CueTrack, meta: &MetaData, format: &AudioFormat, template: &str) -> (r: TrackPlan)
    requires
        plannable(t, meta.deep()),
    ensures
        ({
            let files = segment_files(t);
            let tags = track_tags(t, meta.deep());
            if files.len() == 2 {
                &&& r.jobs@.len() >= 1
                &&& job_is(r.jobs@[0], seq![files[1]], track_path_text(tags, *format, template@), tags)
                &&& if hidden_possible(tags) {
                    let h = hidden_view(tags)->0;
                    &&& !r.hidden_failed
                    &&& r.jobs@.len() == 2
                    &&& job_is(r.jobs@[1], seq![files[0]], track_path_text(h, *format, template@), h)
                } else {
                    r.hidden_failed && r.jobs@.len() == 1
                }
            } else {
                &&& !r.hidden_failed
                &&& r.jobs@.len() == 1
                &&& job_is(r.jobs@[0], files, track_path_text(tags, *format, template@), tags)
            }
        }),
{
    proof {
        lemma_sorted_len(t.indices@);
    }
    let ghost tv = t;
    let number = chars_of(t.number.as_str());
    let segments = sort_indices(t.indices);
    let tracks_map = match meta.get_map("tracks") {
        Some(m) => m,
        None => {
            assert(false);
            return TrackPlan { jobs: Vec::new(), hidden_failed: true };
        },
    };
    let mut jobs: Vec<TrackJob> = Vec::new();
    if segments.len() == 2 {
        let track_meta = match tracks_map.get_map("1") {
            Some(m) => m,
            None => {
                assert(false);
                return TrackPlan { jobs, hidden_failed: true };
            },
        };
        let file_out = track_path(track_meta, format, template);
        jobs.push(TrackJob { wav_files: file_names(&segments, Some(1)), file_out, meta: track_meta.copy() });
        if hidden_would_overflow(track_meta) {
            return TrackPlan { jobs, hidden_failed: true };
        }
        match MetaData::hidden_track(track_meta) {
            Some(hidden) => {
                let file_out = track_path(&hidden, format, template);
                jobs.push(TrackJob { wav_files: file_names(&segments, Some(0)), file_out, meta: hidden });
                TrackPlan { jobs, hidden_failed: false }
            },
            None => TrackPlan { jobs, hidden_failed: true },
        }
    } else {
        let key = string_of(strip_leading_zeros(number.as_slice()).as_slice());
        let track_meta = match tracks_map.get_map(key.as_str()) {
            Some(m) => m,
            None => {
                assert(false);
                return TrackPlan { jobs, hidden_failed: true };
            },
        };
        let file_out = track_path(track_meta, format, template);
        jobs.push(TrackJob { wav_files: file_names(&segments, None), file_out, meta: track_meta.copy() });
        TrackPlan { jobs, hidden_failed: false }
    }
}

} // verus!

verus! {

proof fn lemma_text_le_total(a: Seq<char>, b: Seq<char>)
    ensures
        text_le(a, b) || text_le(b, a),
        text_le(a, a),
    decreases a.len(),
{
    if a.len() > 0 && b.len() > 0 && a[0] == b[0] {
        lemma_text_le_total(a.drop_first(), b.drop_first());
    }
    if a.len() > 0 {
        lemma_text_le_total(a.drop_first(), a.drop_first());
    }
}

proof fn lemma_text_le_trans(a: Seq<char>, b: Seq<char>, c: Seq<char>)
    requires
        text_le(a, b),
        text_le(b, c),
    ensures
        text_le(a, c),
    decreases a.len(),
{
    if a.len() > 0 && b.len() > 0 && c.len() > 0 && a[0] == b[0] && b[0] == c[0] {
        lemma_text_le_trans(a.drop_first(), b.drop_first(), c.drop_first());
    }
}

/// Whether indices are in the order of their index numbers.
pub open spec fn indices_sorted(s: Seq<CueIndex>) -> bool {
    forall|i: int, j: int| 0 <= i < j < s.len() ==> text_le(#[trigger] s[i].index@, #[trigger] s[j].index@)
}

proof fn lemma_insertion_point_facts(s: Seq<CueIndex>, x: CueIndex)
    ensures
        0 <= insertion_point(s, x) <= s.len(),
        forall|q: int| 0 <= q < insertion_point(s, x) ==> text_le(#[trigger] s[q].index@, x.index@),
        insertion_point(s, x) < s.len() ==> !text_le(s[insertion_point(s, x)].index@, x.index@),
    decreases s.len(),
{
    if s.len() > 0 && text_le(s[0].index@, x.index@) {
        lemma_insertion_point_facts(s.drop_first(), x);
        assert forall|q: int| 0 <= q < insertion_point(s, x) implies text_le(#[trigger] s[q].index@, x.index@) by {
            if q > 0 {
                assert(s[q] == s.drop_first()[q - 1]);
            }
        }
    }
}

/// Sorting puts the indices in the order of their index numbers (so a pregap
/// numbered `00` comes before the track's `01`) and keeps exactly the same indices.
pub proof fn law_sorted_indices(s: Seq<CueIndex>)
    ensures
        indices_sorted(sorted_indices(s)),
        sorted_indices(s).to_multiset() == s.to_multiset(),
        sorted_indices(s).len() == s.len(),
    decreases s.len(),
{
    lemma_sorted_len(s);
    if s.len() > 0 {
        let t = sorted_indices(s.drop_last());
        let x = s.last();
        law_sorted_indices(s.drop_last());
        lemma_insertion_point_facts(t, x);
        let p = insertion_point(t, x);
        let r = t.insert(p, x);
        assert forall|i: int, j: int| 0 <= i < j < r.len() implies text_le(#[trigger] r[i].index@, #[trigger] r[j].index@) by {
            if j < p {
                assert(r[i] == t[i] && r[j] == t[j]);
            } else if j == p {
                assert(r[i] == t[i]);
            } else if i == p {
                assert(r[j] == t[j - 1]);
                lemma_text_le_total(t[p].index@, x.index@);
                if j - 1 > p {
                    lemma_text_le_trans(x.index@, t[p].index@, t[j - 1].index@);
                }
            } else if i < p {
                assert(r[i] == t[i] && r[j] == t[j - 1]);
            } else {
                assert(r[i] == t[i - 1] && r[j] == t[j - 1]);
            }
        }
        vstd::seq_lib::to_multiset_insert(t, p, x);
        vstd::seq_lib::to_multiset_build(s.drop_last(), x);
        assert(s.drop_last().push(x) == s);
    }
}

/// `n` zero digits.
pub open spec fn zero_run(n: nat) -> Seq<char> {
    Seq::new(n, |i: int| '0')
}

/// Removing the leading zeros of a track number removes exactly a run of `0`
/// digits at its front and nothing else: the number is that run followed by
/// the result, and the result does not itself begin with `0`.
pub proof fn law_leading_zeros_only(s: Seq<char>)
    ensures
        exists|n: nat| s == zero_run(n) + without_leading_zeros(s),
        without_leading_zeros(s).len() > 0 ==> without_leading_zeros(s)[0] != '0',
    decreases s.len(),
{
    if s.len() > 0 && s[0] == '0' {
        let t = s.drop_first();
        law_leading_zeros_only(t);
        let n = choose|n: nat| t == zero_run(n) + without_leading_zeros(t);
        assert(s == zero_run(n + 1) + without_leading_zeros(s)) by {
            assert(s =~= seq!['0'] + t);
            assert(zero_run(n + 1) =~= seq!['0'] + zero_run(n));
        }
    } else {
        assert(s == zero_run(0) + without_leading_zeros(s)) by {
            assert(zero_run(0) =~= Seq::<char>::empty());
        }
    }
}

/// The tags of a cue track are looked up under `1` when the track lies in two
/// pieces, and otherwise under its number with only its leading zeros removed
/// (so `10` stays `10` and `03` becomes `3`).
pub proof fn law_track_key(t: CueTrack)
    ensures
        segment_files(t).len() == 2 ==> track_key(t) == "1"@,
        segment_files(t).len() != 2 ==> {
            &&& exists|n: nat| t.number@ == zero_run(n) + track_key(t)
            &&& track_key(t).len() > 0 ==> track_key(t)[0] != '0'
        },
{
    law_leading_zeros_only(t.number@);
}

} // verus!
