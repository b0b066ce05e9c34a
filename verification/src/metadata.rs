//! Tagging metadata: a tree of named values, built from a release and used to
//! tag and name the encoded files.
use vstd::prelude::*;

use crate::release::{
    artist_credit_phrase, credit_phrase_of, has_disc_id, medium_has_disc, medium_tracks,
    original_date, original_year, release_media, MediumInfo, ReleaseInfo, TrackInfo,
};
use crate::text::{
    chars_of, decimal, i32_to_string, opt_view, parse_i32, parsed_i32, signed_decimal,
    u64_to_string,
};

verus! {

/// What a metadata value means: a text value, or a map from names to values.
pub enum MetaView {
    Group(Map<Seq<char>, MetaView>),
    Value(Seq<char>),
}

/// A metadata value: a text value, or a map from names to values.
#[derive(Debug)]
pub enum MetaData {
    Group(MetaMap),
    Value(String),
}

/// A map from names to metadata values, each name present at most once.
#[derive(Debug)]
pub struct MetaMap {
    entries: Vec<(String, MetaData)>,
}

/// The map described by a list of entries, later entries taking precedence.
spec fn entries_map(s: Seq<(String, MetaData)>) -> Map<Seq<char>, MetaView>
    decreases s,
{
    if s.len() == 0 {
        Map::empty()
    } else {
        entries_map(s.drop_last()).insert(s.last().0@, s.last().1.deep())
    }
}

impl MetaData {
    /// The meaning of a metadata value.
    pub closed spec fn deep(self) -> MetaView
        decreases self,
    {
        match self {
            MetaData::Group(m) => {
                proof {
                    assert(decreases_to!(m.entries => m.entries@));
                }
                MetaView::Group(entries_map(m.entries@))
            },
            MetaData::Value(s) => MetaView::Value(s@),
        }
    }
}

impl MetaMap {
    /// The names and values of the map.
    pub closed spec fn view_map(self) -> Map<Seq<char>, MetaView> {
        entries_map(self.entries@)
    }
}

} // verus!

verus! {

/// Whether no name occurs twice in a list of entries.
spec fn keys_unique(s: Seq<(String, MetaData)>) -> bool {
    forall|i: int, j: int| 0 <= i < j < s.len() ==> #[trigger] s[i].0@ != #[trigger] s[j].0@
}

proof fn lemma_entries_map_get(s: Seq<(String, MetaData)>, i: int)
    requires
        keys_unique(s),
        0 <= i < s.len(),
    ensures
        entries_map(s).contains_key(s[i].0@),
        entries_map(s)[s[i].0@] == s[i].1.deep(),
    decreases s.len(),
{
    if i < s.len() - 1 {
        lemma_entries_map_get(s.drop_last(), i);
    }
}

proof fn lemma_entries_map_absent(s: Seq<(String, MetaData)>, k: Seq<char>)
    requires
        forall|i: int| 0 <= i < s.len() ==> #[trigger] s[i].0@ != k,
    ensures
        !entries_map(s).contains_key(k),
    decreases s.len(),
{
    if s.len() > 0 {
        lemma_entries_map_absent(s.drop_last(), k);
    }
}

proof fn lemma_entries_map_update(s: Seq<(String, MetaData)>, i: int, e: (String, MetaData))
    requires
        keys_unique(s),
        0 <= i < s.len(),
        e.0@ == s[i].0@,
    ensures
        entries_map(s.update(i, e)) == entries_map(s).insert(e.0@, e.1.deep()),
    decreases s.len(),
{
    let t = s.update(i, e);
    if i == s.len() - 1 {
        assert(t.drop_last() == s.drop_last());
        assert forall|k: Seq<char>| #[trigger] entries_map(s.drop_last()).contains_key(k) implies k
            != e.0@ by {
            if k == e.0@ {
                assert forall|j: int| 0 <= j < s.drop_last().len() implies #[trigger] s.drop_last()[j].0@ != e.0@ by {
                    assert(s[j].0@ != s[i].0@);
                }
                lemma_entries_map_absent(s.drop_last(), k);
            }
        }
        assert(entries_map(t) =~= entries_map(s).insert(e.0@, e.1.deep()));
    } else {
        assert(t.drop_last() == s.drop_last().update(i, e));
        lemma_entries_map_update(s.drop_last(), i, e);
        assert(s.last().0@ != e.0@);
        assert(entries_map(t) =~= entries_map(s).insert(e.0@, e.1.deep()));
    }
}

impl MetaMap {
    #[verifier::type_invariant]
    spec fn wf(self) -> bool {
        keys_unique(self.entries@)
    }

    /// An empty map.
    pub fn new() -> (r: MetaMap)
        ensures
            r.view_map() == Map::<Seq<char>, MetaView>::empty(),
    {
        MetaMap { entries: Vec::new() }
    }

    fn position(&self, key: &[char]) -> (r: Option<usize>)
        ensures
            match r {
                Some(i) => i < self.entries@.len() && self.entries@[i as int].0@ == key@,
                None => forall|i: int| 0 <= i < self.entries@.len() ==> #[trigger] self.entries@[i].0@ != key@,
            },
    {
        for i in 0..self.entries.len()
            invariant
                forall|j: int| 0 <= j < i ==> #[trigger] self.entries@[j].0@ != key@,
        {
            let name = crate::text::chars_of(self.entries[i].0.as_str());
            if crate::text::same_chars(name.as_slice(), key) {
                return Some(i);
            }
        }
        None
    }

    /// Sets the value of `key`, replacing any earlier value.
    pub fn insert(&mut self, key: String, value: MetaData)
        ensures
            final(self).view_map() == old(self).view_map().insert(key@, value.deep()),
    {
        proof {
            use_type_invariant(&*self);
        }
        let k = crate::text::chars_of(key.as_str());
        let found = self.position(k.as_slice());
        let ghost s = self.entries@;
        let mut entries: Vec<(String, MetaData)> = Vec::new();
        std::mem::swap(&mut entries, &mut self.entries);
        assert(entries@ == s);
        match found {
            Some(i) => {
                let ghost e = (key, value);
                proof {
                    lemma_entries_map_update(s, i as int, e);
                }
                entries.set(i, (key, value));
                assert(entries@ == s.update(i as int, e));
                assert(keys_unique(entries@)) by {
                    assert forall|a: int, b: int| 0 <= a < b < entries@.len() implies #[trigger] entries@[a].0@
                        != #[trigger] entries@[b].0@ by {
                        assert(s[a].0@ != s[b].0@);
                    }
                }
            },
            None => {
                entries.push((key, value));
                assert(entries@.drop_last() == s);
                assert(keys_unique(entries@)) by {
                    assert forall|a: int, b: int| 0 <= a < b < entries@.len() implies #[trigger] entries@[a].0@
                        != #[trigger] entries@[b].0@ by {
                        if b < s.len() {
                            assert(s[a].0@ != s[b].0@);
                        } else {
                            assert(s[a].0@ != k@);
                        }
                    }
                }
            },
        }
        self.entries = entries;
    }

    /// The value of `key`, if present.
    pub fn get(&self, key: &str) -> (r: Option<&MetaData>)
        ensures
            match r {
                Some(v) => self.view_map().contains_key(key@) && self.view_map()[key@] == v.deep(),
                None => !self.view_map().contains_key(key@),
            },
    {
        proof {
            use_type_invariant(self);
        }
        let k = crate::text::chars_of(key);
        match self.position(k.as_slice()) {
            Some(i) => {
                proof {
                    lemma_entries_map_get(self.entries@, i as int);
                }
                Some(&self.entries[i].1)
            },
            None => {
                proof {
                    lemma_entries_map_absent(self.entries@, key@);
                }
                None
            },
        }
    }
}

} // verus!

verus! {

proof fn lemma_entries_map_same(a: Seq<(String, MetaData)>, b: Seq<(String, MetaData)>)
    requires
        a.len() == b.len(),
        forall|i: int| 0 <= i < a.len() ==> (#[trigger] a[i]).0@ == b[i].0@ && a[i].1.deep() == b[i].1.deep(),
    ensures
        entries_map(a) == entries_map(b),
    decreases a.len(),
{
    if a.len() > 0 {
        lemma_entries_map_same(a.drop_last(), b.drop_last());
        assert(a.last() == a[a.len() - 1]);
    }
}

impl MetaMap {
    /// A copy of the map with the same names and values.
    pub fn copy(&self) -> (r: MetaMap)
        ensures
            r.view_map() == self.view_map(),
        decreases self,
    {
        proof {
            use_type_invariant(self);
        }
        let mut entries: Vec<(String, MetaData)> = Vec::new();
        for i in 0..self.entries.len()
            invariant
                keys_unique(self.entries@),
                entries@.len() == i,
                forall|j: int| 0 <= j < i ==> (#[trigger] entries@[j]).0@ == self.entries@[j].0@
                    && entries@[j].1.deep() == self.entries@[j].1.deep(),
        {
            let key = self.entries[i].0.clone();
            proof {
                assert(decreases_to!(self => self.entries));
                assert(decreases_to!(self.entries => self.entries@));
                assert(decreases_to!(self.entries@ => self.entries@[i as int]));
                assert(decreases_to!(self.entries@[i as int] => self.entries@[i as int].1));
            }
            let value = self.entries[i].1.copy();
            entries.push((key, value));
        }
        proof {
            lemma_entries_map_same(entries@, self.entries@);
        }
        assert(keys_unique(entries@)) by {
            assert forall|a: int, b: int| 0 <= a < b < entries@.len() implies #[trigger] entries@[a].0@
                != #[trigger] entries@[b].0@ by {
                assert(self.entries@[a].0@ != self.entries@[b].0@);
            }
        }
        MetaMap { entries }
    }
}

/// A metadata value with `key` set to `v`, when it is a map; unchanged otherwise.
pub open spec fn with_entry(m: MetaView, key: Seq<char>, v: MetaView) -> MetaView {
    match m {
        MetaView::Group(g) => MetaView::Group(g.insert(key, v)),
        MetaView::Value(_) => m,
    }
}

/// The text value stored under `key`, if the value is a map holding text there.
pub open spec fn value_at(m: MetaView, key: Seq<char>) -> Option<Seq<char>> {
    match m {
        MetaView::Group(g) => if g.contains_key(key) {
            match g[key] {
                MetaView::Value(s) => Some(s),
                MetaView::Group(_) => None,
            }
        } else {
            None
        },
        MetaView::Value(_) => None,
    }
}

/// The map stored under `key`, if the value is a map holding a map there.
pub open spec fn group_at(m: MetaView, key: Seq<char>) -> Option<MetaView> {
    match m {
        MetaView::Group(g) => if g.contains_key(key) {
            match g[key] {
                MetaView::Group(_) => Some(g[key]),
                MetaView::Value(_) => None,
            }
        } else {
            None
        },
        MetaView::Value(_) => None,
    }
}

impl MetaData {
    /// A copy of the value.
    pub fn copy(&self) -> (r: MetaData)
        ensures
            r.deep() == self.deep(),
        decreases self,
    {
        match self {
            MetaData::Group(m) => MetaData::Group(m.copy()),
            MetaData::Value(s) => MetaData::Value(s.clone()),
        }
    }

    /// An empty map.
    pub fn new_map() -> (r: Self)
        ensures
            r.deep() == MetaView::Group(Map::empty()),
    {
        MetaData::Group(MetaMap::new())
    }

    /// Sets `key` to the text `value`, when `self` is a map.
    pub fn with_value(self, key: &str, value: String) -> (r: Self)
        ensures
            r.deep() == with_entry(self.deep(), key@, MetaView::Value(value@)),
    {
        match self {
            MetaData::Group(mut m) => {
                let k = String::from_str(key);
                m.insert(k, MetaData::Value(value));
                MetaData::Group(m)
            },
            MetaData::Value(s) => MetaData::Value(s),
        }
    }

    /// Sets `key` to the map `other`, when `self` is a map.
    pub fn with_map(self, key: &str, other: MetaMap) -> (r: Self)
        ensures
            r.deep() == with_entry(self.deep(), key@, MetaView::Group(other.view_map())),
    {
        match self {
            MetaData::Group(mut m) => {
                let k = String::from_str(key);
                m.insert(k, MetaData::Group(other));
                MetaData::Group(m)
            },
            MetaData::Value(s) => MetaData::Value(s),
        }
    }

    /// The text stored under `key`.
    pub fn get_value(&self, key: &str) -> (r: Option<&String>)
        ensures
            match value_at(self.deep(), key@) {
                Some(s) => r matches Some(x) && x@ == s,
                None => r is None,
            },
    {
        if let MetaData::Group(map) = self {
            if let Some(MetaData::Value(value)) = map.get(key) {
                return Some(value);
            }
        }
        None
    }

    /// The map stored under `key`.
    pub fn get_map(&self, key: &str) -> (r: Option<&MetaData>)
        ensures
            match group_at(self.deep(), key@) {
                Some(g) => r matches Some(x) && x.deep() == g,
                None => r is None,
            },
    {
        if let MetaData::Group(map) = self {
            let entry = map.get(key);
            if let Some(MetaData::Group(_)) = entry {
                return entry;
            }
        }
        None
    }
}

} // verus!

verus! {

/// What `hidden_track` makes of a track's metadata: the same map with the
/// title `[hidden]` and the track number one lower; nothing when the value is
/// not a map or its track number is missing or not a 32-bit integer.
pub open spec fn hidden_view(track: MetaView) -> Option<MetaView> {
    match track {
        MetaView::Group(g) => {
            let titled = g.insert("title"@, MetaView::Value("[hidden]"@));
            match value_at(MetaView::Group(titled), "tracknumber"@) {
                Some(s) => match parsed_i32(s) {
                    Some(n) => Some(MetaView::Group(
                        titled.insert("tracknumber"@, MetaView::Value(signed_decimal(n - 1))),
                    )),
                    None => None,
                },
                None => None,
            }
        },
        MetaView::Value(_) => None,
    }
}

/// Whether lowering the track number would overflow a 32-bit integer.
pub open spec fn hidden_overflows(track: MetaView) -> bool {
    match track {
        MetaView::Group(g) => {
            let titled = g.insert("title"@, MetaView::Value("[hidden]"@));
            match value_at(MetaView::Group(titled), "tracknumber"@) {
                Some(s) => parsed_i32(s) == Some(i32::MIN),
                None => false,
            }
        },
        MetaView::Value(_) => false,
    }
}

impl MetaData {
    /// The metadata of the hidden track before track one: a copy of the
    /// track's metadata titled `[hidden]`, numbered one lower.
    pub fn hidden_track(track: &MetaData) -> (r: Option<Self>)
        requires
            !hidden_overflows(track.deep()),
        ensures
            match hidden_view(track.deep()) {
                Some(v) => r matches Some(m) && m.deep() == v,
                None => r is None,
            },
    {
        let map = match track {
            MetaData::Group(map) => map,
            MetaData::Value(_) => {
                return None;
            },
        };
        let mut map_copy = map.copy();
        map_copy.insert(String::from_str("title"), MetaData::Value(String::from_str("[hidden]")));
        let new_num_str = match map_copy.get("tracknumber") {
            Some(MetaData::Value(s)) => {
                let v = chars_of(s.as_str());
                match parse_i32(v.as_slice()) {
                    Some(num) => i32_to_string(num - 1),
                    None => {
                        return None;
                    },
                }
            },
            _ => {
                return None;
            },
        };
        map_copy.insert(String::from_str("tracknumber"), MetaData::Value(new_num_str));
        Some(MetaData::Group(map_copy))
    }
}

} // verus!

verus! {

/// Why tagging metadata could not be built.
#[derive(Debug, Clone, Copy, PartialEq, Eq, Structural)]
pub enum MetaError {
    /// The release or one of its tracks has no artist credit.
    NoArtistCredit,
    /// The release group has no genre.
    NoGenre,
    /// The release group has no usable first-release date.
    NoOriginalDate,
}

impl MetaError {
    /// The message shown for the error.
    pub fn message(&self) -> (r: &'static str)
        ensures
            r@ == (match self {
                MetaError::NoArtistCredit => "no artist credit"@,
                MetaError::NoGenre => "no genre"@,
                MetaError::NoOriginalDate => "no original date"@,
            }),
    {
        match self {
            MetaError::NoArtistCredit => "no artist credit",
            MetaError::NoGenre => "no genre",
            MetaError::NoOriginalDate => "no original date",
        }
    }
}

/// What is shared by all tracks of a medium.
pub struct TrackContext {
    pub album_title: Seq<char>,
    pub album_artist: Seq<char>,
    pub year: Seq<char>,
    pub genre: Seq<char>,
    pub track_total: Seq<char>,
    pub disc_number: Seq<char>,
    pub disc_total: Seq<char>,
}

/// The tags of one track; nothing when the track has no artist credit.
pub open spec fn track_entry(t: TrackInfo, c: TrackContext) -> Option<MetaView> {
    match credit_phrase_of(t.artist_credit) {
        None => None,
        Some(artist) => Some(MetaView::Group(
            Map::empty()
                .insert("title"@, MetaView::Value(t.title@))
                .insert("album"@, MetaView::Value(c.album_title))
                .insert("artist"@, MetaView::Value(artist))
                .insert("date"@, MetaView::Value(c.year))
                .insert("genre"@, MetaView::Value(c.genre))
                .insert("tracknumber"@, MetaView::Value(t.number@))
                .insert("albumartist"@, MetaView::Value(c.album_artist))
                .insert("tracktotal"@, MetaView::Value(c.track_total))
                .insert("discnumber"@, MetaView::Value(c.disc_number))
                .insert("disctotal"@, MetaView::Value(c.disc_total)),
        )),
    }
}

/// The tracks map after adding the tracks of `tracks` in order, each under
/// its number; nothing when a track has no artist credit.
pub open spec fn add_tracks(acc: Map<Seq<char>, MetaView>, tracks: Seq<TrackInfo>, c: TrackContext) -> Option<Map<Seq<char>, MetaView>>
    decreases tracks.len(),
{
    if tracks.len() == 0 {
        Some(acc)
    } else {
        match track_entry(tracks[0], c) {
            None => None,
            Some(e) => add_tracks(acc.insert(tracks[0].number@, e), tracks.drop_first(), c),
        }
    }
}

/// The context of the tracks of a medium.
pub open spec fn medium_context(
    m: MediumInfo,
    media_count: nat,
    album_title: Seq<char>,
    album_artist: Seq<char>,
    year: Seq<char>,
    genre: Seq<char>,
) -> TrackContext {
    TrackContext {
        album_title,
        album_artist,
        year,
        genre,
        track_total: decimal(medium_tracks(m).len()),
        disc_number: decimal(
            match m.position {
                Some(p) => p as nat,
                None => 1,
            },
        ),
        disc_total: decimal(media_count),
    }
}

/// The tracks map after adding the tracks of the media in `ms` that carry the disc.
pub open spec fn add_media(
    acc: Map<Seq<char>, MetaView>,
    ms: Seq<MediumInfo>,
    media_count: nat,
    disc_id: Seq<char>,
    album_title: Seq<char>,
    album_artist: Seq<char>,
    year: Seq<char>,
    genre: Seq<char>,
) -> Option<Map<Seq<char>, MetaView>>
    decreases ms.len(),
{
    if ms.len() == 0 {
        Some(acc)
    } else if !medium_has_disc(ms[0], disc_id) {
        add_media(acc, ms.drop_first(), media_count, disc_id, album_title, album_artist, year, genre)
    } else {
        let c = medium_context(ms[0], media_count, album_title, album_artist, year, genre);
        match add_tracks(acc, medium_tracks(ms[0]), c) {
            None => None,
            Some(a) => add_media(a, ms.drop_first(), media_count, disc_id, album_title, album_artist, year, genre),
        }
    }
}

/// The metadata of a release for the disc `disc_id`: the album title, the
/// album artist and the tags of every track on the disc.
pub open spec fn release_metadata(r: ReleaseInfo, disc_id: Seq<char>, genre: Option<Seq<char>>) -> Result<MetaView, MetaError> {
    match credit_phrase_of(r.artist_credit) {
        None => Err(MetaError::NoArtistCredit),
        Some(album_artist) => match genre {
            None => Err(MetaError::NoGenre),
            Some(g) => match original_year(r) {
                None => Err(MetaError::NoOriginalDate),
                Some(year) => {
                    let media = release_media(r);
                    match add_media(Map::empty(), media, media.len(), disc_id, r.title@, album_artist, year, g) {
                        None => Err(MetaError::NoArtistCredit),
                        Some(tracks) => Ok(MetaView::Group(
                            Map::empty()
                                .insert("albumtitle"@, MetaView::Value(r.title@))
                                .insert("artist"@, MetaView::Value(album_artist))
                                .insert("tracks"@, MetaView::Group(tracks)),
                        )),
                    }
                },
            },
        },
    }
}

fn track_metadata(
    t: &TrackInfo,
    album_title: &String,
    album_artist: &String,
    year: &String,
    genre: &String,
    track_total: &String,
    disc_number: &String,
    disc_total: &String,
) -> (r: Option<MetaData>)
    ensures
        match track_entry(
            *t,
            TrackContext {
                album_title: album_title@,
                album_artist: album_artist@,
                year: year@,
                genre: genre@,
                track_total: track_total@,
                disc_number: disc_number@,
                disc_total: disc_total@,
            },
        ) {
            Some(v) => r matches Some(m) && m.deep() == v,
            None => r is None,
        },
{
    let artist = match artist_credit_phrase(&t.artist_credit) {
        Some(a) => a,
        None => {
            return None;
        },
    };
    let m = MetaData::new_map()
        .with_value("title", t.title.clone())
        .with_value("album", album_title.clone())
        .with_value("artist", artist)
        .with_value("date", year.clone())
        .with_value("genre", genre.clone())
        .with_value("tracknumber", t.number.clone())
        .with_value("albumartist", album_artist.clone())
        .with_value("tracktotal", track_total.clone())
        .with_value("discnumber", disc_number.clone())
        .with_value("disctotal", disc_total.clone());
    Some(m)
}

} // verus!

verus! {

/// Builds the tagging metadata of a release for the disc `discid`, given the
/// genre of its release group.
#[verifier::loop_isolation(false)]
pub fn build_metadata(release: &ReleaseInfo, discid: &str, genre: Option<String>) -> (r: Result<MetaData, MetaError>)
    ensures
        match release_metadata(*release, discid@, opt_view(genre)) {
            Ok(v) => r matches Ok(m) && m.deep() == v,
            Err(e) => r matches Err(x) && x == e,
        },
{
    let album_title = release.title.clone();
    let album_artist = match artist_credit_phrase(&release.artist_credit) {
        Some(a) => a,
        None => {
            return Err(MetaError::NoArtistCredit);
        },
    };
    let genre = match genre {
        Some(g) => g,
        None => {
            return Err(MetaError::NoGenre);
        },
    };
    let year = match original_date(release) {
        Some(y) => y,
        None => {
            return Err(MetaError::NoOriginalDate);
        },
    };
    let ghost all = release_media(*release);
    let ghost total = add_media(Map::empty(), all, all.len(), discid@, album_title@, album_artist@, year@, genre@);
    let empty: Vec<MediumInfo> = Vec::new();
    let media: &Vec<MediumInfo> = match &release.media {
        Some(m) => m,
        None => &empty,
    };
    assert(media@ == all);
    assert(all.skip(0) == all);
    let disc_total = u64_to_string(media.len() as u64);
    let mut tracks = MetaMap::new();
    for i in 0..media.len()
        invariant
            total == add_media(tracks.view_map(), all.skip(i as int), all.len(), discid@, album_title@, album_artist@, year@, genre@),
    {
        let ghost rest = all.skip(i as int);
        assert(rest.drop_first() == all.skip(i + 1));
        assert(rest[0] == media@[i as int]);
        let medium = &media[i];
        if has_disc_id(medium, discid) {
            let empty_tracks: Vec<TrackInfo> = Vec::new();
            let track_list: &Vec<TrackInfo> = match &medium.tracks {
                Some(t) => t,
                None => &empty_tracks,
            };
            let ghost ts = medium_tracks(*medium);
            assert(track_list@ == ts);
            assert(ts.skip(0) == ts);
            let track_total = u64_to_string(track_list.len() as u64);
            let disc_number = u64_to_string(
                match medium.position {
                    Some(p) => p as u64,
                    None => 1,
                },
            );
            let ghost c = medium_context(*medium, all.len(), album_title@, album_artist@, year@, genre@);
            let ghost start = tracks.view_map();
            let ghost medium_total = add_tracks(start, ts, c);
            for j in 0..track_list.len()
                invariant
                    medium_total == add_tracks(tracks.view_map(), ts.skip(j as int), c),
            {
                let ghost tr = ts.skip(j as int);
                assert(tr.drop_first() == ts.skip(j + 1));
                assert(tr[0] == track_list@[j as int]);
                let track = &track_list[j];
                match track_metadata(
                    track,
                    &album_title,
                    &album_artist,
                    &year,
                    &genre,
                    &track_total,
                    &disc_number,
                    &disc_total,
                ) {
                    Some(meta) => {
                        tracks.insert(track.number.clone(), meta);
                    },
                    None => {
                        return Err(MetaError::NoArtistCredit);
                    },
                }
            }
            assert(ts.skip(track_list@.len() as int) =~= Seq::<TrackInfo>::empty());
        }
    }
    assert(all.skip(media@.len() as int) =~= Seq::<MediumInfo>::empty());
    let meta = MetaData::new_map()
        .with_value("albumtitle", album_title)
        .with_value("artist", album_artist)
        .with_map("tracks", tracks);
    Ok(meta)
}

} // verus!

verus! {

/// Whether lowering the track number of a track's metadata would overflow.
pub fn hidden_would_overflow(track: &MetaData) -> (r: bool)
    ensures
        r == hidden_overflows(track.deep()),
{
    proof {
        reveal_strlit("title");
        reveal_strlit("tracknumber");
        assert("title"@[1] != "tracknumber"@[1]);
        assert("title"@ != "tracknumber"@);
    }
    match track {
        MetaData::Group(map) => {
            let ghost g = map.view_map();
            assert(track.deep() == MetaView::Group(g));
            let ghost titled = g.insert("title"@, MetaView::Value("[hidden]"@));
            assert(titled.contains_key("tracknumber"@) == g.contains_key("tracknumber"@));
            assert(g.contains_key("tracknumber"@) ==> titled["tracknumber"@] == g["tracknumber"@]);
            if let Some(MetaData::Value(s)) = map.get("tracknumber") {
                let v = chars_of(s.as_str());
                match parse_i32(v.as_slice()) {
                    Some(n) => n == i32::MIN,
                    None => false,
                }
            } else {
                false
            }
        },
        MetaData::Value(_) => false,
    }
}

} // verus!

verus! {

/// Reading a name right after setting it to a text gives that text, and every
/// other name keeps its value.
pub proof fn law_value_read_after_write(m: MetaView, key: Seq<char>, value: Seq<char>, other: Seq<char>)
    requires
        m is Group,
    ensures
        value_at(with_entry(m, key, MetaView::Value(value)), key) == Some(value),
        other != key ==> value_at(with_entry(m, key, MetaView::Value(value)), other) == value_at(m, other),
        other != key ==> group_at(with_entry(m, key, MetaView::Value(value)), other) == group_at(m, other),
        group_at(with_entry(m, key, MetaView::Value(value)), key) is None,
{
}

/// Reading a name right after setting it to a map gives that map, and every
/// other name keeps its value.
pub proof fn law_map_read_after_write(m: MetaView, key: Seq<char>, g: Map<Seq<char>, MetaView>, other: Seq<char>)
    requires
        m is Group,
    ensures
        group_at(with_entry(m, key, MetaView::Group(g)), key) == Some(MetaView::Group(g)),
        value_at(with_entry(m, key, MetaView::Group(g)), key) is None,
        other != key ==> group_at(with_entry(m, key, MetaView::Group(g)), other) == group_at(m, other),
        other != key ==> value_at(with_entry(m, key, MetaView::Group(g)), other) == value_at(m, other),
{
}

/// A text value cannot be written into: setting a name on it leaves it as it is.
pub proof fn law_value_is_not_a_map(s: Seq<char>, key: Seq<char>, v: MetaView)
    ensures
        with_entry(MetaView::Value(s), key, v) == MetaView::Value(s),
        value_at(MetaView::Value(s), key) is None,
        group_at(MetaView::Value(s), key) is None,
{
}

/// The hidden track is titled `[hidden]`, numbered one below the track (its
/// number reads back as that integer), and keeps every other tag.
pub proof fn law_hidden_track(track: MetaView, other: Seq<char>)
    requires
        hidden_view(track) is Some,
        !hidden_overflows(track),
    ensures
        ({
            let h = hidden_view(track)->0;
            let n = parsed_i32(value_at(track, "tracknumber"@)->0)->0;
            &&& value_at(h, "title"@) == Some("[hidden]"@)
            &&& value_at(h, "tracknumber"@) == Some(signed_decimal(n - 1))
            &&& parsed_i32(value_at(h, "tracknumber"@)->0) == Some((n - 1) as i32)
            &&& (other != "title"@ && other != "tracknumber"@) ==> value_at(h, other) == value_at(track, other)
                && group_at(h, other) == group_at(track, other)
        }),
{
    reveal_strlit("title");
    reveal_strlit("tracknumber");
    assert("title"@[1] != "tracknumber"@[1]);
    let g = track->Group_0;
    let titled = g.insert("title"@, MetaView::Value("[hidden]"@));
    assert(value_at(MetaView::Group(titled), "tracknumber"@) == value_at(track, "tracknumber"@));
    let n = parsed_i32(value_at(track, "tracknumber"@)->0)->0;
    crate::text::law_signed_decimal_round_trip((n - 1) as i32);
}

} // verus!

verus! {

/// A text value means that text, and a map means the names and values of the map.
pub proof fn lemma_deep_variants(m: MetaData)
    ensures
        m matches MetaData::Value(s) ==> m.deep() == MetaView::Value(s@),
        m matches MetaData::Group(g) ==> m.deep() == MetaView::Group(g.view_map()),
{
}

} // verus!

verus! {

/// Whether the tags `e` are those of track `t` on medium `m` of release `r`:
/// its title, number and artist; the medium's track count as the track total;
/// the medium's position (one when unknown) as the disc number; the release's
/// number of media as the disc total; and the release's title, artist,
/// original year and the given genre.
pub open spec fn tags_of_track(e: MetaView, r: ReleaseInfo, m: MediumInfo, t: TrackInfo, genre: Seq<char>) -> bool {
    &&& value_at(e, "title"@) == Some(t.title@)
    &&& value_at(e, "tracknumber"@) == Some(t.number@)
    &&& value_at(e, "artist"@) == credit_phrase_of(t.artist_credit)
    &&& value_at(e, "tracktotal"@) == Some(decimal(medium_tracks(m).len()))
    &&& value_at(e, "discnumber"@) == Some(
        decimal(
            match m.position {
                Some(p) => p as nat,
                None => 1,
            },
        ),
    )
    &&& value_at(e, "disctotal"@) == Some(decimal(release_media(r).len()))
    &&& value_at(e, "album"@) == Some(r.title@)
    &&& value_at(e, "albumartist"@) == credit_phrase_of(r.artist_credit)
    &&& value_at(e, "date"@) == original_year(r)
    &&& value_at(e, "genre"@) == Some(genre)
}

proof fn lemma_track_entry_tags(t: TrackInfo, c: TrackContext)
    requires
        track_entry(t, c) is Some,
    ensures
        ({
            let e = track_entry(t, c)->0;
            &&& value_at(e, "title"@) == Some(t.title@)
            &&& value_at(e, "tracknumber"@) == Some(t.number@)
            &&& value_at(e, "artist"@) == credit_phrase_of(t.artist_credit)
            &&& value_at(e, "tracktotal"@) == Some(c.track_total)
            &&& value_at(e, "discnumber"@) == Some(c.disc_number)
            &&& value_at(e, "disctotal"@) == Some(c.disc_total)
            &&& value_at(e, "album"@) == Some(c.album_title)
            &&& value_at(e, "albumartist"@) == Some(c.album_artist)
            &&& value_at(e, "date"@) == Some(c.year)
            &&& value_at(e, "genre"@) == Some(c.genre)
        }),
{
    reveal_strlit("title");
    reveal_strlit("album");
    reveal_strlit("artist");
    reveal_strlit("date");
    reveal_strlit("genre");
    reveal_strlit("tracknumber");
    reveal_strlit("albumartist");
    reveal_strlit("tracktotal");
    reveal_strlit("discnumber");
    reveal_strlit("disctotal");
    assert("title"@.len() == 5 && "album"@.len() == 5 && "genre"@.len() == 5 && "artist"@.len() == 6);
    assert("date"@.len() == 4 && "tracknumber"@.len() == 11 && "albumartist"@.len() == 11);
    assert("tracktotal"@.len() == 10 && "discnumber"@.len() == 10 && "disctotal"@.len() == 9);
    assert("title"@[0] != "album"@[0] && "title"@[0] != "genre"@[0] && "album"@[0] != "genre"@[0]);
    assert("tracknumber"@[0] != "albumartist"@[0]);
    assert("tracktotal"@[0] != "discnumber"@[0]);
}

proof fn lemma_add_tracks(acc: Map<Seq<char>, MetaView>, ts: Seq<TrackInfo>, c: TrackContext)
    requires
        add_tracks(acc, ts, c) is Some,
    ensures
        ({
            let res = add_tracks(acc, ts, c)->0;
            &&& forall|k: Seq<char>| #[trigger] acc.contains_key(k) ==> res.contains_key(k)
            &&& forall|j: int| 0 <= j < ts.len() ==> res.contains_key(#[trigger] ts[j].number@)
            &&& forall|k: Seq<char>|
                #[trigger] res.contains_key(k) ==> (acc.contains_key(k) && res[k] == acc[k]) || exists|j: int|
                    0 <= j < ts.len() && ts[j].number@ == k && #[trigger] track_entry(ts[j], c) == Some(res[k])
        }),
    decreases ts.len(),
{
    if ts.len() > 0 {
        let e = track_entry(ts[0], c)->0;
        let acc2 = acc.insert(ts[0].number@, e);
        let rest = ts.drop_first();
        lemma_add_tracks(acc2, rest, c);
        let res = add_tracks(acc, ts, c)->0;
        assert(res == add_tracks(acc2, rest, c)->0);
        assert forall|k: Seq<char>| #[trigger] acc.contains_key(k) implies res.contains_key(k) by {
            assert(acc2.contains_key(k));
        }
        assert forall|j: int| 0 <= j < ts.len() implies res.contains_key(#[trigger] ts[j].number@) by {
            if j > 0 {
                assert(ts[j] == rest[j - 1]);
            } else {
                assert(acc2.contains_key(ts[0].number@));
            }
        }
        assert forall|k: Seq<char>| #[trigger] res.contains_key(k) implies (acc.contains_key(k) && res[k] == acc[k])
            || exists|j: int| 0 <= j < ts.len() && ts[j].number@ == k && #[trigger] track_entry(ts[j], c) == Some(res[k]) by {
            if acc2.contains_key(k) && res[k] == acc2[k] {
                if k == ts[0].number@ {
                    assert(track_entry(ts[0], c) == Some(res[k]));
                }
            } else {
                let j = choose|j: int| 0 <= j < rest.len() && rest[j].number@ == k && #[trigger] track_entry(rest[j], c) == Some(res[k]);
                assert(ts[j + 1] == rest[j]);
                assert(track_entry(ts[j + 1], c) == Some(res[k]));
            }
        }
    }
}

proof fn lemma_add_media(
    acc: Map<Seq<char>, MetaView>,
    ms: Seq<MediumInfo>,
    media_count: nat,
    disc_id: Seq<char>,
    album_title: Seq<char>,
    album_artist: Seq<char>,
    year: Seq<char>,
    genre: Seq<char>,
)
    requires
        add_media(acc, ms, media_count, disc_id, album_title, album_artist, year, genre) is Some,
    ensures
        ({
            let res = add_media(acc, ms, media_count, disc_id, album_title, album_artist, year, genre)->0;
            &&& forall|k: Seq<char>| #[trigger] acc.contains_key(k) ==> res.contains_key(k)
            &&& forall|i: int, j: int|
                0 <= i < ms.len() && medium_has_disc(ms[i], disc_id) && 0 <= j < medium_tracks(ms[i]).len()
                    ==> res.contains_key(#[trigger] medium_tracks(ms[i])[j].number@)
            &&& forall|k: Seq<char>|
                #[trigger] res.contains_key(k) ==> (acc.contains_key(k) && res[k] == acc[k]) || exists|i: int, j: int|
                    0 <= i < ms.len() && medium_has_disc(ms[i], disc_id) && 0 <= j < medium_tracks(ms[i]).len()
                        && medium_tracks(ms[i])[j].number@ == k && #[trigger] track_entry(
                        medium_tracks(ms[i])[j],
                        medium_context(ms[i], media_count, album_title, album_artist, year, genre),
                    ) == Some(res[k])
        }),
    decreases ms.len(),
{
    if ms.len() > 0 {
        let rest = ms.drop_first();
        let res = add_media(acc, ms, media_count, disc_id, album_title, album_artist, year, genre)->0;
        let acc2 = if medium_has_disc(ms[0], disc_id) {
            let c = medium_context(ms[0], media_count, album_title, album_artist, year, genre);
            lemma_add_tracks(acc, medium_tracks(ms[0]), c);
            add_tracks(acc, medium_tracks(ms[0]), c)->0
        } else {
            acc
        };
        lemma_add_media(acc2, rest, media_count, disc_id, album_title, album_artist, year, genre);
        assert(res == add_media(acc2, rest, media_count, disc_id, album_title, album_artist, year, genre)->0);
        assert forall|i: int, j: int|
            0 <= i < ms.len() && medium_has_disc(ms[i], disc_id) && 0 <= j < medium_tracks(ms[i]).len()
            implies res.contains_key(#[trigger] medium_tracks(ms[i])[j].number@) by {
            if i > 0 {
                assert(ms[i] == rest[i - 1]);
            } else {
                assert(acc2.contains_key(medium_tracks(ms[0])[j].number@));
            }
        }
        assert forall|k: Seq<char>| #[trigger] res.contains_key(k) implies (acc.contains_key(k) && res[k] == acc[k])
            || exists|i: int, j: int|
            0 <= i < ms.len() && medium_has_disc(ms[i], disc_id) && 0 <= j < medium_tracks(ms[i]).len()
                && medium_tracks(ms[i])[j].number@ == k && #[trigger] track_entry(
                medium_tracks(ms[i])[j],
                medium_context(ms[i], media_count, album_title, album_artist, year, genre),
            ) == Some(res[k]) by {
            if acc2.contains_key(k) && res[k] == acc2[k] {
                if medium_has_disc(ms[0], disc_id) {
                    let c = medium_context(ms[0], media_count, album_title, album_artist, year, genre);
                    if !(acc.contains_key(k) && acc2[k] == acc[k]) {
                        let j = choose|j: int|
                            0 <= j < medium_tracks(ms[0]).len() && medium_tracks(ms[0])[j].number@ == k
                                && #[trigger] track_entry(medium_tracks(ms[0])[j], c) == Some(acc2[k]);
                        assert(track_entry(medium_tracks(ms[0])[j], c) == Some(res[k]));
                    }
                }
            } else {
                let (i, j) = choose|i: int, j: int|
                    0 <= i < rest.len() && medium_has_disc(rest[i], disc_id) && 0 <= j < medium_tracks(rest[i]).len()
                        && medium_tracks(rest[i])[j].number@ == k && #[trigger] track_entry(
                        medium_tracks(rest[i])[j],
                        medium_context(rest[i], media_count, album_title, album_artist, year, genre),
                    ) == Some(res[k]);
                assert(ms[i + 1] == rest[i]);
                assert(track_entry(
                    medium_tracks(ms[i + 1])[j],
                    medium_context(ms[i + 1], media_count, album_title, album_artist, year, genre),
                ) == Some(res[k]));
            }
        }
    }
}

/// Every track in the metadata of a release is a track of a medium that
/// carries the disc, under its own number, tagged with that track's title,
/// number and artist, the track count of its medium as the track total, the
/// medium's position as the disc number, the number of media as the disc
/// total, and the album's title, artist, year and genre.
pub proof fn law_tracks_come_from_disc_media(r: ReleaseInfo, disc_id: Seq<char>, genre: Option<Seq<char>>, key: Seq<char>)
    requires
        release_metadata(r, disc_id, genre) is Ok,
    ensures
        ({
            let v = release_metadata(r, disc_id, genre)->Ok_0;
            let media = release_media(r);
            &&& group_at(v, "tracks"@) is Some
            &&& group_at(group_at(v, "tracks"@)->0, key) is Some ==> exists|i: int, j: int|
                0 <= i < media.len() && medium_has_disc(media[i], disc_id) && 0 <= j < medium_tracks(media[i]).len()
                    && medium_tracks(media[i])[j].number@ == key && tags_of_track(
                    group_at(group_at(v, "tracks"@)->0, key)->0,
                    r,
                    media[i],
                    #[trigger] medium_tracks(media[i])[j],
                    genre->0,
                )
        }),
{
    reveal_strlit("tracks");
    reveal_strlit("albumtitle");
    reveal_strlit("artist");
    let media = release_media(r);
    let album_artist = credit_phrase_of(r.artist_credit)->0;
    let g = genre->0;
    let year = original_year(r)->0;
    lemma_add_media(Map::empty(), media, media.len(), disc_id, r.title@, album_artist, year, g);
    let tracks = add_media(Map::empty(), media, media.len(), disc_id, r.title@, album_artist, year, g)->0;
    let v = release_metadata(r, disc_id, genre)->Ok_0;
    assert(group_at(v, "tracks"@) == Some(MetaView::Group(tracks)));
    if group_at(MetaView::Group(tracks), key) is Some {
        assert(tracks.contains_key(key));
        let (i, j) = choose|i: int, j: int|
            0 <= i < media.len() && medium_has_disc(media[i], disc_id) && 0 <= j < medium_tracks(media[i]).len()
                && medium_tracks(media[i])[j].number@ == key && #[trigger] track_entry(
                medium_tracks(media[i])[j],
                medium_context(media[i], media.len(), r.title@, album_artist, year, g),
            ) == Some(tracks[key]);
        let c = medium_context(media[i], media.len(), r.title@, album_artist, year, g);
        lemma_track_entry_tags(medium_tracks(media[i])[j], c);
        assert(tags_of_track(tracks[key], r, media[i], medium_tracks(media[i])[j], g));
    }
}

/// Every track of every medium that carries the disc has tags in the metadata
/// of the release, under its number.
pub proof fn law_disc_tracks_all_tagged(r: ReleaseInfo, disc_id: Seq<char>, genre: Option<Seq<char>>, i: int, j: int)
    requires
        release_metadata(r, disc_id, genre) is Ok,
        0 <= i < release_media(r).len(),
        medium_has_disc(release_media(r)[i], disc_id),
        0 <= j < medium_tracks(release_media(r)[i]).len(),
    ensures
        ({
            let v = release_metadata(r, disc_id, genre)->Ok_0;
            let tracks = group_at(v, "tracks"@)->0;
            group_at(tracks, medium_tracks(release_media(r)[i])[j].number@) is Some
        }),
{
    reveal_strlit("tracks");
    reveal_strlit("albumtitle");
    reveal_strlit("artist");
    let media = release_media(r);
    let album_artist = credit_phrase_of(r.artist_credit)->0;
    let g = genre->0;
    let year = original_year(r)->0;
    lemma_add_media(Map::empty(), media, media.len(), disc_id, r.title@, album_artist, year, g);
    let tracks = add_media(Map::empty(), media, media.len(), disc_id, r.title@, album_artist, year, g)->0;
    let n = medium_tracks(media[i])[j].number@;
    assert(tracks.contains_key(n));
    let c = medium_context(media[i], media.len(), r.title@, album_artist, year, g);
    assert(tracks[n] is Group) by {
        if !(Map::<Seq<char>, MetaView>::empty().contains_key(n)) {
            let (a, b) = choose|a: int, b: int|
                0 <= a < media.len() && medium_has_disc(media[a], disc_id) && 0 <= b < medium_tracks(media[a]).len()
                    && medium_tracks(media[a])[b].number@ == n && #[trigger] track_entry(
                    medium_tracks(media[a])[b],
                    medium_context(media[a], media.len(), r.title@, album_artist, year, g),
                ) == Some(tracks[n]);
        }
    }
}

} // verus!

verus! {

/// The metadata of a release is refused, in this order, for a release without
/// an artist credit, for a missing genre and for a release group without an
/// original date; when it is made, it holds the release's title under
/// `albumtitle` and its artist credit under `artist`.
pub proof fn law_album_metadata(r: ReleaseInfo, disc_id: Seq<char>, genre: Option<Seq<char>>)
    ensures
        credit_phrase_of(r.artist_credit) is None ==> release_metadata(r, disc_id, genre) == Err::<MetaView, MetaError>(
            MetaError::NoArtistCredit,
        ),
        credit_phrase_of(r.artist_credit) is Some && genre is None ==> release_metadata(r, disc_id, genre) == Err::<
            MetaView,
            MetaError,
        >(MetaError::NoGenre),
        credit_phrase_of(r.artist_credit) is Some && genre is Some && original_year(r) is None ==> release_metadata(
            r,
            disc_id,
            genre,
        ) == Err::<MetaView, MetaError>(MetaError::NoOriginalDate),
        release_metadata(r, disc_id, genre) is Ok ==> {
            let v = release_metadata(r, disc_id, genre)->Ok_0;
            &&& genre is Some && original_year(r) is Some
            &&& value_at(v, "albumtitle"@) == Some(r.title@)
            &&& value_at(v, "artist"@) == credit_phrase_of(r.artist_credit)
        },
{
    reveal_strlit("tracks");
    reveal_strlit("albumtitle");
    reveal_strlit("artist");
    assert("albumtitle"@.len() == 10 && "artist"@.len() == 6 && "tracks"@.len() == 6);
    assert("artist"@[0] != "tracks"@[0]);
}

} // verus!
