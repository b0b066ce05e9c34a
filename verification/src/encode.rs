//! The encoder's command line for one track.
use vstd::prelude::*;

use crate::config::{AudioFormat, Config};
use crate::metadata::{value_at, MetaData, MetaView};
use crate::text::string_views;
use crate::text::{chars_of, decimal, extend, string_of, u64_to_string};

verus! {

/// How the encoder reads the ripped files of a track.
#[derive(Debug)]
pub enum FfmpegInput {
    /// Several files, joined through a list file at this path.
    Concat(String),
    /// A single file at this path.
    Single(String),
}

/// Why a track could not be encoded.
#[derive(Debug, Clone, Copy, PartialEq, Eq, Structural)]
pub enum EncodeError {
    /// The track has no ripped file.
    NoInputFiles,
}

impl EncodeError {
    /// The message shown for the error.
    pub fn message(&self) -> (r: &'static str)
        ensures
            r@ == "No input files provided"@,
    {
        "No input files provided"
    }
}

/// Whether the ripped files of a track are joined through a list: several
/// files are, a single file is read directly, and no file is an error.
pub fn needs_concat(wav_count: usize) -> (r: Result<bool, EncodeError>)
    ensures
        wav_count == 0 <==> r is Err,
        r matches Ok(c) ==> c == (wav_count > 1),
{
    if wav_count > 1 {
        Ok(true)
    } else if wav_count == 1 {
        Ok(false)
    } else {
        Err(EncodeError::NoInputFiles)
    }
}

/// The line of the concat list that names one file.
pub open spec fn concat_line(path: Seq<char>) -> Seq<char> {
    "file '"@ + path + "'"@
}

/// The lines of the concat list for the given files, in order.
pub fn concat_list(wav_paths: &Vec<String>) -> (r: Vec<String>)
    ensures
        string_views(r@) == string_views(wav_paths@).map_values(|p: Seq<char>| concat_line(p)),
{
    let mut r: Vec<String> = Vec::new();
    for i in 0..wav_paths.len()
        invariant
            string_views(r@) == string_views(wav_paths@.take(i as int)).map_values(|p: Seq<char>| concat_line(p)),
    {
        let mut line = chars_of("file '");
        extend(&mut line, chars_of(wav_paths[i].as_str()).as_slice());
        extend(&mut line, chars_of("'").as_slice());
        let ghost before = r@;
        r.push(string_of(line.as_slice()));
        assert(string_views(r@) =~= string_views(before).push(concat_line(wav_paths@[i as int]@)));
        assert(wav_paths@.take(i + 1) == wav_paths@.take(i as int).push(wav_paths@[i as int]));
        assert(string_views(wav_paths@.take(i + 1)) =~= string_views(wav_paths@.take(i as int)).push(
            wav_paths@[i as int]@,
        ));
        assert(string_views(wav_paths@.take(i + 1)).map_values(|p: Seq<char>| concat_line(p)) =~= string_views(
            wav_paths@.take(i as int),
        ).map_values(|p: Seq<char>| concat_line(p)).push(concat_line(wav_paths@[i as int]@)));
    }
    assert(wav_paths@.take(wav_paths@.len() as int) == wav_paths@);
    r
}

/// The `-metadata` arguments for one tag: `key=value` when the track has a
/// value under `meta_key`, nothing otherwise.
#[verifier::opaque]
pub open spec fn tag_arg(meta: MetaView, key: Seq<char>, meta_key: Seq<char>) -> Seq<Seq<char>> {
    match value_at(meta, meta_key) {
        Some(v) => seq!["-metadata"@, key + "="@ + v],
        None => Seq::empty(),
    }
}

/// The tag arguments of a track, in the encoder's tag names.
pub open spec fn tag_args(meta: MetaView) -> Seq<Seq<char>> {
    tag_arg(meta, "album"@, "album"@) + tag_arg(meta, "artist"@, "artist"@) + tag_arg(meta, "date"@, "date"@)
        + tag_arg(meta, "genre"@, "genre"@) + tag_arg(meta, "title"@, "title"@) + tag_arg(
        meta,
        "track"@,
        "tracknumber"@,
    ) + tag_arg(meta, "totaltracks"@, "tracktotal"@) + tag_arg(meta, "disc"@, "discnumber"@) + tag_arg(
        meta,
        "disctotal"@,
        "disctotal"@,
    )
}

/// The arguments that name the input.
pub open spec fn input_args(input: FfmpegInput) -> Seq<Seq<char>> {
    match input {
        FfmpegInput::Concat(list) => seq!["-f"@, "concat"@, "-safe"@, "0"@, "-i"@, list@],
        FfmpegInput::Single(p) => seq!["-i"@, p@],
    }
}

/// The full encoder command line: quiet banner, log level, input, FLAC
/// compression level when encoding FLAC, the tags, the output file, and `-y`.
pub open spec fn ffmpeg_command(
    input: FfmpegInput,
    verbose: bool,
    format: AudioFormat,
    compression_level: u32,
    meta: MetaView,
    file_out: Seq<char>,
) -> Seq<Seq<char>> {
    seq!["-hide_banner"@] + (if verbose {
        seq!["-loglevel"@, "info"@]
    } else {
        seq!["-loglevel"@, "error"@, "-stats"@]
    }) + input_args(input) + (if format == AudioFormat::Flac {
        seq!["-compression_level"@, decimal(compression_level as nat)]
    } else {
        Seq::empty()
    }) + tag_args(meta) + seq![file_out, "-y"@]
}

fn push_arg(args: &mut Vec<String>, a: &str)
    ensures
        string_views(final(args)@) == string_views(old(args)@).push(a@),
{
    let ghost before = args@;
    args.push(String::from_str(a));
    assert(string_views(args@) =~= string_views(before).push(a@));
}

fn push_tag(args: &mut Vec<String>, meta: &MetaData, key: &str, meta_key: &str)
    ensures
        string_views(final(args)@) == string_views(old(args)@) + tag_arg(meta.deep(), key@, meta_key@),
{
    reveal(tag_arg);
    let ghost before = args@;
    if let Some(value) = meta.get_value(meta_key) {
        push_arg(args, "-metadata");
        let mut kv = chars_of(key);
        extend(&mut kv, chars_of("=").as_slice());
        extend(&mut kv, chars_of(value.as_str()).as_slice());
        let ghost mid = args@;
        args.push(string_of(kv.as_slice()));
        assert(string_views(args@) =~= string_views(mid).push(kv@));
        assert(string_views(args@) =~= string_views(before) + tag_arg(meta.deep(), key@, meta_key@));
    } else {
        assert(string_views(args@) =~= string_views(before) + tag_arg(meta.deep(), key@, meta_key@));
    }
}

fn push_log_args(args: &mut Vec<String>, verbose: bool)
    ensures
        string_views(final(args)@) == string_views(old(args)@) + (if verbose {
            seq!["-loglevel"@, "info"@]
        } else {
            seq!["-loglevel"@, "error"@, "-stats"@]
        }),
{
    let ghost before = string_views(args@);
    if verbose {
        push_arg(args, "-loglevel");
        push_arg(args, "info");
    } else {
        push_arg(args, "-loglevel");
        push_arg(args, "error");
        push_arg(args, "-stats");
    }
    assert(string_views(args@) =~= before + (if verbose {
        seq!["-loglevel"@, "info"@]
    } else {
        seq!["-loglevel"@, "error"@, "-stats"@]
    }));
}

fn push_input_args(args: &mut Vec<String>, input: &FfmpegInput)
    ensures
        string_views(final(args)@) == string_views(old(args)@) + input_args(*input),
{
    let ghost before = string_views(args@);
    match input {
        FfmpegInput::Concat(list) => {
            push_arg(args, "-f");
            push_arg(args, "concat");
            push_arg(args, "-safe");
            push_arg(args, "0");
            push_arg(args, "-i");
            push_arg(args, list.as_str());
        },
        FfmpegInput::Single(p) => {
            push_arg(args, "-i");
            push_arg(args, p.as_str());
        },
    }
    assert(string_views(args@) =~= before + input_args(*input));
}

fn push_codec_args(args: &mut Vec<String>, format: AudioFormat, level: u32)
    ensures
        string_views(final(args)@) == string_views(old(args)@) + (if format == AudioFormat::Flac {
            seq!["-compression_level"@, decimal(level as nat)]
        } else {
            Seq::empty()
        }),
{
    let ghost before = string_views(args@);
    if format == AudioFormat::Flac {
        push_arg(args, "-compression_level");
        let text = u64_to_string(level as u64);
        push_arg(args, text.as_str());
    }
    assert(string_views(args@) =~= before + (if format == AudioFormat::Flac {
        seq!["-compression_level"@, decimal(level as nat)]
    } else {
        Seq::empty()
    }));
}

fn push_tag_args(args: &mut Vec<String>, meta: &MetaData)
    ensures
        string_views(final(args)@) == string_views(old(args)@) + tag_args(meta.deep()),
{
    let ghost before = string_views(args@);
    let ghost m = meta.deep();
    push_tag(args, meta, "album", "album");
    let ghost p1 = tag_arg(m, "album"@, "album"@);
    push_tag(args, meta, "artist", "artist");
    let ghost p2 = p1 + tag_arg(m, "artist"@, "artist"@);
    assert(string_views(args@) =~= before + p2);
    push_tag(args, meta, "date", "date");
    let ghost p3 = p2 + tag_arg(m, "date"@, "date"@);
    assert(string_views(args@) =~= before + p3);
    push_tag(args, meta, "genre", "genre");
    let ghost p4 = p3 + tag_arg(m, "genre"@, "genre"@);
    assert(string_views(args@) =~= before + p4);
    push_tag(args, meta, "title", "title");
    let ghost p5 = p4 + tag_arg(m, "title"@, "title"@);
    assert(string_views(args@) =~= before + p5);
    push_tag(args, meta, "track", "tracknumber");
    let ghost p6 = p5 + tag_arg(m, "track"@, "tracknumber"@);
    assert(string_views(args@) =~= before + p6);
    push_tag(args, meta, "totaltracks", "tracktotal");
    let ghost p7 = p6 + tag_arg(m, "totaltracks"@, "tracktotal"@);
    assert(string_views(args@) =~= before + p7);
    push_tag(args, meta, "disc", "discnumber");
    let ghost p8 = p7 + tag_arg(m, "disc"@, "discnumber"@);
    assert(string_views(args@) =~= before + p8);
    push_tag(args, meta, "disctotal", "disctotal");
    let ghost p9 = p8 + tag_arg(m, "disctotal"@, "disctotal"@);
    assert(string_views(args@) =~= before + p9);
    assert(p9 == tag_args(m));
}

/// Builds the encoder's command line for one track.
pub fn ffmpeg_args(
    input: &FfmpegInput,
    verbose: bool,
    config: &Config,
    track_info: &MetaData,
    file_out: &str,
) -> (r: Vec<String>)
    ensures
        string_views(r@) == ffmpeg_command(
            *input,
            verbose,
            config.encode.format,
            config.flac.compression_level,
            track_info.deep(),
            file_out@,
        ),
{
    let mut args: Vec<String> = Vec::new();
    push_arg(&mut args, "-hide_banner");
    let ghost s1 = string_views(args@);
    push_log_args(&mut args, verbose);
    let ghost s2 = string_views(args@);
    push_input_args(&mut args, input);
    let ghost s3 = string_views(args@);
    push_codec_args(&mut args, config.encode.format, config.flac.compression_level);
    let ghost s4 = string_views(args@);
    push_tag_args(&mut args, track_info);
    let ghost s5 = string_views(args@);
    push_arg(&mut args, file_out);
    push_arg(&mut args, "-y");
    assert(string_views(args@) =~= s5 + seq![file_out@, "-y"@]);
    assert(s1 =~= seq!["-hide_banner"@]);
    assert(string_views(args@) =~= ffmpeg_command(
        *input,
        verbose,
        config.encode.format,
        config.flac.compression_level,
        track_info.deep(),
        file_out@,
    ));
    args
}

} // verus!

verus! {

/// Whether no character of `s` is `=`.
pub open spec fn no_equals(s: Seq<char>) -> bool {
    forall|i: int| 0 <= i < s.len() ==> #[trigger] s[i] != '='
}

/// Whether the argument `e` is a tag named `name`: it begins with `name=`.
pub open spec fn names_tag(e: Seq<char>, name: Seq<char>) -> bool {
    e.len() > name.len() && e.take(name.len() as int + 1) == name.push('=')
}

/// Whether the arguments hold the pair `-metadata`, `name=v`.
pub open spec fn has_tag_pair(s: Seq<Seq<char>>, name: Seq<char>, v: Seq<char>) -> bool {
    exists|i: int| 0 <= i && i + 1 < s.len() && s[i] == "-metadata"@ && #[trigger] s[i + 1] == name.push('=') + v
}

/// Whether every argument that is a tag named `name` carries the track's
/// value under `key`.
pub open spec fn tag_only_from(s: Seq<Seq<char>>, m: MetaView, name: Seq<char>, key: Seq<char>) -> bool {
    forall|i: int| 0 <= i < s.len() && names_tag(#[trigger] s[i], name) ==> value_at(m, key) == Some(
        s[i].skip(name.len() as int + 1),
    )
}

/// Whether the arguments carry the tag `name` from the track's value under
/// `key`: the pair `-metadata`, `name=v` is there when the track has the value
/// `v`, and no tag named `name` carries anything else.
pub open spec fn carries_tag(s: Seq<Seq<char>>, m: MetaView, name: Seq<char>, key: Seq<char>) -> bool {
    &&& value_at(m, key) is Some ==> has_tag_pair(s, name, value_at(m, key)->0)
    &&& tag_only_from(s, m, name, key)
}

proof fn lemma_split_tag(n: Seq<char>, v: Seq<char>, name: Seq<char>)
    requires
        no_equals(n),
        no_equals(name),
        names_tag(n.push('=') + v, name),
    ensures
        n == name,
        (n.push('=') + v).skip(name.len() as int + 1) == v,
{
    let e = n.push('=') + v;
    assert(e.take(name.len() as int + 1)[name.len() as int] == '=');
    if n.len() > name.len() {
        assert(e[name.len() as int] == n[name.len() as int]);
    } else if n.len() < name.len() {
        assert(e[n.len() as int] == '=');
        assert(e.take(name.len() as int + 1)[n.len() as int] == name[n.len() as int]);
    } else {
        assert(n =~= name) by {
            assert forall|i: int| 0 <= i < n.len() implies n[i] == name[i] by {
                assert(e.take(name.len() as int + 1)[i] == name.push('=')[i]);
            }
        }
        assert(e.skip(name.len() as int + 1) =~= v);
    }
}

proof fn lemma_tag_arg_only(m: MetaView, n: Seq<char>, k: Seq<char>, name: Seq<char>, key: Seq<char>)
    requires
        no_equals(n),
        no_equals(name),
        n == name ==> k == key,
    ensures
        tag_only_from(tag_arg(m, n, k), m, name, key),
{
    reveal(tag_arg);
    reveal_strlit("-metadata");
    reveal_strlit("=");
    assert(n + "="@ =~= n.push('='));
    let s = tag_arg(m, n, k);
    assert forall|i: int| 0 <= i < s.len() && names_tag(#[trigger] s[i], name) implies value_at(m, key) == Some(
        s[i].skip(name.len() as int + 1),
    ) by {
        let v = value_at(m, k)->0;
        if i == 0 {
            assert("-metadata"@[name.len() as int] == s[0].take(name.len() as int + 1)[name.len() as int]);
        } else {
            lemma_split_tag(n, v, name);
        }
    }
}

proof fn lemma_tag_arg_pair(m: MetaView, n: Seq<char>, k: Seq<char>)
    requires
        value_at(m, k) is Some,
    ensures
        has_tag_pair(tag_arg(m, n, k), n, value_at(m, k)->0),
{
    reveal(tag_arg);
    reveal_strlit("=");
    assert(n + "="@ =~= n.push('='));
    let s = tag_arg(m, n, k);
    let i: int = 0;
    assert(s[i] == "-metadata"@);
    assert(s[i + 1] == n.push('=') + value_at(m, k)->0);
}

proof fn lemma_only_concat(a: Seq<Seq<char>>, b: Seq<Seq<char>>, m: MetaView, name: Seq<char>, key: Seq<char>)
    requires
        tag_only_from(a, m, name, key),
        tag_only_from(b, m, name, key),
    ensures
        tag_only_from(a + b, m, name, key),
{
    let s = a + b;
    assert forall|i: int| 0 <= i < s.len() && names_tag(#[trigger] s[i], name) implies value_at(m, key) == Some(
        s[i].skip(name.len() as int + 1),
    ) by {
        if i < a.len() {
            assert(s[i] == a[i]);
        } else {
            assert(s[i] == b[i - a.len()]);
        }
    }
}

proof fn lemma_pair_concat(a: Seq<Seq<char>>, b: Seq<Seq<char>>, name: Seq<char>, v: Seq<char>)
    ensures
        has_tag_pair(a, name, v) ==> has_tag_pair(a + b, name, v),
        has_tag_pair(b, name, v) ==> has_tag_pair(a + b, name, v),
{
    let s = a + b;
    if has_tag_pair(a, name, v) {
        let i = choose|i: int| 0 <= i && i + 1 < a.len() && a[i] == "-metadata"@ && #[trigger] a[i + 1] == name.push('=') + v;
        assert(s[i] == a[i] && s[i + 1] == a[i + 1]);
    }
    if has_tag_pair(b, name, v) {
        let i = choose|i: int| 0 <= i && i + 1 < b.len() && b[i] == "-metadata"@ && #[trigger] b[i + 1] == name.push('=') + v;
        assert(s[a.len() + i] == b[i] && s[a.len() + i + 1] == b[i + 1]);
    }
}

proof fn lemma_tag_args_only(m: MetaView, name: Seq<char>, key: Seq<char>)
    requires
        no_equals(name),
        no_equals("album"@) && no_equals("artist"@) && no_equals("date"@) && no_equals("genre"@),
        no_equals("title"@) && no_equals("track"@) && no_equals("totaltracks"@) && no_equals("disc"@),
        no_equals("disctotal"@),
        name == "album"@ ==> key == "album"@,
        name == "artist"@ ==> key == "artist"@,
        name == "date"@ ==> key == "date"@,
        name == "genre"@ ==> key == "genre"@,
        name == "title"@ ==> key == "title"@,
        name == "track"@ ==> key == "tracknumber"@,
        name == "totaltracks"@ ==> key == "tracktotal"@,
        name == "disc"@ ==> key == "discnumber"@,
        name == "disctotal"@ ==> key == "disctotal"@,
    ensures
        tag_only_from(tag_args(m), m, name, key),
{
    let a1 = tag_arg(m, "album"@, "album"@);
    let a2 = tag_arg(m, "artist"@, "artist"@);
    let a3 = tag_arg(m, "date"@, "date"@);
    let a4 = tag_arg(m, "genre"@, "genre"@);
    let a5 = tag_arg(m, "title"@, "title"@);
    let a6 = tag_arg(m, "track"@, "tracknumber"@);
    let a7 = tag_arg(m, "totaltracks"@, "tracktotal"@);
    let a8 = tag_arg(m, "disc"@, "discnumber"@);
    let a9 = tag_arg(m, "disctotal"@, "disctotal"@);
    lemma_tag_arg_only(m, "album"@, "album"@, name, key);
    lemma_tag_arg_only(m, "artist"@, "artist"@, name, key);
    lemma_tag_arg_only(m, "date"@, "date"@, name, key);
    lemma_tag_arg_only(m, "genre"@, "genre"@, name, key);
    lemma_tag_arg_only(m, "title"@, "title"@, name, key);
    lemma_tag_arg_only(m, "track"@, "tracknumber"@, name, key);
    lemma_tag_arg_only(m, "totaltracks"@, "tracktotal"@, name, key);
    lemma_tag_arg_only(m, "disc"@, "discnumber"@, name, key);
    lemma_tag_arg_only(m, "disctotal"@, "disctotal"@, name, key);
    lemma_only_concat(a1, a2, m, name, key);
    lemma_only_concat(a1 + a2, a3, m, name, key);
    lemma_only_concat(a1 + a2 + a3, a4, m, name, key);
    lemma_only_concat(a1 + a2 + a3 + a4, a5, m, name, key);
    lemma_only_concat(a1 + a2 + a3 + a4 + a5, a6, m, name, key);
    lemma_only_concat(a1 + a2 + a3 + a4 + a5 + a6, a7, m, name, key);
    lemma_only_concat(a1 + a2 + a3 + a4 + a5 + a6 + a7, a8, m, name, key);
    lemma_only_concat(a1 + a2 + a3 + a4 + a5 + a6 + a7 + a8, a9, m, name, key);
}

proof fn lemma_tag_args_pair(m: MetaView, j: int, name: Seq<char>, key: Seq<char>)
    requires
        0 <= j < 9,
        value_at(m, key) is Some,
        j == 0 ==> name == "album"@ && key == "album"@,
        j == 1 ==> name == "artist"@ && key == "artist"@,
        j == 2 ==> name == "date"@ && key == "date"@,
        j == 3 ==> name == "genre"@ && key == "genre"@,
        j == 4 ==> name == "title"@ && key == "title"@,
        j == 5 ==> name == "track"@ && key == "tracknumber"@,
        j == 6 ==> name == "totaltracks"@ && key == "tracktotal"@,
        j == 7 ==> name == "disc"@ && key == "discnumber"@,
        j == 8 ==> name == "disctotal"@ && key == "disctotal"@,
    ensures
        has_tag_pair(tag_args(m), name, value_at(m, key)->0),
{
    let v = value_at(m, key)->0;
    let parts = seq![
        tag_arg(m, "album"@, "album"@),
        tag_arg(m, "artist"@, "artist"@),
        tag_arg(m, "date"@, "date"@),
        tag_arg(m, "genre"@, "genre"@),
        tag_arg(m, "title"@, "title"@),
        tag_arg(m, "track"@, "tracknumber"@),
        tag_arg(m, "totaltracks"@, "tracktotal"@),
        tag_arg(m, "disc"@, "discnumber"@),
        tag_arg(m, "disctotal"@, "disctotal"@),
    ];
    assert(parts[j] == tag_arg(m, name, key));
    lemma_tag_arg_pair(m, name, key);
    let a1 = parts[0];
    let a2 = a1 + parts[1];
    let a3 = a2 + parts[2];
    let a4 = a3 + parts[3];
    let a5 = a4 + parts[4];
    let a6 = a5 + parts[5];
    let a7 = a6 + parts[6];
    let a8 = a7 + parts[7];
    let a9 = a8 + parts[8];
    lemma_pair_concat(a1, parts[1], name, v);
    lemma_pair_concat(a2, parts[2], name, v);
    lemma_pair_concat(a3, parts[3], name, v);
    lemma_pair_concat(a4, parts[4], name, v);
    lemma_pair_concat(a5, parts[5], name, v);
    lemma_pair_concat(a6, parts[6], name, v);
    lemma_pair_concat(a7, parts[7], name, v);
    lemma_pair_concat(a8, parts[8], name, v);
    assert(a9 == tag_args(m));
}

/// The encoder's tags carry the track's metadata under fixed names: `album`,
/// `artist`, `date`, `genre` and `title` from the keys of the same names,
/// `track` from `tracknumber`, `totaltracks` from `tracktotal`, `disc` from
/// `discnumber` and `disctotal` from `disctotal`. Each present value gives the
/// pair `-metadata`, `name=value`, in the tag arguments and so in the whole
/// command line, and no tag of that name carries anything else.
pub proof fn law_tags_carry_metadata(
    input: FfmpegInput,
    verbose: bool,
    format: AudioFormat,
    compression_level: u32,
    meta: MetaView,
    file_out: Seq<char>,
)
    ensures
        ({
            let t = tag_args(meta);
            let cmd = ffmpeg_command(input, verbose, format, compression_level, meta, file_out);
            &&& carries_tag(t, meta, "album"@, "album"@)
            &&& carries_tag(t, meta, "artist"@, "artist"@)
            &&& carries_tag(t, meta, "date"@, "date"@)
            &&& carries_tag(t, meta, "genre"@, "genre"@)
            &&& carries_tag(t, meta, "title"@, "title"@)
            &&& carries_tag(t, meta, "track"@, "tracknumber"@)
            &&& carries_tag(t, meta, "totaltracks"@, "tracktotal"@)
            &&& carries_tag(t, meta, "disc"@, "discnumber"@)
            &&& carries_tag(t, meta, "disctotal"@, "disctotal"@)
            &&& forall|name: Seq<char>, v: Seq<char>| #[trigger] has_tag_pair(t, name, v) ==> has_tag_pair(cmd, name, v)
        }),
{
    reveal_strlit("album");
    reveal_strlit("artist");
    reveal_strlit("date");
    reveal_strlit("genre");
    reveal_strlit("title");
    reveal_strlit("track");
    reveal_strlit("totaltracks");
    reveal_strlit("disc");
    reveal_strlit("disctotal");
    assert(no_equals("album"@) && no_equals("artist"@) && no_equals("date"@) && no_equals("genre"@));
    assert(no_equals("title"@) && no_equals("track"@) && no_equals("totaltracks"@) && no_equals("disc"@));
    assert(no_equals("disctotal"@));
    assert("album"@.len() == 5 && "genre"@.len() == 5 && "title"@.len() == 5 && "track"@.len() == 5);
    assert("artist"@.len() == 6 && "date"@.len() == 4 && "disc"@.len() == 4);
    assert("totaltracks"@.len() == 11 && "disctotal"@.len() == 9);
    assert("album"@[0] != "genre"@[0] && "album"@[0] != "title"@[0] && "album"@[0] != "track"@[0]);
    assert("genre"@[0] != "title"@[0] && "genre"@[0] != "track"@[0] && "title"@[1] != "track"@[1]);
    assert("date"@[1] != "disc"@[1]);
    lemma_tag_args_only(meta, "album"@, "album"@);
    lemma_tag_args_only(meta, "artist"@, "artist"@);
    lemma_tag_args_only(meta, "date"@, "date"@);
    lemma_tag_args_only(meta, "genre"@, "genre"@);
    lemma_tag_args_only(meta, "title"@, "title"@);
    lemma_tag_args_only(meta, "track"@, "tracknumber"@);
    lemma_tag_args_only(meta, "totaltracks"@, "tracktotal"@);
    lemma_tag_args_only(meta, "disc"@, "discnumber"@);
    lemma_tag_args_only(meta, "disctotal"@, "disctotal"@);
    if value_at(meta, "album"@) is Some {
        lemma_tag_args_pair(meta, 0, "album"@, "album"@);
    }
    if value_at(meta, "artist"@) is Some {
        lemma_tag_args_pair(meta, 1, "artist"@, "artist"@);
    }
    if value_at(meta, "date"@) is Some {
        lemma_tag_args_pair(meta, 2, "date"@, "date"@);
    }
    if value_at(meta, "genre"@) is Some {
        lemma_tag_args_pair(meta, 3, "genre"@, "genre"@);
    }
    if value_at(meta, "title"@) is Some {
        lemma_tag_args_pair(meta, 4, "title"@, "title"@);
    }
    if value_at(meta, "tracknumber"@) is Some {
        lemma_tag_args_pair(meta, 5, "track"@, "tracknumber"@);
    }
    if value_at(meta, "tracktotal"@) is Some {
        lemma_tag_args_pair(meta, 6, "totaltracks"@, "tracktotal"@);
    }
    if value_at(meta, "discnumber"@) is Some {
        lemma_tag_args_pair(meta, 7, "disc"@, "discnumber"@);
    }
    if value_at(meta, "disctotal"@) is Some {
        lemma_tag_args_pair(meta, 8, "disctotal"@, "disctotal"@);
    }
    let t = tag_args(meta);
    let cmd = ffmpeg_command(input, verbose, format, compression_level, meta, file_out);
    let head = seq!["-hide_banner"@] + (if verbose {
        seq!["-loglevel"@, "info"@]
    } else {
        seq!["-loglevel"@, "error"@, "-stats"@]
    }) + input_args(input) + (if format == AudioFormat::Flac {
        seq!["-compression_level"@, decimal(compression_level as nat)]
    } else {
        Seq::empty()
    });
    assert(cmd == head + t + seq![file_out, "-y"@]);
    assert forall|name: Seq<char>, v: Seq<char>| #[trigger] has_tag_pair(t, name, v) implies has_tag_pair(cmd, name, v) by {
        lemma_pair_concat(head, t, name, v);
        lemma_pair_concat(head + t, seq![file_out, "-y"@], name, v);
    }
}

} // verus!
