//! Safe file names and the directory and file names made from templates.
use vstd::prelude::*;

use crate::config::AudioFormat;
use crate::metadata::{value_at, MetaData, MetaView};
use crate::text::{
    chars_of, is_white_space, law_trimmed, lemma_filter_all, replace, replaced, string_of, trim,
    trimmed,
};

verus! {

/// A character with path separators turned into hyphens.
pub open spec fn unslashed(c: char) -> char {
    if c == '\\' || c == '/' {
        '-'
    } else {
        c
    }
}

/// Whether a character is removed from file names.
pub open spec fn is_forbidden(c: char) -> bool {
    c == '<' || c == '>' || c == ':' || c == '"' || c == '|' || c == '?' || c == '*'
}

/// `s` made safe for a file name: separators become hyphens, characters that
/// file systems refuse are dropped, and surrounding whitespace is trimmed.
pub open spec fn sanitized(s: Seq<char>) -> Seq<char> {
    trimmed(s.map_values(|c: char| unslashed(c)).filter(|c: char| !is_forbidden(c)))
}

/// Removes or replaces characters that are illegal in file systems.
pub fn sanitize(text: &str) -> (r: String)
    ensures
        r@ == sanitized(text@),
{
    let v = chars_of(text);
    let ghost mapped = v@.map_values(|c: char| unslashed(c));
    let mut kept: Vec<char> = Vec::new();
    for i in 0..v.len()
        invariant
            mapped == v@.map_values(|c: char| unslashed(c)),
            kept@ == mapped.take(i as int).filter(|c: char| !is_forbidden(c)),
    {
        proof {
            reveal_with_fuel(Seq::<_>::filter, 1);
            assert(mapped.take(i + 1).drop_last() == mapped.take(i as int));
        }
        let c = if v[i] == '\\' || v[i] == '/' { '-' } else { v[i] };
        assert(c == mapped[i as int]);
        if !(c == '<' || c == '>' || c == ':' || c == '"' || c == '|' || c == '?' || c == '*') {
            kept.push(c);
        }
    }
    assert(mapped.take(v@.len() as int) == mapped);
    let t = trim(kept.as_slice());
    string_of(t.as_slice())
}

/// The text stored under `key`, or nothing.
pub open spec fn value_or_empty(m: MetaView, key: Seq<char>) -> Seq<char> {
    match value_at(m, key) {
        Some(s) => s,
        None => Seq::empty(),
    }
}

/// `template` with `placeholder` replaced by the sanitized value of `key`.
pub open spec fn substituted(template: Seq<char>, placeholder: Seq<char>, m: MetaView, key: Seq<char>) -> Seq<char> {
    replaced(template, placeholder, sanitized(value_or_empty(m, key)))
}

fn substitute(template: Vec<char>, placeholder: &str, meta: &MetaData, key: &str) -> (r: Vec<char>)
    requires
        placeholder@.len() > 0,
    ensures
        r@ == substituted(template@, placeholder@, meta.deep(), key@),
{
    let value = match meta.get_value(key) {
        Some(s) => sanitize(s.as_str()),
        None => sanitize(""),
    };
    proof {
        reveal_strlit("");
    }
    let p = chars_of(placeholder);
    let val = chars_of(value.as_str());
    replace(template.as_slice(), p.as_slice(), val.as_slice())
}

/// The album directory, below the output folder, named by the directory
/// template: `{artist}`, `{album}` and `{date}` are replaced by the sanitized
/// values of the keys `artist`, `albumtitle` and `date`.
pub open spec fn album_path_text(m: MetaView, template: Seq<char>) -> Seq<char> {
    let t1 = substituted(template, "{artist}"@, m, "artist"@);
    let t2 = substituted(t1, "{album}"@, m, "albumtitle"@);
    substituted(t2, "{date}"@, m, "date"@)
}

/// Uses the album metadata to name the album directory.
pub fn album_path(meta: &MetaData, template: &str) -> (r: String)
    ensures
        r@ == album_path_text(meta.deep(), template@),
{
    proof {
        reveal_strlit("{artist}");
        reveal_strlit("{album}");
        reveal_strlit("{date}");
    }
    let t = chars_of(template);
    let t = substitute(t, "{artist}", meta, "artist");
    let t = substitute(t, "{album}", meta, "albumtitle");
    let t = substitute(t, "{date}", meta, "date");
    string_of(t.as_slice())
}

/// The track file name, below the album directory, named by the file template:
/// `{discnumber}`, `{disctotal}`, `{tracknumber}`, `{title}`, `{artist}` and
/// `{albumartist}` are replaced by the sanitized values of the keys of the same
/// names, and `{suffix}` by the format's file extension.
pub open spec fn track_path_text(m: MetaView, format: AudioFormat, template: Seq<char>) -> Seq<char> {
    let t1 = substituted(template, "{discnumber}"@, m, "discnumber"@);
    let t2 = substituted(t1, "{disctotal}"@, m, "disctotal"@);
    let t3 = substituted(t2, "{tracknumber}"@, m, "tracknumber"@);
    let t4 = substituted(t3, "{title}"@, m, "title"@);
    let t5 = substituted(t4, "{artist}"@, m, "artist"@);
    let t6 = substituted(t5, "{albumartist}"@, m, "albumartist"@);
    replaced(t6, "{suffix}"@, format.suffix_name())
}

/// Uses the track metadata to name the track file.
pub fn track_path(track_meta: &MetaData, format: &AudioFormat, template: &str) -> (r: String)
    ensures
        r@ == track_path_text(track_meta.deep(), *format, template@),
{
    proof {
        reveal_strlit("{discnumber}");
        reveal_strlit("{disctotal}");
        reveal_strlit("{tracknumber}");
        reveal_strlit("{title}");
        reveal_strlit("{artist}");
        reveal_strlit("{albumartist}");
        reveal_strlit("{suffix}");
    }
    let t = chars_of(template);
    let t = substitute(t, "{discnumber}", track_meta, "discnumber");
    let t = substitute(t, "{disctotal}", track_meta, "disctotal");
    let t = substitute(t, "{tracknumber}", track_meta, "tracknumber");
    let t = substitute(t, "{title}", track_meta, "title");
    let t = substitute(t, "{artist}", track_meta, "artist");
    let t = substitute(t, "{albumartist}", track_meta, "albumartist");
    let p = chars_of("{suffix}");
    let ext = chars_of(format.suffix());
    let t = replace(t.as_slice(), p.as_slice(), ext.as_slice());
    string_of(t.as_slice())
}

} // verus!

verus! {

/// A sanitized name holds no path separator and none of `<>:"|?*`, has no
/// whitespace at either end, and sanitizing it again changes nothing.
pub proof fn law_sanitized(s: Seq<char>)
    ensures
        forall|i: int|
            0 <= i < sanitized(s).len() ==> #[trigger] sanitized(s)[i] != '\\' && sanitized(s)[i] != '/'
                && !is_forbidden(sanitized(s)[i]),
        sanitized(s).len() > 0 ==> !is_white_space(sanitized(s)[0]) && !is_white_space(sanitized(s).last()),
        sanitized(sanitized(s)) == sanitized(s),
{
    let mapped = s.map_values(|c: char| unslashed(c));
    let pred = |c: char| !is_forbidden(c);
    let f = mapped.filter(pred);
    mapped.filter_lemma(pred);
    assert forall|i: int| 0 <= i < f.len() implies #[trigger] f[i] != '\\' && f[i] != '/' && !is_forbidden(f[i]) by {
        assert(f.contains(f[i]));
        mapped.lemma_filter_contains_rev(pred, f[i]);
        let j = choose|j: int| 0 <= j < mapped.len() && mapped[j] == f[i];
        assert(mapped[j] == unslashed(s[j]));
    }
    law_trimmed(f);
    let t = trimmed(f);
    assert(t == sanitized(s));
    let a = choose|a: int| 0 <= a <= f.len() - t.len() && t == #[trigger] f.subrange(a, a + t.len());
    assert forall|i: int| 0 <= i < t.len() implies #[trigger] t[i] != '\\' && t[i] != '/' && !is_forbidden(t[i]) by {
        assert(t[i] == f[a + i]);
    }
    let tm = t.map_values(|c: char| unslashed(c));
    assert(tm =~= t);
    lemma_filter_all(t, pred);
    assert(sanitized(t) == trimmed(t.map_values(|c: char| unslashed(c)).filter(|c: char| !is_forbidden(c))));
    assert(t.filter(pred) == t);
}

} // verus!

verus! {

/// Whether no character of `s` is `{`.
pub open spec fn brace_free(s: Seq<char>) -> bool {
    forall|i: int| 0 <= i < s.len() ==> #[trigger] s[i] != '{'
}

/// Whether `p` is a placeholder: `{`, then characters other than braces, then `}`.
pub open spec fn is_placeholder(p: Seq<char>) -> bool {
    &&& p.len() >= 2
    &&& p[0] == '{'
    &&& p.last() == '}'
    &&& forall|i: int| 0 < i < p.len() ==> #[trigger] p[i] != '{'
    &&& forall|i: int| 0 <= i < p.len() - 1 ==> #[trigger] p[i] != '}'
}

proof fn lemma_replace_after_plain(a: Seq<char>, t: Seq<char>, p: Seq<char>, r: Seq<char>)
    requires
        brace_free(a),
        p.len() > 0,
        p[0] == '{',
    ensures
        replaced(a + t, p, r) == a + replaced(t, p, r),
    decreases a.len(),
{
    let s = a + t;
    if a.len() == 0 {
        assert(s =~= t);
        assert(a + replaced(t, p, r) =~= replaced(t, p, r));
    } else if s.len() < p.len() {
        assert(a + replaced(t, p, r) =~= s);
    } else {
        assert(s.take(p.len() as int)[0] != p[0]);
        assert(s.skip(1) =~= a.skip(1) + t);
        lemma_replace_after_plain(a.skip(1), t, p, r);
        assert(seq![s[0]] + (a.skip(1) + replaced(t, p, r)) =~= a + replaced(t, p, r));
    }
}

proof fn lemma_replace_in_plain(a: Seq<char>, p: Seq<char>, r: Seq<char>)
    requires
        brace_free(a),
        p.len() > 0,
        p[0] == '{',
    ensures
        replaced(a, p, r) == a,
{
    let e = Seq::<char>::empty();
    lemma_replace_after_plain(a, e, p, r);
    assert(a + e =~= a);
    assert(a + replaced(e, p, r) =~= a);
}

proof fn lemma_replace_step(a: Seq<char>, b: Seq<char>, p: Seq<char>, v: Seq<char>, q: Seq<char>, r: Seq<char>)
    requires
        brace_free(a),
        brace_free(b),
        brace_free(v),
        is_placeholder(p),
        is_placeholder(q),
        p == q ==> r == v,
    ensures
        replaced(a + p + b, q, r) == (if p == q {
            a + v + b
        } else {
            a + p + b
        }),
        replaced(a + v + b, q, r) == a + v + b,
{
    assert(brace_free(a + v + b)) by {
        assert forall|i: int| 0 <= i < (a + v + b).len() implies #[trigger] (a + v + b)[i] != '{' by {
            if i < a.len() {
            } else if i < a.len() + v.len() {
                assert((a + v + b)[i] == v[i - a.len()]);
            } else {
                assert((a + v + b)[i] == b[i - a.len() - v.len()]);
            }
        }
    }
    lemma_replace_in_plain(a + v + b, q, r);
    assert(a + p + b =~= a + (p + b));
    lemma_replace_after_plain(a, p + b, q, r);
    let s = p + b;
    if p == q {
        assert(s.take(q.len() as int) =~= q);
        assert(s.skip(q.len() as int) =~= b);
        lemma_replace_in_plain(b, q, r);
        assert(a + (v + b) =~= a + v + b);
    } else if s.len() >= q.len() {
        assert(s.take(q.len() as int) != q) by {
            if q.len() < p.len() {
                assert(s.take(q.len() as int)[q.len() - 1] == p[q.len() - 1]);
            } else if q.len() > p.len() {
                assert(s.take(q.len() as int)[p.len() - 1] == p[p.len() - 1]);
            } else {
                assert(s.take(q.len() as int) =~= p);
            }
        }
        assert(brace_free(s.skip(1))) by {
            assert forall|i: int| 0 <= i < s.skip(1).len() implies #[trigger] s.skip(1)[i] != '{' by {
                if i + 1 < p.len() {
                    assert(s.skip(1)[i] == p[i + 1]);
                } else {
                    assert(s.skip(1)[i] == b[i + 1 - p.len()]);
                }
            }
        }
        lemma_replace_in_plain(s.skip(1), q, r);
        assert(seq![s[0]] + s.skip(1) =~= s);
    }
}

/// In a track file name template made of plain text around one placeholder,
/// the placeholder is replaced by what it stands for and the text around it is
/// kept: `{discnumber}`, `{disctotal}`, `{tracknumber}`, `{title}`, `{artist}`
/// and `{albumartist}` by the sanitized value of the key of the same name, and
/// `{suffix}` by the format's file extension (plain text has no `{`, nor has
/// the value put in).
pub proof fn law_track_path_placeholder(
    m: MetaView,
    format: AudioFormat,
    before: Seq<char>,
    placeholder: Seq<char>,
    after: Seq<char>,
    value: Seq<char>,
)
    requires
        brace_free(before),
        brace_free(after),
        brace_free(value),
        ({
            ||| placeholder == "{discnumber}"@ && value == sanitized(value_or_empty(m, "discnumber"@))
            ||| placeholder == "{disctotal}"@ && value == sanitized(value_or_empty(m, "disctotal"@))
            ||| placeholder == "{tracknumber}"@ && value == sanitized(value_or_empty(m, "tracknumber"@))
            ||| placeholder == "{title}"@ && value == sanitized(value_or_empty(m, "title"@))
            ||| placeholder == "{artist}"@ && value == sanitized(value_or_empty(m, "artist"@))
            ||| placeholder == "{albumartist}"@ && value == sanitized(value_or_empty(m, "albumartist"@))
            ||| placeholder == "{suffix}"@ && value == format.suffix_name()
        }),
    ensures
        track_path_text(m, format, before + placeholder + after) == before + value + after,
{
    reveal_strlit("{discnumber}");
    reveal_strlit("{disctotal}");
    reveal_strlit("{tracknumber}");
    reveal_strlit("{title}");
    reveal_strlit("{artist}");
    reveal_strlit("{albumartist}");
    reveal_strlit("{suffix}");
    let p1 = "{discnumber}"@;
    let p2 = "{disctotal}"@;
    let p3 = "{tracknumber}"@;
    let p4 = "{title}"@;
    let p5 = "{artist}"@;
    let p6 = "{albumartist}"@;
    let p7 = "{suffix}"@;
    assert(is_placeholder(p1) && is_placeholder(p2) && is_placeholder(p3) && is_placeholder(p4));
    assert(is_placeholder(p5) && is_placeholder(p6) && is_placeholder(p7));
    assert(p1.len() == 12 && p2.len() == 11 && p3.len() == 13 && p4.len() == 7);
    assert(p5.len() == 8 && p6.len() == 13 && p7.len() == 8);
    assert(p3[1] != p6[1] && p5[1] != p7[1]);
    let (a, b, p, v) = (before, after, placeholder, value);
    let r1 = sanitized(value_or_empty(m, "discnumber"@));
    let r2 = sanitized(value_or_empty(m, "disctotal"@));
    let r3 = sanitized(value_or_empty(m, "tracknumber"@));
    let r4 = sanitized(value_or_empty(m, "title"@));
    let r5 = sanitized(value_or_empty(m, "artist"@));
    let r6 = sanitized(value_or_empty(m, "albumartist"@));
    let r7 = format.suffix_name();
    let t0 = a + p + b;
    let t1 = replaced(t0, p1, r1);
    lemma_replace_step(a, b, p, v, p1, r1);
    let t2 = replaced(t1, p2, r2);
    lemma_replace_step(a, b, p, v, p2, r2);
    let t3 = replaced(t2, p3, r3);
    lemma_replace_step(a, b, p, v, p3, r3);
    let t4 = replaced(t3, p4, r4);
    lemma_replace_step(a, b, p, v, p4, r4);
    let t5 = replaced(t4, p5, r5);
    lemma_replace_step(a, b, p, v, p5, r5);
    let t6 = replaced(t5, p6, r6);
    lemma_replace_step(a, b, p, v, p6, r6);
    let t7 = replaced(t6, p7, r7);
    lemma_replace_step(a, b, p, v, p7, r7);
    assert(t7 == a + v + b);
}

/// In an album directory template made of plain text around one placeholder,
/// `{artist}`, `{album}` and `{date}` are replaced by the sanitized values of
/// the keys `artist`, `albumtitle` and `date`, and the text around is kept
/// (plain text has no `{`, nor has the value put in).
pub proof fn law_album_path_placeholder(
    m: MetaView,
    before: Seq<char>,
    placeholder: Seq<char>,
    after: Seq<char>,
    value: Seq<char>,
)
    requires
        brace_free(before),
        brace_free(after),
        brace_free(value),
        ({
            ||| placeholder == "{artist}"@ && value == sanitized(value_or_empty(m, "artist"@))
            ||| placeholder == "{album}"@ && value == sanitized(value_or_empty(m, "albumtitle"@))
            ||| placeholder == "{date}"@ && value == sanitized(value_or_empty(m, "date"@))
        }),
    ensures
        album_path_text(m, before + placeholder + after) == before + value + after,
{
    reveal_strlit("{artist}");
    reveal_strlit("{album}");
    reveal_strlit("{date}");
    let p1 = "{artist}"@;
    let p2 = "{album}"@;
    let p3 = "{date}"@;
    assert(is_placeholder(p1) && is_placeholder(p2) && is_placeholder(p3));
    assert(p1.len() == 8 && p2.len() == 7 && p3.len() == 6);
    let (a, b, p, v) = (before, after, placeholder, value);
    let r1 = sanitized(value_or_empty(m, "artist"@));
    let r2 = sanitized(value_or_empty(m, "albumtitle"@));
    let r3 = sanitized(value_or_empty(m, "date"@));
    lemma_replace_step(a, b, p, v, p1, r1);
    lemma_replace_step(a, b, p, v, p2, r2);
    lemma_replace_step(a, b, p, v, p3, r3);
}

} // verus!
