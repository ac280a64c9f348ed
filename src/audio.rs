//! Audio formats, output file naming and the transcoding step.
use vstd::prelude::*;
use crate::paths::{path_with_extension, with_extension};

verus! {

/// The container an exported file is written in. `Wav` is what the
/// synthesis executable writes natively.
#[derive(Debug, Clone, Copy, PartialEq, Eq, Structural)]
pub enum AudioFormat {
    Wav,
    Mp3,
}

impl Default for AudioFormat {
    fn default() -> (r: Self)
        ensures
            r == AudioFormat::Wav,
    {
        AudioFormat::Wav
    }
}

/// The format the synthesis executable produces without transcoding.
pub open spec fn is_native(format: AudioFormat) -> bool {
    format == AudioFormat::Wav
}

/// File extension implied by a format.
pub open spec fn extension_spec(format: AudioFormat) -> Seq<char> {
    match format {
        AudioFormat::Wav => seq!['w', 'a', 'v'],
        AudioFormat::Mp3 => seq!['m', 'p', '3'],
    }
}

/// Characters a title keeps: ASCII letters and digits, space, underscore, hyphen.
pub open spec fn keeps_char(c: char) -> bool {
    ('a' <= c && c <= 'z') || ('A' <= c && c <= 'Z') || ('0' <= c && c <= '9') || c == ' '
        || c == '_' || c == '-'
}

/// The characters of `s` that a title keeps, in order.
pub open spec fn kept_chars(s: Seq<char>) -> Seq<char>
    decreases s.len(),
{
    if s.len() == 0 {
        Seq::empty()
    } else if keeps_char(s.last()) {
        kept_chars(s.drop_last()).push(s.last())
    } else {
        kept_chars(s.drop_last())
    }
}

/// `s` without its leading spaces.
pub open spec fn trim_start_spaces(s: Seq<char>) -> Seq<char>
    decreases s.len(),
{
    if s.len() > 0 && s[0] == ' ' {
        trim_start_spaces(s.drop_first())
    } else {
        s
    }
}

/// `s` without its trailing spaces.
pub open spec fn trim_end_spaces(s: Seq<char>) -> Seq<char>
    decreases s.len(),
{
    if s.len() > 0 && s.last() == ' ' {
        trim_end_spaces(s.drop_last())
    } else {
        s
    }
}

/// `s` with every space turned into an underscore.
pub open spec fn spaces_to_underscores(s: Seq<char>) -> Seq<char> {
    s.map_values(|c: char| if c == ' ' { '_' } else { c })
}

/// The file stem a title becomes: kept characters, trimmed, spaces as underscores.
/// Among the kept characters the space is the only whitespace, so trimming spaces
/// is trimming whitespace.
pub open spec fn sanitized_title(title: Seq<char>) -> Seq<char> {
    spaces_to_underscores(trim_end_spaces(trim_start_spaces(kept_chars(title))))
}

/// `name` placed inside directory `base`, with one separator between them.
pub open spec fn joined_path(base: Seq<char>, name: Seq<char>) -> Seq<char> {
    if base.len() == 0 || base.last() == '/' {
        base + name
    } else {
        base + seq!['/'] + name
    }
}

/// The path an exported job is written to.
pub open spec fn output_path_spec(base: Seq<char>, title: Seq<char>, format: AudioFormat) -> Seq<
    char,
> {
    joined_path(base, sanitized_title(title) + seq!['.'] + extension_spec(format))
}

proof fn lemma_trim_start_at(s: Seq<char>, k: int)
    requires
        0 <= k <= s.len(),
        forall|j: int| 0 <= j < k ==> s[j] == ' ',
        k == s.len() || s[k] != ' ',
    ensures
        trim_start_spaces(s) == s.subrange(k, s.len() as int),
    decreases k,
{
    if k == 0 {
        assert(s.subrange(0, s.len() as int) =~= s);
    } else {
        let t = s.drop_first();
        assert forall|j: int| 0 <= j < k - 1 implies t[j] == ' ' by {
            assert(t[j] == s[j + 1]);
        }
        lemma_trim_start_at(t, k - 1);
        assert(t.subrange(k - 1, t.len() as int) =~= s.subrange(k, s.len() as int));
    }
}

proof fn lemma_trim_end_at(s: Seq<char>, k: int)
    requires
        0 <= k <= s.len(),
        forall|j: int| k <= j < s.len() ==> s[j] == ' ',
        k == 0 || s[k - 1] != ' ',
    ensures
        trim_end_spaces(s) == s.subrange(0, k),
    decreases s.len() - k,
{
    if k == s.len() {
        assert(s.subrange(0, k) =~= s);
    } else {
        let t = s.drop_last();
        lemma_trim_end_at(t, k);
        assert(t.subrange(0, k) =~= s.subrange(0, k));
    }
}

/// `idx` lists positions of `s` whose characters, in order, are `out`.
spec fn picks(idx: Seq<usize>, s: Seq<char>, out: Seq<char>) -> bool {
    &&& idx.len() == out.len()
    &&& forall|k: int| 0 <= k < idx.len() ==> #[trigger] idx[k] < s.len() && s[idx[k] as int] == out[k]
}

/// Extension text of a format.
pub fn extension_of(format: AudioFormat) -> (r: &'static str)
    ensures
        r@ == extension_spec(format),
{
    proof {
        reveal_strlit("wav");
        reveal_strlit("mp3");
    }
    match format {
        AudioFormat::Wav => "wav",
        AudioFormat::Mp3 => "mp3",
    }
}

/// Reduces a title to a file stem: keeps ASCII letters, digits, spaces,
/// underscores and hyphens, trims surrounding spaces and turns the
/// remaining spaces into underscores. Every title gives a stem, perhaps empty.
pub fn sanitize_title(title: &str) -> (r: String)
    ensures
        r@ == sanitized_title(title@),
{
    let n = title.unicode_len();
    let mut kept: Vec<usize> = Vec::new();
    let mut i: usize = 0;
    while i < n
        invariant
            n == title@.len(),
            i <= n,
            picks(kept@, title@, kept_chars(title@.subrange(0, i as int))),
            forall|k: int| 0 <= k < kept@.len() ==> kept@[k] < i,
        decreases n - i,
    {
        let c = title.get_char(i);
        let ghost prev = kept@;
        let ghost sub = title@.subrange(0, i + 1);
        assert(sub.drop_last() =~= title@.subrange(0, i as int));
        assert(sub.last() == c);
        if ('a' <= c && c <= 'z') || ('A' <= c && c <= 'Z') || ('0' <= c && c <= '9') || c == ' '
            || c == '_' || c == '-' {
            kept.push(i);
            assert(kept_chars(sub) == kept_chars(title@.subrange(0, i as int)).push(c));
            assert forall|k: int| 0 <= k < kept@.len() implies kept@[k] < title@.len()
                && title@[kept@[k] as int] == kept_chars(sub)[k] by {
                if k < prev.len() {
                    assert(kept@[k] == prev[k]);
                }
            }
        } else {
            assert(kept_chars(sub) == kept_chars(title@.subrange(0, i as int)));
        }
        i = i + 1;
    }
    assert(title@.subrange(0, n as int) =~= title@);
    let ghost kc = kept_chars(title@);
    assert(picks(kept@, title@, kc));
    // leading spaces
    let mut lo: usize = 0;
    while lo < kept.len() && title.get_char(kept[lo]) == ' '
        invariant
            n == title@.len(),
            picks(kept@, title@, kc),
            lo <= kept@.len(),
            forall|j: int| 0 <= j < lo ==> kc[j] == ' ',
        decreases kept@.len() - lo,
    {
        lo = lo + 1;
    }
    proof {
        lemma_trim_start_at(kc, lo as int);
    }
    let ghost ts = kc.subrange(lo as int, kc.len() as int);
    let mut hi: usize = kept.len();
    while hi > lo && title.get_char(kept[hi - 1]) == ' '
        invariant
            n == title@.len(),
            picks(kept@, title@, kc),
            lo <= hi <= kept@.len(),
            forall|j: int| hi <= j < kept@.len() ==> kc[j] == ' ',
        decreases hi,
    {
        hi = hi - 1;
    }
    proof {
        assert forall|j: int| hi - lo <= j < ts.len() implies ts[j] == ' ' by {
            assert(ts[j] == kc[j + lo]);
        }
        lemma_trim_end_at(ts, hi - lo);
    }
    let ghost mid = ts.subrange(0, hi - lo);
    let mut out = String::new();
    let mut j: usize = lo;
    while j < hi
        invariant
            n == title@.len(),
            picks(kept@, title@, kc),
            lo <= j <= hi <= kept@.len(),
            mid == kc.subrange(lo as int, hi as int),
            out@ == spaces_to_underscores(mid.subrange(0, j - lo)),
        decreases hi - j,
    {
        let p = kept[j];
        assert(p < title@.len() && title@[p as int] == kc[j as int]);
        let c = title.get_char(p);
        if c == ' ' {
            proof {
                reveal_strlit("_");
            }
            out.append("_");
        } else {
            out.append(title.substring_char(p, p + 1));
        }
        assert(spaces_to_underscores(mid.subrange(0, j + 1 - lo)) =~= spaces_to_underscores(
            mid.subrange(0, j - lo),
        ).push(if c == ' ' { '_' } else { c }));
        j = j + 1;
    }
    assert(mid.subrange(0, hi - lo) =~= mid);
    out
}

/// Places `name` inside the directory `base`.
pub fn join_path(base: &str, name: &str) -> (r: String)
    ensures
        r@ == joined_path(base@, name@),
{
    let n = base.unicode_len();
    let mut out = String::from_str(base);
    if n > 0 && base.get_char(n - 1) != '/' {
        proof {
            reveal_strlit("/");
        }
        out.append("/");
    }
    out.append(name);
    out
}

/// Computes the destination of an export: the sanitized title with the
/// format's extension, inside `base`. The same arguments always give the
/// same path.
pub fn generate_output_path(base: &str, title: &str, format: AudioFormat) -> (r: String)
    ensures
        r@ == output_path_spec(base@, title@, format),
{
    let mut name = sanitize_title(title);
    proof {
        reveal_strlit(".");
    }
    name.append(".");
    name.append(extension_of(format));
    join_path(base, name.as_str())
}

/// How a synthesized file reaches the requested format.
pub enum TranscodeStep {
    /// The file is already in that format: no encoder runs.
    Unchanged(String),
    /// The encoder runs with these arguments and writes `output`.
    Encode { program: String, args: Vec<String>, output: String },
}

/// The encoder's arguments: overwrite, input, output.
pub open spec fn encoder_args(input: Seq<char>, output: Seq<char>) -> Seq<Seq<char>> {
    seq![seq!['-', 'y'], seq!['-', 'i'], input, output]
}

/// Decides how `source` becomes a file in `format`. The native format, or
/// a target path equal to the source, needs no encoder and keeps the
/// source path; otherwise the encoder writes the source's path with the
/// format's extension.
pub fn plan_transcode(source: &str, format: AudioFormat) -> (r: TranscodeStep)
    ensures
        is_native(format) ==> r is Unchanged && r->Unchanged_0@ == source@,
        !is_native(format) ==> ({
            let target = path_with_extension(source@, extension_spec(format));
            if target == source@ {
                r is Unchanged && r->Unchanged_0@ == source@
            } else {
                r is Encode && r->Encode_program@ == seq!['f', 'f', 'm', 'p', 'e', 'g']
                    && r->Encode_output@ == target
                    && r->Encode_args@.len() == 4
                    && r->Encode_args@[0]@ == seq!['-', 'y']
                    && r->Encode_args@[1]@ == seq!['-', 'i']
                    && r->Encode_args@[2]@ == source@
                    && r->Encode_args@[3]@ == target
            }
        }),
{
    if format == AudioFormat::Wav {
        return TranscodeStep::Unchanged(String::from_str(source));
    }
    let target = with_extension(source, extension_of(format));
    if crate::text::same_text(target.as_str(), source) {
        return TranscodeStep::Unchanged(String::from_str(source));
    }
    proof {
        reveal_strlit("-y");
        reveal_strlit("-i");
        reveal_strlit("ffmpeg");
    }
    let mut args: Vec<String> = Vec::new();
    args.push(String::from_str("-y"));
    args.push(String::from_str("-i"));
    args.push(String::from_str(source));
    args.push(target.clone());
    TranscodeStep::Encode { program: String::from_str("ffmpeg"), args, output: target }
}

/// The outcome of an encoder run: the output path on success, else a
/// message carrying the exit status.
pub fn encoder_outcome(output: String, success: bool, status: &str) -> (r: Result<String, String>)
    ensures
        success ==> r == Ok::<String, String>(output),
        !success ==> r is Err && r->Err_0@ == "ffmpeg exited with status "@ + status@,
{
    if success {
        Ok(output)
    } else {
        let mut m = String::from_str("ffmpeg exited with status ");
        m.append(status);
        Err(m)
    }
}

/// Every character of a sanitized title is an ASCII letter or digit, an
/// underscore or a hyphen: no space and nothing else survives.
pub proof fn lemma_sanitized_title_chars(title: Seq<char>)
    ensures
        forall|k: int|
            0 <= k < sanitized_title(title).len() ==> keeps_char(#[trigger] sanitized_title(title)[k])
                && sanitized_title(title)[k] != ' ',
{
    let kc = kept_chars(title);
    lemma_kept_chars_kept(title);
    let t = trim_start_spaces(kc);
    lemma_trim_start_sub(kc);
    let a = choose|a: int| 0 <= a <= kc.len() && t == #[trigger] kc.subrange(a, kc.len() as int);
    lemma_trim_end_sub(t);
    let b = choose|b: int| 0 <= b <= t.len() && trim_end_spaces(t) == #[trigger] t.subrange(0, b);
    let u = trim_end_spaces(t);
    assert forall|k: int| 0 <= k < u.len() implies keeps_char(#[trigger] u[k]) by {
        assert(u[k] == kc[a + k]);
    }
}

proof fn lemma_kept_chars_kept(s: Seq<char>)
    ensures
        forall|k: int| 0 <= k < kept_chars(s).len() ==> keeps_char(#[trigger] kept_chars(s)[k]),
    decreases s.len(),
{
    if s.len() > 0 {
        let p = s.drop_last();
        lemma_kept_chars_kept(p);
        assert forall|k: int| 0 <= k < kept_chars(s).len() implies keeps_char(#[trigger] kept_chars(s)[k]) by {
            if k < kept_chars(p).len() {
                assert(kept_chars(s)[k] == kept_chars(p)[k]);
            }
        }
    }
}

proof fn lemma_trim_start_sub(s: Seq<char>)
    ensures
        exists|a: int| 0 <= a <= s.len() && trim_start_spaces(s) == #[trigger] s.subrange(a, s.len() as int),
    decreases s.len(),
{
    if s.len() > 0 && s[0] == ' ' {
        lemma_trim_start_sub(s.drop_first());
        let a = choose|a: int| 0 <= a <= s.len() - 1 && trim_start_spaces(s.drop_first()) == #[trigger] s.drop_first().subrange(a, s.len() - 1);
        assert(s.drop_first().subrange(a, s.len() - 1) =~= s.subrange(a + 1, s.len() as int));
    } else {
        assert(s.subrange(0, s.len() as int) =~= s);
    }
}

proof fn lemma_trim_end_sub(s: Seq<char>)
    ensures
        exists|b: int| 0 <= b <= s.len() && trim_end_spaces(s) == #[trigger] s.subrange(0, b),
        trim_end_spaces(s).len() > 0 ==> trim_end_spaces(s).last() != ' ',
    decreases s.len(),
{
    if s.len() > 0 && s.last() == ' ' {
        lemma_trim_end_sub(s.drop_last());
        let b = choose|b: int| 0 <= b <= s.len() - 1 && trim_end_spaces(s.drop_last()) == #[trigger] s.drop_last().subrange(0, b);
        assert(s.drop_last().subrange(0, b) =~= s.subrange(0, b));
    } else {
        assert(s.subrange(0, s.len() as int) =~= s);
    }
}

/// The output path depends on the directory, the title and the format
/// alone: the same arguments name the same file.
pub proof fn lemma_output_path_deterministic(
    base: Seq<char>,
    title: Seq<char>,
    format: AudioFormat,
    first: Seq<char>,
    second: Seq<char>,
)
    requires
        first == output_path_spec(base, title, format),
        second == output_path_spec(base, title, format),
    ensures
        first == second,
{
}

} // verus!
