//! The multiplexer invocation: inputs, stream maps, attachments, stream
//! metadata, dispositions and the output.

use vstd::prelude::*;
use vstd::string::*;
use crate::model::Locale;
use crate::text::{chars_of, clock_text, decimal, lemma_decimal_starts_with_digit, push_clock, push_decimal, push_str, string_of};

verus! {

/// A downloaded video track.
pub struct VideoInput {
    pub path: String,
    pub start_ms: Option<i64>,
}

/// A downloaded audio track and the video it belongs to.
pub struct AudioInput {
    pub path: String,
    pub locale: Locale,
    pub start_ms: Option<i64>,
    pub video_idx: usize,
}

/// A downloaded subtitle track and the video it belongs to.
pub struct SubtitleInput {
    pub path: String,
    pub locale: Locale,
    pub cc: bool,
    pub start_ms: Option<i64>,
    pub video_idx: usize,
}

/// Everything about the invocation that does not come from the tracks.
pub struct MuxConfig {
    /// Where the multiplexer writes its per-frame statistics.
    pub stats_path: String,
    pub input_presets: Vec<String>,
    pub output_presets: Vec<String>,
    /// A user-written preset; it then decides the thread count itself.
    pub preset_custom: bool,
    pub ffmpeg_threads: Option<usize>,
    pub default_subtitle: Option<Locale>,
    pub output_format: Option<String>,
    pub force_hardsub: bool,
    /// The destination's extension, empty when it has none.
    pub extension: String,
    pub destination: String,
    /// The destination names no directory (a bare file name).
    pub bare_destination: bool,
    /// Paths follow Windows conventions.
    pub windows: bool,
    /// Output language tag per locale tag, for audio streams.
    pub audio_languages: Vec<(String, String)>,
    /// Output language tag per locale tag, for subtitle streams.
    pub subtitle_languages: Vec<(String, String)>,
}

/// The text of each argument.
pub open spec fn strs(v: Seq<String>) -> Seq<Seq<char>> {
    v.map_values(|s: String| s@)
}

/// The pieces `f(0)`, ..., `f(n - 1)`, one after the other.
pub open spec fn gather(n: nat, f: spec_fn(int) -> Seq<Seq<char>>) -> Seq<Seq<char>>
    decreases n,
{
    if n == 0 {
        Seq::empty()
    } else {
        gather((n - 1) as nat, f) + f(n - 1)
    }
}

/// `-ss <offset>` when the track starts late (or early), nothing otherwise.
pub open spec fn seek_args(start: Option<i64>) -> Seq<Seq<char>> {
    match start {
        Some(t) => seq!["-ss"@, clock_text(t as int)],
        None => Seq::empty(),
    }
}

pub open spec fn input_args(path: Seq<char>, start: Option<i64>) -> Seq<Seq<char>> {
    seek_args(start) + seq!["-i"@, path]
}

/// Whether the container keeps subtitles as streams of their own.
pub open spec fn soft_subtitles(cfg: MuxConfig) -> bool {
    !cfg.force_hardsub && (cfg.extension@ == "mkv"@ || cfg.extension@ == "mov"@ || cfg.extension@ == "mp4"@)
}

pub open spec fn video_inputs(videos: Seq<VideoInput>) -> spec_fn(int) -> Seq<Seq<char>> {
    |i: int| input_args(videos[i].path@, videos[i].start_ms)
}

pub open spec fn audio_inputs(audios: Seq<AudioInput>) -> spec_fn(int) -> Seq<Seq<char>> {
    |i: int| input_args(audios[i].path@, audios[i].start_ms)
}

pub open spec fn subtitle_inputs(subtitles: Seq<SubtitleInput>) -> spec_fn(int) -> Seq<Seq<char>> {
    |i: int| input_args(subtitles[i].path@, subtitles[i].start_ms)
}

pub open spec fn map_piece() -> spec_fn(int) -> Seq<Seq<char>> {
    |i: int| seq!["-map"@, decimal(i as nat)]
}

pub open spec fn attach_piece(fonts: Seq<String>) -> spec_fn(int) -> Seq<Seq<char>> {
    |i: int| seq!["-attach"@, fonts[i]@]
}

pub open spec fn video_metadata_piece(nv: nat) -> spec_fn(int) -> Seq<Seq<char>> {
    |i: int| video_metadata(nv, i)
}

pub open spec fn audio_metadata_piece(cfg: MuxConfig, nv: nat, audios: Seq<AudioInput>) -> spec_fn(int) -> Seq<Seq<char>> {
    |i: int| audio_metadata(cfg, nv, audios[i], i)
}

pub open spec fn font_metadata_piece() -> spec_fn(int) -> Seq<Seq<char>> {
    |i: int| font_metadata(i)
}

pub open spec fn subtitle_metadata_piece(cfg: MuxConfig, nv: nat, subtitles: Seq<SubtitleInput>) -> spec_fn(int) -> Seq<Seq<char>> {
    |i: int| subtitle_metadata(cfg, nv, subtitles[i], i)
}

pub open spec fn forced_piece(subtitles: Seq<SubtitleInput>) -> spec_fn(int) -> Seq<Seq<char>> {
    |i: int| if subtitles[i].cc {
        seq!["-disposition:s:s:"@ + decimal(i as nat), "forced"@]
    } else {
        Seq::empty()
    }
}

/// Every input, in order: videos, audios, subtitles when kept as streams,
/// and the chapter sidecar.
pub open spec fn inputs_section(
    videos: Seq<VideoInput>,
    audios: Seq<AudioInput>,
    subtitles: Seq<SubtitleInput>,
    chapters: Option<String>,
    soft: bool,
) -> Seq<Seq<char>> {
    gather(videos.len(), video_inputs(videos))
        + gather(audios.len(), audio_inputs(audios))
        + (if soft {
            gather(subtitles.len(), subtitle_inputs(subtitles))
        } else {
            Seq::empty()
        })
        + match chapters {
            Some(p) => seq!["-i"@, p@],
            None => Seq::empty(),
        }
}

/// The number of inputs that carry streams.
pub open spec fn stream_inputs(nv: nat, na: nat, ns: nat, soft: bool) -> nat {
    nv + na + if soft { ns } else { 0 }
}

/// One `-map` per stream input, by input index, then `-map_metadata` for
/// the chapter sidecar, which comes right after them.
pub open spec fn maps_section(n: nat, chapters: bool) -> Seq<Seq<char>> {
    gather(n, map_piece())
        + if chapters { seq!["-map_metadata"@, decimal(n)] } else { Seq::empty() }
}

pub open spec fn attachments_section(fonts: Seq<String>) -> Seq<Seq<char>> {
    gather(fonts.len(), attach_piece(fonts))
}

/// The output language tag of a locale: its entry in `table`, else its own tag.
pub open spec fn language_of(table: Seq<(String, String)>, tag: Seq<char>) -> Seq<char>
    decreases table.len(),
{
    if table.len() == 0 {
        tag
    } else if table[0].0@ == tag {
        table[0].1@
    } else {
        language_of(table.drop_first(), tag)
    }
}

/// ` [Video: #k]` naming the video a track belongs to, when there are several.
pub open spec fn video_suffix(multi: bool, video_idx: usize) -> Seq<char> {
    if multi {
        " [Video: #"@ + decimal((video_idx + 1) as nat) + "]"@
    } else {
        Seq::empty()
    }
}

pub open spec fn video_metadata(nv: nat, i: int) -> Seq<Seq<char>> {
    seq![
        "-metadata:s:v:"@ + decimal(i as nat),
        "title="@ + (if nv == 1 { "Default"@ } else { "#"@ + decimal((i + 1) as nat) }),
        "-metadata:s:v:"@ + decimal(i as nat),
        "language="@,
    ]
}

pub open spec fn audio_metadata(cfg: MuxConfig, nv: nat, a: AudioInput, i: int) -> Seq<Seq<char>> {
    seq![
        "-metadata:s:a:"@ + decimal(i as nat),
        "language="@ + language_of(cfg.audio_languages@, a.locale.tag@),
        "-metadata:s:a:"@ + decimal(i as nat),
        "title="@ + a.locale.name@ + video_suffix(nv != 1, a.video_idx),
    ]
}

pub open spec fn font_metadata(i: int) -> Seq<Seq<char>> {
    seq!["-metadata:s:t:"@ + decimal(i as nat), "mimetype=font/woff2"@]
}

pub open spec fn subtitle_metadata(cfg: MuxConfig, nv: nat, s: SubtitleInput, i: int) -> Seq<Seq<char>> {
    seq![
        "-metadata:s:s:"@ + decimal(i as nat),
        "language="@ + language_of(cfg.subtitle_languages@, s.locale.tag@),
        "-metadata:s:s:"@ + decimal(i as nat),
        "title="@ + s.locale.tag@ + (if s.cc { " (CC)"@ } else { Seq::empty() }) + video_suffix(nv > 1, s.video_idx),
    ]
}

/// Stream metadata: titles and languages of videos and audios, the font
/// mime types, and titles and languages of subtitle streams.
pub open spec fn metadata_section(
    cfg: MuxConfig,
    videos: Seq<VideoInput>,
    audios: Seq<AudioInput>,
    subtitles: Seq<SubtitleInput>,
    fonts: Seq<String>,
    soft: bool,
) -> Seq<Seq<char>> {
    gather(videos.len(), video_metadata_piece(videos.len()))
        + gather(audios.len(), audio_metadata_piece(cfg, videos.len(), audios))
        + gather(fonts.len(), font_metadata_piece())
        + if soft {
            gather(subtitles.len(), subtitle_metadata_piece(cfg, videos.len(), subtitles))
        } else {
            Seq::empty()
        }
}

/// `-threads <n>` when a thread count is set and the preset is not the user's own.
pub open spec fn threads_section(cfg: MuxConfig) -> Seq<Seq<char>> {
    match cfg.ffmpeg_threads {
        Some(t) if !cfg.preset_custom => seq!["-threads"@, decimal(t as nat)],
        _ => Seq::empty(),
    }
}

/// The first subtitle in the default subtitle's locale, if any.
pub open spec fn default_position(subtitles: Seq<SubtitleInput>, locale: Locale) -> Option<nat>
    decreases subtitles.len(),
{
    if subtitles.len() == 0 {
        None
    } else {
        match default_position(subtitles.drop_last(), locale) {
            Some(p) => Some(p),
            None => if subtitles.last().locale.tag@ == locale.tag@ {
                Some((subtitles.len() - 1) as nat)
            } else {
                None
            },
        }
    }
}

/// The position of the default subtitle among `subtitles`, if one is set and present.
pub open spec fn chosen_default(cfg: MuxConfig, subtitles: Seq<SubtitleInput>) -> Option<nat> {
    match cfg.default_subtitle {
        Some(l) => default_position(subtitles, l),
        None => None,
    }
}

/// Dispositions of subtitle streams: `default` on the default subtitle,
/// then `forced` on every closed-caption one.
pub open spec fn dispositions_section(cfg: MuxConfig, subtitles: Seq<SubtitleInput>, soft: bool) -> Seq<Seq<char>> {
    if soft {
        (match chosen_default(cfg, subtitles) {
            Some(p) => seq!["-disposition:s:s:"@ + decimal(p), "default"@],
            None => Seq::empty(),
        }) + gather(subtitles.len(), forced_piece(subtitles))
    } else {
        Seq::empty()
    }
}

/// `args` without each `-c:v copy` and `-c:a copy` pair.
pub open spec fn strip_copy(args: Seq<Seq<char>>) -> Seq<Seq<char>>
    decreases args.len(),
{
    if args.len() == 0 {
        args
    } else if args.len() >= 2 && (args[0] == "-c:v"@ || args[0] == "-c:a"@) && args[1] == "copy"@ {
        strip_copy(args.subrange(2, args.len() as int))
    } else {
        seq![args[0]] + strip_copy(args.drop_first())
    }
}

/// A path as the subtitle filter reads it: on Windows, `\` doubled and `:` escaped.
pub open spec fn filter_path(path: Seq<char>, windows: bool) -> Seq<char>
    decreases path.len(),
{
    if !windows || path.len() == 0 {
        path
    } else {
        filter_path(path.drop_last(), windows) + if path.last() == '\\' {
            seq!['\\', '\\']
        } else if path.last() == ':' {
            seq!['\\', ':']
        } else {
            seq![path.last()]
        }
    }
}

/// The output preset, adjusted for the default subtitle: with subtitle
/// streams, MP4-style containers get `-movflags faststart -c:s mov_text`;
/// when subtitles are burnt in, stream copies are dropped and the default
/// subtitle is rendered by the `ass` filter.
pub open spec fn output_section(cfg: MuxConfig, subtitles: Seq<SubtitleInput>, soft: bool) -> Seq<Seq<char>> {
    let out = strs(cfg.output_presets@);
    match chosen_default(cfg, subtitles) {
        Some(p) => if soft {
            if cfg.extension@ == "mov"@ || cfg.extension@ == "mp4"@ {
                out + seq!["-movflags"@, "faststart"@, "-c:s"@, "mov_text"@]
            } else {
                out
            }
        } else {
            strip_copy(out) + seq!["-vf"@, "ass='"@ + filter_path(subtitles[p as int].path@, cfg.windows) + "'"@]
        },
        None => out,
    }
}

/// `-f <format>` when an output format is forced.
pub open spec fn format_section(cfg: MuxConfig) -> Seq<Seq<char>> {
    match cfg.output_format {
        Some(f) => seq!["-f"@, f@],
        None => Seq::empty(),
    }
}

/// The destination; a bare file name gets `./` in front outside Windows, so
/// that it is not read as a protocol.
pub open spec fn destination_arg(cfg: MuxConfig) -> Seq<char> {
    if !cfg.windows && cfg.bare_destination {
        "./"@ + cfg.destination@
    } else {
        cfg.destination@
    }
}

/// The whole argument vector of the multiplexer.
pub open spec fn mux_args(
    cfg: MuxConfig,
    videos: Seq<VideoInput>,
    audios: Seq<AudioInput>,
    subtitles: Seq<SubtitleInput>,
    fonts: Seq<String>,
    chapters: Option<String>,
) -> Seq<Seq<char>> {
    let soft = soft_subtitles(cfg);
    seq!["-y"@, "-hide_banner"@, "-vstats_file"@, cfg.stats_path@]
        + strs(cfg.input_presets@)
        + inputs_section(videos, audios, subtitles, chapters, soft)
        + maps_section(stream_inputs(videos.len(), audios.len(), subtitles.len(), soft), chapters is Some)
        + attachments_section(fonts)
        + metadata_section(cfg, videos, audios, subtitles, fonts, soft)
        + threads_section(cfg)
        + dispositions_section(cfg, subtitles, soft)
        + output_section(cfg, subtitles, soft)
        + format_section(cfg)
        + seq![destination_arg(cfg)]
}

proof fn lemma_gather_step(n: nat, f: spec_fn(int) -> Seq<Seq<char>>)
    ensures
        gather(n + 1, f) == gather(n, f) + f(n as int),
{
}

fn lit(s: &str) -> (r: String)
    ensures
        r@ == s@,
{
    String::from_str(s)
}

/// `prefix` followed by `n` in decimal.
fn numbered(prefix: &str, n: u128) -> (r: String)
    ensures
        r@ == prefix@ + decimal(n as nat),
{
    let mut v = chars_of(prefix);
    push_decimal(&mut v, n);
    string_of(&v)
}

fn push_arg(args: &mut Vec<String>, a: String)
    ensures
        strs(final(args)@) == strs(old(args)@).push(a@),
{
    args.push(a);
    assert(strs(final(args)@) =~= strs(old(args)@).push(a@));
}

fn push_all(args: &mut Vec<String>, more: &Vec<String>)
    ensures
        strs(final(args)@) == strs(old(args)@) + strs(more@),
{
    let ghost start = strs(args@);
    let mut i: usize = 0;
    while i < more.len()
        invariant
            i <= more.len(),
            strs(args@) == start + strs(more@.take(i as int)),
        decreases more.len() - i,
    {
        push_arg(args, more[i].clone());
        i = i + 1;
        assert(strs(more@.take(i as int)) =~= strs(more@.take(i - 1)).push(more@[i - 1]@));
        assert(strs(args@) =~= start + strs(more@.take(i as int)));
    }
    assert(more@.take(i as int) =~= more@);
}

fn push_input(args: &mut Vec<String>, path: &String, start: Option<i64>)
    ensures
        strs(final(args)@) == strs(old(args)@) + input_args(path@, start),
{
    let ghost before = strs(args@);
    match start {
        Some(t) => {
            push_arg(args, lit("-ss"));
            let mut v: Vec<char> = Vec::new();
            push_clock(&mut v, t);
            assert(v@ =~= clock_text(t as int));
            push_arg(args, string_of(&v));
        },
        None => {},
    }
    push_arg(args, lit("-i"));
    push_arg(args, path.clone());
    assert(strs(args@) =~= before + input_args(path@, start));
}

/// The output language tag of a locale tag.
pub fn language_for(table: &Vec<(String, String)>, tag: &String) -> (r: String)
    ensures
        r@ == language_of(table@, tag@),
{
    let mut i: usize = 0;
    assert(table@.skip(0) =~= table@);
    while i < table.len()
        invariant
            i <= table.len(),
            language_of(table@, tag@) == language_of(table@.skip(i as int), tag@),
        decreases table.len() - i,
    {
        assert(table@.skip(i as int).drop_first() =~= table@.skip(i + 1));
        if table[i].0 == *tag {
            return table[i].1.clone();
        }
        i = i + 1;
    }
    tag.clone()
}

/// The position of the first subtitle in `locale`, if any.
pub fn default_subtitle_position(subtitles: &Vec<SubtitleInput>, locale: &Locale) -> (r: Option<usize>)
    ensures
        r matches Some(p) ==> default_position(subtitles@, *locale) == Some(p as nat),
        r is None ==> default_position(subtitles@, *locale) is None,
{
    let mut i: usize = 0;
    while i < subtitles.len()
        invariant
            i <= subtitles.len(),
            default_position(subtitles@.take(i as int), *locale) is None,
        decreases subtitles.len() - i,
    {
        assert(subtitles@.take(i + 1).drop_last() =~= subtitles@.take(i as int));
        if subtitles[i].locale.tag == locale.tag {
            proof {
                lemma_position_prefix(subtitles@, *locale, i + 1);
            }
            return Some(i);
        }
        i = i + 1;
    }
    assert(subtitles@.take(i as int) =~= subtitles@);
    None
}

/// Once found in a prefix, the default subtitle's position stays.
proof fn lemma_position_prefix(subtitles: Seq<SubtitleInput>, locale: Locale, k: int)
    requires
        0 <= k <= subtitles.len(),
        default_position(subtitles.take(k), locale) is Some,
    ensures
        default_position(subtitles, locale) == default_position(subtitles.take(k), locale),
    decreases subtitles.len() - k,
{
    if k < subtitles.len() {
        assert(subtitles.take(k + 1).drop_last() =~= subtitles.take(k));
        lemma_position_prefix(subtitles, locale, k + 1);
    } else {
        assert(subtitles.take(k) =~= subtitles);
    }
}

/// Drops each `-c:v copy` and `-c:a copy` pair.
pub fn strip_copy_args(args: &Vec<String>) -> (r: Vec<String>)
    ensures
        strs(r@) == strip_copy(strs(args@)),
{
    let ghost all = strs(args@);
    let n = args.len();
    let mut out: Vec<String> = Vec::new();
    let mut i: usize = 0;
    assert(all.subrange(0, n as int) =~= all);
    assert(strs(out@) + all =~= all);
    while i < n
        invariant
            n == args.len(),
            i <= n,
            all == strs(args@),
            strip_copy(all) == strs(out@) + strip_copy(all.subrange(i as int, n as int)),
        decreases n - i,
    {
        let ghost rest = all.subrange(i as int, n as int);
        if i + 1 < n && (args[i] == lit("-c:v") || args[i] == lit("-c:a")) && args[i + 1] == lit("copy") {
            assert(rest.subrange(2, rest.len() as int) =~= all.subrange(i + 2, n as int));
            i = i + 2;
        } else {
            assert(rest.drop_first() =~= all.subrange(i + 1, n as int));
            assert(rest[0] == args@[i as int]@);
            let ghost before = strs(out@);
            push_arg(&mut out, args[i].clone());
            i = i + 1;
            assert(strs(out@) + strip_copy(all.subrange(i as int, n as int))
                =~= before + (seq![rest[0]] + strip_copy(rest.drop_first())));
        }
    }
    assert(all.subrange(n as int, n as int) =~= Seq::<Seq<char>>::empty());
    assert(strs(out@) + Seq::<Seq<char>>::empty() =~= strs(out@));
    out
}

/// A path escaped for the subtitle filter.
pub fn filter_path_of(path: &String, windows: bool) -> (r: String)
    ensures
        r@ == filter_path(path@, windows),
{
    if !windows {
        return path.clone();
    }
    let cs = chars_of(path.as_str());
    let mut out: Vec<char> = Vec::new();
    let mut i: usize = 0;
    while i < cs.len()
        invariant
            windows,
            cs@ == path@,
            i <= cs.len(),
            out@ == filter_path(cs@.take(i as int), windows),
        decreases cs.len() - i,
    {
        assert(cs@.take(i + 1).drop_last() =~= cs@.take(i as int));
        let c = cs[i];
        if c == '\\' {
            out.push('\\');
            out.push('\\');
        } else if c == ':' {
            out.push('\\');
            out.push(':');
        } else {
            out.push(c);
        }
        i = i + 1;
        assert(out@ =~= filter_path(cs@.take(i as int), windows));
    }
    assert(cs@.take(i as int) =~= path@);
    string_of(&out)
}

fn decimal_string(n: u128) -> (r: String)
    ensures
        r@ == decimal(n as nat),
{
    let mut v: Vec<char> = Vec::new();
    push_decimal(&mut v, n);
    assert(v@ =~= decimal(n as nat));
    string_of(&v)
}

fn push_video_metadata(args: &mut Vec<String>, nv: usize, i: usize)
    ensures
        strs(final(args)@) == strs(old(args)@) + video_metadata(nv as nat, i as int),
{
    let ghost before = strs(args@);
    push_arg(args, numbered("-metadata:s:v:", i as u128));
    let mut t = chars_of("title=");
    if nv == 1 {
        push_str(&mut t, "Default");
    } else {
        push_str(&mut t, "#");
        push_decimal(&mut t, i as u128 + 1);
        assert(t@ =~= "title="@ + ("#"@ + decimal((i + 1) as nat)));
    }
    push_arg(args, string_of(&t));
    push_arg(args, numbered("-metadata:s:v:", i as u128));
    push_arg(args, lit("language="));
    assert(strs(args@) =~= before + video_metadata(nv as nat, i as int));
}

fn push_video_suffix(t: &mut Vec<char>, multi: bool, video_idx: usize)
    ensures
        final(t)@ == old(t)@ + video_suffix(multi, video_idx),
{
    if multi {
        push_str(t, " [Video: #");
        push_decimal(t, video_idx as u128 + 1);
        push_str(t, "]");
        assert(final(t)@ =~= old(t)@ + video_suffix(multi, video_idx));
    } else {
        assert(final(t)@ =~= old(t)@ + video_suffix(multi, video_idx));
    }
}

fn push_audio_metadata(args: &mut Vec<String>, cfg: &MuxConfig, nv: usize, a: &AudioInput, i: usize)
    ensures
        strs(final(args)@) == strs(old(args)@) + audio_metadata(*cfg, nv as nat, *a, i as int),
{
    let ghost before = strs(args@);
    push_arg(args, numbered("-metadata:s:a:", i as u128));
    let mut l = chars_of("language=");
    let lang = language_for(&cfg.audio_languages, &a.locale.tag);
    push_str(&mut l, lang.as_str());
    push_arg(args, string_of(&l));
    push_arg(args, numbered("-metadata:s:a:", i as u128));
    let mut t = chars_of("title=");
    push_str(&mut t, a.locale.name.as_str());
    push_video_suffix(&mut t, nv != 1, a.video_idx);
    push_arg(args, string_of(&t));
    assert(strs(args@) =~= before + audio_metadata(*cfg, nv as nat, *a, i as int));
}

fn push_subtitle_metadata(args: &mut Vec<String>, cfg: &MuxConfig, nv: usize, s: &SubtitleInput, i: usize)
    ensures
        strs(final(args)@) == strs(old(args)@) + subtitle_metadata(*cfg, nv as nat, *s, i as int),
{
    let ghost before = strs(args@);
    push_arg(args, numbered("-metadata:s:s:", i as u128));
    let mut l = chars_of("language=");
    let lang = language_for(&cfg.subtitle_languages, &s.locale.tag);
    push_str(&mut l, lang.as_str());
    push_arg(args, string_of(&l));
    push_arg(args, numbered("-metadata:s:s:", i as u128));
    let mut t = chars_of("title=");
    push_str(&mut t, s.locale.tag.as_str());
    let ghost with_tag = t@;
    if s.cc {
        push_str(&mut t, " (CC)");
    } else {
        assert(t@ =~= with_tag + Seq::<char>::empty());
    }
    push_video_suffix(&mut t, nv > 1, s.video_idx);
    push_arg(args, string_of(&t));
    assert(strs(args@) =~= before + subtitle_metadata(*cfg, nv as nat, *s, i as int));
}

fn push_inputs_section(
    args: &mut Vec<String>,
    videos: &Vec<VideoInput>,
    audios: &Vec<AudioInput>,
    subtitles: &Vec<SubtitleInput>,
    chapters: &Option<String>,
    soft: bool,
)
    ensures
        strs(final(args)@) == strs(old(args)@) + inputs_section(videos@, audios@, subtitles@, *chapters, soft),
{
    let ghost base = strs(args@);
    let mut i: usize = 0;
    while i < videos.len()
        invariant
            i <= videos.len(),
            strs(args@) == base + gather(i as nat, video_inputs(videos@)),
        decreases videos.len() - i,
    {
        push_input(args, &videos[i].path, videos[i].start_ms);
        proof { lemma_gather_step(i as nat, video_inputs(videos@)); }
        i = i + 1;
        assert(strs(args@) =~= base + gather(i as nat, video_inputs(videos@)));
    }
    let ghost base2 = strs(args@);
    let mut i: usize = 0;
    while i < audios.len()
        invariant
            i <= audios.len(),
            strs(args@) == base2 + gather(i as nat, audio_inputs(audios@)),
        decreases audios.len() - i,
    {
        push_input(args, &audios[i].path, audios[i].start_ms);
        proof { lemma_gather_step(i as nat, audio_inputs(audios@)); }
        i = i + 1;
        assert(strs(args@) =~= base2 + gather(i as nat, audio_inputs(audios@)));
    }
    let ghost base3 = strs(args@);
    if soft {
        let mut i: usize = 0;
        while i < subtitles.len()
            invariant
                i <= subtitles.len(),
                strs(args@) == base3 + gather(i as nat, subtitle_inputs(subtitles@)),
            decreases subtitles.len() - i,
        {
            push_input(args, &subtitles[i].path, subtitles[i].start_ms);
            proof { lemma_gather_step(i as nat, subtitle_inputs(subtitles@)); }
            i = i + 1;
            assert(strs(args@) =~= base3 + gather(i as nat, subtitle_inputs(subtitles@)));
        }
    }
    let ghost base4 = strs(args@);
    match chapters {
        Some(p) => {
            push_arg(args, lit("-i"));
            push_arg(args, p.clone());
        },
        None => {},
    }
    assert(strs(args@) =~= strs(old(args)@) + inputs_section(videos@, audios@, subtitles@, *chapters, soft));
}

fn push_attachments_section(args: &mut Vec<String>, fonts: &Vec<String>)
    ensures
        strs(final(args)@) == strs(old(args)@) + attachments_section(fonts@),
{
    let ghost base = strs(args@);
    let mut i: usize = 0;
    while i < fonts.len()
        invariant
            i <= fonts.len(),
            strs(args@) == base + gather(i as nat, attach_piece(fonts@)),
        decreases fonts.len() - i,
    {
        push_arg(args, lit("-attach"));
        push_arg(args, fonts[i].clone());
        proof { lemma_gather_step(i as nat, attach_piece(fonts@)); }
        i = i + 1;
        assert(strs(args@) =~= base + gather(i as nat, attach_piece(fonts@)));
    }
}

fn push_metadata_section(
    args: &mut Vec<String>,
    cfg: &MuxConfig,
    videos: &Vec<VideoInput>,
    audios: &Vec<AudioInput>,
    subtitles: &Vec<SubtitleInput>,
    fonts: &Vec<String>,
    soft: bool,
)
    ensures
        strs(final(args)@) == strs(old(args)@) + metadata_section(*cfg, videos@, audios@, subtitles@, fonts@, soft),
{
    let nv = videos.len();
    let ghost base = strs(args@);
    let mut i: usize = 0;
    while i < nv
        invariant
            nv == videos.len(),
            i <= nv,
            strs(args@) == base + gather(i as nat, video_metadata_piece(nv as nat)),
        decreases nv - i,
    {
        push_video_metadata(args, nv, i);
        proof { lemma_gather_step(i as nat, video_metadata_piece(nv as nat)); }
        i = i + 1;
        assert(strs(args@) =~= base + gather(i as nat, video_metadata_piece(nv as nat)));
    }
    let ghost base2 = strs(args@);
    let mut i: usize = 0;
    while i < audios.len()
        invariant
            nv == videos.len(),
            i <= audios.len(),
            strs(args@) == base2 + gather(i as nat, audio_metadata_piece(*cfg, nv as nat, audios@)),
        decreases audios.len() - i,
    {
        push_audio_metadata(args, cfg, nv, &audios[i], i);
        proof { lemma_gather_step(i as nat, audio_metadata_piece(*cfg, nv as nat, audios@)); }
        i = i + 1;
        assert(strs(args@) =~= base2 + gather(i as nat, audio_metadata_piece(*cfg, nv as nat, audios@)));
    }
    let ghost base3 = strs(args@);
    let mut i: usize = 0;
    while i < fonts.len()
        invariant
            i <= fonts.len(),
            strs(args@) == base3 + gather(i as nat, font_metadata_piece()),
        decreases fonts.len() - i,
    {
        push_arg(args, numbered("-metadata:s:t:", i as u128));
        push_arg(args, lit("mimetype=font/woff2"));
        proof { lemma_gather_step(i as nat, font_metadata_piece()); }
        i = i + 1;
        assert(strs(args@) =~= base3 + gather(i as nat, font_metadata_piece()));
    }
    let ghost base4 = strs(args@);
    if soft {
        let mut i: usize = 0;
        while i < subtitles.len()
            invariant
                nv == videos.len(),
                i <= subtitles.len(),
                strs(args@) == base4 + gather(i as nat, subtitle_metadata_piece(*cfg, nv as nat, subtitles@)),
            decreases subtitles.len() - i,
        {
            push_subtitle_metadata(args, cfg, nv, &subtitles[i], i);
            proof { lemma_gather_step(i as nat, subtitle_metadata_piece(*cfg, nv as nat, subtitles@)); }
            i = i + 1;
            assert(strs(args@) =~= base4 + gather(i as nat, subtitle_metadata_piece(*cfg, nv as nat, subtitles@)));
        }
    }
    assert(strs(args@) =~= strs(old(args)@) + metadata_section(*cfg, videos@, audios@, subtitles@, fonts@, soft));
}

fn default_of(cfg: &MuxConfig, subtitles: &Vec<SubtitleInput>) -> (r: Option<usize>)
    ensures
        r matches Some(p) ==> chosen_default(*cfg, subtitles@) == Some(p as nat),
        r is None ==> chosen_default(*cfg, subtitles@) is None,
{
    match &cfg.default_subtitle {
        Some(l) => default_subtitle_position(subtitles, l),
        None => None,
    }
}

fn push_dispositions_section(args: &mut Vec<String>, cfg: &MuxConfig, subtitles: &Vec<SubtitleInput>, soft: bool)
    ensures
        strs(final(args)@) == strs(old(args)@) + dispositions_section(*cfg, subtitles@, soft),
{
    if !soft {
        assert(strs(args@) =~= strs(old(args)@) + dispositions_section(*cfg, subtitles@, soft));
        return;
    }
    match default_of(cfg, subtitles) {
        Some(p) => {
            push_arg(args, numbered("-disposition:s:s:", p as u128));
            push_arg(args, lit("default"));
        },
        None => {},
    }
    let ghost base = strs(args@);
    let mut i: usize = 0;
    while i < subtitles.len()
        invariant
            i <= subtitles.len(),
            strs(args@) == base + gather(i as nat, forced_piece(subtitles@)),
        decreases subtitles.len() - i,
    {
        if subtitles[i].cc {
            push_arg(args, numbered("-disposition:s:s:", i as u128));
            push_arg(args, lit("forced"));
        }
        proof { lemma_gather_step(i as nat, forced_piece(subtitles@)); }
        i = i + 1;
        assert(strs(args@) =~= base + gather(i as nat, forced_piece(subtitles@)));
    }
    assert(strs(args@) =~= strs(old(args)@) + dispositions_section(*cfg, subtitles@, soft));
}

fn push_output_section(args: &mut Vec<String>, cfg: &MuxConfig, subtitles: &Vec<SubtitleInput>, soft: bool)
    requires
        soft == soft_subtitles(*cfg),
    ensures
        strs(final(args)@) == strs(old(args)@) + output_section(*cfg, subtitles@, soft),
{
    let ghost out = strs(cfg.output_presets@);
    match default_of(cfg, subtitles) {
        Some(p) => {
            proof {
                lemma_position_in_range(subtitles@, cfg.default_subtitle->0);
            }
            if soft {
                push_all(args, &cfg.output_presets);
                if cfg.extension == lit("mov") || cfg.extension == lit("mp4") {
                    push_arg(args, lit("-movflags"));
                    push_arg(args, lit("faststart"));
                    push_arg(args, lit("-c:s"));
                    push_arg(args, lit("mov_text"));
                }
            } else {
                let stripped = strip_copy_args(&cfg.output_presets);
                push_all(args, &stripped);
                push_arg(args, lit("-vf"));
                let mut f = chars_of("ass='");
                let escaped = filter_path_of(&subtitles[p].path, cfg.windows);
                push_str(&mut f, escaped.as_str());
                push_str(&mut f, "'");
                push_arg(args, string_of(&f));
            }
        },
        None => {
            push_all(args, &cfg.output_presets);
        },
    }
    assert(strs(args@) =~= strs(old(args)@) + output_section(*cfg, subtitles@, soft));
}

proof fn lemma_position_in_range(subtitles: Seq<SubtitleInput>, locale: Locale)
    ensures
        default_position(subtitles, locale) matches Some(p) ==> p < subtitles.len(),
    decreases subtitles.len(),
{
    if subtitles.len() > 0 {
        lemma_position_in_range(subtitles.drop_last(), locale);
    }
}

/// Whether the destination's container keeps subtitles as streams.
pub fn supports_soft_subtitles(cfg: &MuxConfig) -> (r: bool)
    ensures
        r == soft_subtitles(*cfg),
{
    !cfg.force_hardsub && (cfg.extension == lit("mkv") || cfg.extension == lit("mov") || cfg.extension == lit("mp4"))
}

/// The multiplexer's argument vector for these tracks, fonts and chapter sidecar.
pub fn build_mux_args(
    cfg: &MuxConfig,
    videos: &Vec<VideoInput>,
    audios: &Vec<AudioInput>,
    subtitles: &Vec<SubtitleInput>,
    fonts: &Vec<String>,
    chapters: &Option<String>,
) -> (r: Vec<String>)
    ensures
        strs(r@) == mux_args(*cfg, videos@, audios@, subtitles@, fonts@, *chapters),
{
    let soft = supports_soft_subtitles(cfg);
    let mut args: Vec<String> = Vec::new();
    push_arg(&mut args, lit("-y"));
    push_arg(&mut args, lit("-hide_banner"));
    push_arg(&mut args, lit("-vstats_file"));
    push_arg(&mut args, cfg.stats_path.clone());
    let ghost head = strs(args@);
    push_all(&mut args, &cfg.input_presets);
    let ghost after_presets = strs(args@);
    push_inputs_section(&mut args, videos, audios, subtitles, chapters, soft);
    let ghost after_inputs = strs(args@);
    let n = if soft { videos.len() as u128 + audios.len() as u128 + subtitles.len() as u128 } else {
        videos.len() as u128 + audios.len() as u128
    };
    let ghost before_maps = strs(args@);
    push_maps_u128(&mut args, n, chapters.is_some());
    let ghost after_maps = strs(args@);
    push_attachments_section(&mut args, fonts);
    let ghost after_attachments = strs(args@);
    push_metadata_section(&mut args, cfg, videos, audios, subtitles, fonts, soft);
    let ghost after_metadata = strs(args@);
    match cfg.ffmpeg_threads {
        Some(t) => {
            if !cfg.preset_custom {
                push_arg(&mut args, lit("-threads"));
                push_arg(&mut args, decimal_string(t as u128));
            }
        },
        None => {},
    }
    let ghost after_threads = strs(args@);
    assert(after_threads =~= after_metadata + threads_section(*cfg));
    push_dispositions_section(&mut args, cfg, subtitles, soft);
    let ghost after_dispositions = strs(args@);
    push_output_section(&mut args, cfg, subtitles, soft);
    let ghost after_output = strs(args@);
    match &cfg.output_format {
        Some(f) => {
            push_arg(&mut args, lit("-f"));
            push_arg(&mut args, f.clone());
        },
        None => {},
    }
    let ghost after_format = strs(args@);
    assert(after_format =~= after_output + format_section(*cfg));
    if !cfg.windows && cfg.bare_destination {
        let mut d = chars_of("./");
        push_str(&mut d, cfg.destination.as_str());
        push_arg(&mut args, string_of(&d));
    } else {
        push_arg(&mut args, cfg.destination.clone());
    }
    assert(head =~= seq!["-y"@, "-hide_banner"@, "-vstats_file"@, cfg.stats_path@]);
    assert(n as nat == stream_inputs(videos@.len(), audios@.len(), subtitles@.len(), soft));
    assert(strs(args@) == mux_args(*cfg, videos@, audios@, subtitles@, fonts@, *chapters));
    args
}

fn push_maps_u128(args: &mut Vec<String>, n: u128, chapters: bool)
    ensures
        strs(final(args)@) == strs(old(args)@) + maps_section(n as nat, chapters),
{
    let ghost base = strs(args@);
    let mut i: u128 = 0;
    while i < n
        invariant
            i <= n,
            strs(args@) == base + gather(i as nat, map_piece()),
        decreases n - i,
    {
        push_arg(args, lit("-map"));
        push_arg(args, decimal_string(i));
        proof { lemma_gather_step(i as nat, map_piece()); }
        i = i + 1;
        assert(strs(args@) =~= base + gather(i as nat, map_piece()));
    }
    if chapters {
        push_arg(args, lit("-map_metadata"));
        push_arg(args, decimal_string(n));
    }
    assert(strs(args@) =~= strs(old(args)@) + maps_section(n as nat, chapters));
}

/// How many arguments equal `t`.
pub open spec fn count(args: Seq<Seq<char>>, t: Seq<char>) -> nat
    decreases args.len(),
{
    if args.len() == 0 {
        0
    } else {
        count(args.drop_last(), t) + if args.last() == t { 1nat } else { 0nat }
    }
}

proof fn lemma_count_concat(a: Seq<Seq<char>>, b: Seq<Seq<char>>, t: Seq<char>)
    ensures
        count(a + b, t) == count(a, t) + count(b, t),
    decreases b.len(),
{
    if b.len() > 0 {
        lemma_count_concat(a, b.drop_last(), t);
        assert((a + b).drop_last() =~= a + b.drop_last());
    } else {
        assert(a + b =~= a);
    }
}

proof fn lemma_count_pair(x: Seq<char>, y: Seq<char>, t: Seq<char>)
    ensures
        count(seq![x, y], t) == (if x == t { 1nat } else { 0nat }) + (if y == t { 1nat } else { 0nat }),
{
    reveal_with_fuel(count, 3);
    assert(seq![x, y].drop_last() =~= seq![x]);
    assert(seq![x].drop_last() =~= Seq::<Seq<char>>::empty());
}

proof fn lemma_map_counts(n: nat)
    ensures
        count(gather(n, map_piece()), "-map"@) == n,
        count(gather(n, map_piece()), "-map_metadata"@) == 0,
    decreases n,
{
    reveal_strlit("-map");
    reveal_strlit("-map_metadata");
    if n > 0 {
        let k = (n - 1) as nat;
        lemma_map_counts(k);
        lemma_decimal_starts_with_digit(k);
        lemma_count_concat(gather(k, map_piece()), seq!["-map"@, decimal(k)], "-map"@);
        lemma_count_concat(gather(k, map_piece()), seq!["-map"@, decimal(k)], "-map_metadata"@);
        lemma_count_pair("-map"@, decimal(k), "-map"@);
        lemma_count_pair("-map"@, decimal(k), "-map_metadata"@);
        assert(decimal(k) != "-map"@ && decimal(k) != "-map_metadata"@ && "-map"@ != "-map_metadata"@) by {
            assert(decimal(k)[0] != '-');
            assert("-map"@.len() != "-map_metadata"@.len());
        }
    }
}

/// The stream maps hold exactly one `-map` for each input that carries
/// streams (videos, audios and subtitles kept as streams), and one
/// `-map_metadata`, for the chapter sidecar, exactly when there is one.
pub proof fn lemma_one_map_per_stream_input(
    cfg: MuxConfig,
    videos: Seq<VideoInput>,
    audios: Seq<AudioInput>,
    subtitles: Seq<SubtitleInput>,
    chapters: Option<String>,
)
    ensures
        ({
            let n = stream_inputs(videos.len(), audios.len(), subtitles.len(), soft_subtitles(cfg));
            &&& count(maps_section(n, chapters is Some), "-map"@) == n
            &&& count(maps_section(n, chapters is Some), "-map_metadata"@) == if chapters is Some { 1nat } else { 0nat }
        }),
{
    reveal_strlit("-map");
    reveal_strlit("-map_metadata");
    let n = stream_inputs(videos.len(), audios.len(), subtitles.len(), soft_subtitles(cfg));
    lemma_map_counts(n);
    let tail: Seq<Seq<char>> = if chapters is Some { seq!["-map_metadata"@, decimal(n)] } else { Seq::empty() };
    assert(maps_section(n, chapters is Some) == gather(n, map_piece()) + tail);
    lemma_count_concat(gather(n, map_piece()), tail, "-map"@);
    lemma_count_concat(gather(n, map_piece()), tail, "-map_metadata"@);
    lemma_decimal_starts_with_digit(n);
    if chapters is Some {
        lemma_count_pair("-map_metadata"@, decimal(n), "-map"@);
        lemma_count_pair("-map_metadata"@, decimal(n), "-map_metadata"@);
        assert(decimal(n)[0] != '-');
        assert("-map"@[0] == '-' && "-map_metadata"@[0] == '-');
        assert(decimal(n) != "-map"@);
        assert(decimal(n) != "-map_metadata"@);
        assert("-map"@.len() != "-map_metadata"@.len());
    } else {
        assert(count(tail, "-map"@) == 0);
        assert(count(tail, "-map_metadata"@) == 0);
    }
    assert(count(maps_section(n, chapters is Some), "-map"@) == n);
    assert(count(maps_section(n, chapters is Some), "-map_metadata"@) == if chapters is Some { 1nat } else { 0nat });
}

/// Piece `i` stands, whole, somewhere in the gathered pieces.
proof fn lemma_gather_holds(n: nat, f: spec_fn(int) -> Seq<Seq<char>>, i: int)
    requires
        0 <= i < n,
    ensures
        exists|at: int| 0 <= at && at + f(i).len() <= gather(n, f).len()
            && #[trigger] gather(n, f).subrange(at, at + f(i).len()) == f(i),
    decreases n,
{
    let g = gather(n, f);
    if i == n - 1 {
        let at = gather((n - 1) as nat, f).len() as int;
        assert(g.subrange(at, at + f(i).len()) =~= f(i));
    } else {
        lemma_gather_holds((n - 1) as nat, f, i);
        let prev = gather((n - 1) as nat, f);
        let at = choose|at: int| 0 <= at && at + f(i).len() <= prev.len()
            && #[trigger] prev.subrange(at, at + f(i).len()) == f(i);
        assert(g.subrange(at, at + f(i).len()) =~= prev.subrange(at, at + f(i).len()));
    }
}

proof fn lemma_forced_present(subtitles: Seq<SubtitleInput>, i: int)
    requires
        0 <= i < subtitles.len(),
        subtitles[i].cc,
    ensures
        exists|at: int| 0 <= at && at + 1 < gather(subtitles.len(), forced_piece(subtitles)).len()
            && #[trigger] gather(subtitles.len(), forced_piece(subtitles))[at] == "-disposition:s:s:"@ + decimal(i as nat)
            && gather(subtitles.len(), forced_piece(subtitles))[at + 1] == "forced"@,
{
    let body = gather(subtitles.len(), forced_piece(subtitles));
    lemma_gather_holds(subtitles.len(), forced_piece(subtitles), i);
    let piece = forced_piece(subtitles)(i);
    assert(piece == seq!["-disposition:s:s:"@ + decimal(i as nat), "forced"@]);
    let at = choose|at: int| 0 <= at && at + piece.len() <= body.len()
        && #[trigger] body.subrange(at, at + piece.len()) == piece;
    assert(body.subrange(at, at + 2)[0] == body[at]);
    assert(body.subrange(at, at + 2)[1] == body[at + 1]);
}

/// How many of the first `n` subtitles are closed captions.
pub open spec fn cc_count(subtitles: Seq<SubtitleInput>, n: nat) -> nat
    decreases n,
{
    if n == 0 {
        0
    } else {
        cc_count(subtitles, (n - 1) as nat) + if subtitles[n - 1].cc { 1nat } else { 0nat }
    }
}

proof fn lemma_forced_count(subtitles: Seq<SubtitleInput>, n: nat)
    requires
        n <= subtitles.len(),
    ensures
        count(gather(n, forced_piece(subtitles)), "forced"@) == cc_count(subtitles, n),
    decreases n,
{
    reveal_strlit("forced");
    reveal_strlit("-disposition:s:s:");
    if n > 0 {
        let k = (n - 1) as nat;
        lemma_forced_count(subtitles, k);
        let piece = forced_piece(subtitles)(k as int);
        lemma_count_concat(gather(k, forced_piece(subtitles)), piece, "forced"@);
        if subtitles[k as int].cc {
            let x = "-disposition:s:s:"@ + decimal(k);
            assert(x[0] == '-');
            assert(x != "forced"@);
            lemma_count_pair(x, "forced"@, "forced"@);
        } else {
            assert(count(piece, "forced"@) == 0);
        }
    }
}

/// With subtitles kept as streams, every closed-caption subtitle is marked
/// `forced`, no other subtitle is (there are as many `forced` marks as
/// closed-caption subtitles), and the default subtitle, if one is chosen, is
/// marked `default`; when subtitles are burnt in, no subtitle disposition is
/// given.
pub proof fn lemma_subtitle_dispositions(cfg: MuxConfig, subtitles: Seq<SubtitleInput>)
    ensures
        soft_subtitles(cfg) ==> forall|i: int| 0 <= i < subtitles.len() && #[trigger] subtitles[i].cc ==>
            exists|at: int| 0 <= at && at + 1 < dispositions_section(cfg, subtitles, true).len()
                && #[trigger] dispositions_section(cfg, subtitles, true)[at] == "-disposition:s:s:"@ + decimal(i as nat)
                && dispositions_section(cfg, subtitles, true)[at + 1] == "forced"@,
        soft_subtitles(cfg) ==> (chosen_default(cfg, subtitles) matches Some(p) ==> {
            &&& dispositions_section(cfg, subtitles, true)[0] == "-disposition:s:s:"@ + decimal(p)
            &&& dispositions_section(cfg, subtitles, true)[1] == "default"@
        }),
        soft_subtitles(cfg) ==> count(dispositions_section(cfg, subtitles, true), "forced"@)
            == cc_count(subtitles, subtitles.len()),
        !soft_subtitles(cfg) ==> dispositions_section(cfg, subtitles, false).len() == 0,
{
    reveal_strlit("forced");
    reveal_strlit("default");
    reveal_strlit("-disposition:s:s:");
    let d = dispositions_section(cfg, subtitles, true);
    let head: Seq<Seq<char>> = match chosen_default(cfg, subtitles) {
        Some(p) => seq!["-disposition:s:s:"@ + decimal(p), "default"@],
        None => Seq::empty(),
    };
    let body = gather(subtitles.len(), forced_piece(subtitles));
    assert(d == head + body);
    lemma_forced_count(subtitles, subtitles.len());
    lemma_count_concat(head, body, "forced"@);
    if let Some(p) = chosen_default(cfg, subtitles) {
        let x = "-disposition:s:s:"@ + decimal(p);
        assert(x[0] == '-');
        assert("default"@[0] != "forced"@[0]);
        lemma_count_pair(x, "default"@, "forced"@);
    } else {
        assert(count(head, "forced"@) == 0);
    }
    assert forall|i: int| 0 <= i < subtitles.len() && #[trigger] subtitles[i].cc implies
        exists|at: int| 0 <= at && at + 1 < d.len()
            && #[trigger] d[at] == "-disposition:s:s:"@ + decimal(i as nat)
            && d[at + 1] == "forced"@ by {
        lemma_forced_present(subtitles, i);
        let at = choose|at: int| 0 <= at && at + 1 < body.len()
            && #[trigger] body[at] == "-disposition:s:s:"@ + decimal(i as nat)
            && body[at + 1] == "forced"@;
        assert(d[head.len() + at] == body[at]);
        assert(d[head.len() + at + 1] == body[at + 1]);
    }
}

proof fn lemma_gather_without(n: nat, f: spec_fn(int) -> Seq<Seq<char>>, t: Seq<char>)
    requires
        forall|i: int| 0 <= i < n ==> count(#[trigger] f(i), t) == 0,
    ensures
        count(gather(n, f), t) == 0,
    decreases n,
{
    if n > 0 {
        lemma_gather_without((n - 1) as nat, f, t);
        lemma_count_concat(gather((n - 1) as nat, f), f(n - 1), t);
    }
}

proof fn lemma_plain_input(path: Seq<char>)
    requires
        path != "-ss"@,
    ensures
        count(input_args(path, None), "-ss"@) == 0,
{
    reveal_strlit("-ss");
    reveal_strlit("-i");
    assert(input_args(path, None) =~= seq!["-i"@, path]);
    assert("-i"@.len() != "-ss"@.len());
    assert("-i"@ != "-ss"@);
    lemma_count_pair("-i"@, path, "-ss"@);
}

/// Inputs that carry no start offset put no `-ss` among the inputs (as long
/// as no input path is itself spelled `-ss`): offsets dropped by a rejected
/// alignment leave no trace in the plan's inputs.
pub proof fn lemma_unshifted_inputs_have_no_seek(
    videos: Seq<VideoInput>,
    audios: Seq<AudioInput>,
    subtitles: Seq<SubtitleInput>,
    chapters: Option<String>,
    soft: bool,
)
    requires
        forall|i: int| 0 <= i < videos.len() ==> (#[trigger] videos[i]).start_ms is None && videos[i].path@ != "-ss"@,
        forall|i: int| 0 <= i < audios.len() ==> (#[trigger] audios[i]).start_ms is None && audios[i].path@ != "-ss"@,
        forall|i: int| 0 <= i < subtitles.len() ==> (#[trigger] subtitles[i]).start_ms is None && subtitles[i].path@ != "-ss"@,
        chapters matches Some(p) ==> p@ != "-ss"@,
    ensures
        count(inputs_section(videos, audios, subtitles, chapters, soft), "-ss"@) == 0,
{
    reveal_strlit("-ss");
    reveal_strlit("-i");
    assert forall|i: int| 0 <= i < videos.len() implies count(#[trigger] video_inputs(videos)(i), "-ss"@) == 0 by {
        lemma_plain_input(videos[i].path@);
    }
    assert forall|i: int| 0 <= i < audios.len() implies count(#[trigger] audio_inputs(audios)(i), "-ss"@) == 0 by {
        lemma_plain_input(audios[i].path@);
    }
    assert forall|i: int| 0 <= i < subtitles.len() implies count(#[trigger] subtitle_inputs(subtitles)(i), "-ss"@) == 0 by {
        lemma_plain_input(subtitles[i].path@);
    }
    let gv = gather(videos.len(), video_inputs(videos));
    let ga = gather(audios.len(), audio_inputs(audios));
    let gs: Seq<Seq<char>> = if soft { gather(subtitles.len(), subtitle_inputs(subtitles)) } else { Seq::empty() };
    let gc: Seq<Seq<char>> = match chapters { Some(p) => seq!["-i"@, p@], None => Seq::empty() };
    lemma_gather_without(videos.len(), video_inputs(videos), "-ss"@);
    lemma_gather_without(audios.len(), audio_inputs(audios), "-ss"@);
    lemma_gather_without(subtitles.len(), subtitle_inputs(subtitles), "-ss"@);
    assert(count(Seq::<Seq<char>>::empty(), "-ss"@) == 0);
    assert("-i"@.len() != "-ss"@.len());
    if let Some(p) = chapters {
        lemma_count_pair("-i"@, p@, "-ss"@);
    }
    assert(count(gs, "-ss"@) == 0);
    assert(count(gc, "-ss"@) == 0);
    lemma_count_concat(gv, ga, "-ss"@);
    lemma_count_concat(gv + ga, gs, "-ss"@);
    lemma_count_concat(gv + ga + gs, gc, "-ss"@);
    assert(inputs_section(videos, audios, subtitles, chapters, soft) == gv + ga + gs + gc);
}

} // verus!
