//! Titles as the downloader lists them: one record per language variant of
//! an episode, movie, music video or concert, and the collection that
//! orders them by season and episode.

use vstd::prelude::*;
use vstd::string::*;
use crate::model::{Locale, Subtitle};
use crate::text::{chars_of, decimal, padded, push_decimal, push_padded, push_str, string_of};
use vstd::string::StrSliceExecFns;

verus! {

/// What a title is.
#[derive(Clone, Copy, Debug, PartialEq, Eq, Structural)]
pub enum MediaKind {
    Episode,
    Movie,
    MusicVideo,
    Concert,
}

/// One language variant of a title. Sequence numbers are kept in
/// thousandths (`12.5` is `12500`).
pub struct SingleFormat {
    pub identifier: String,
    pub title: String,
    pub description: String,
    pub release_year: u64,
    pub release_month: u64,
    pub release_day: u64,
    pub audio: Locale,
    pub subtitles: Vec<Locale>,
    pub series_id: String,
    pub series_name: String,
    pub season_id: String,
    pub season_title: String,
    pub season_number: u32,
    pub episode_id: String,
    pub episode_number: String,
    pub relative_episode_number: Option<u32>,
    pub sequence_number: i64,
    pub relative_sequence_number: Option<i64>,
    pub duration_ms: i64,
    pub kind: MediaKind,
}

pub open spec fn kind_name(k: MediaKind) -> Seq<char> {
    match k {
        MediaKind::Episode => "episode"@,
        MediaKind::Movie => "movie"@,
        MediaKind::MusicVideo => "music video"@,
        MediaKind::Concert => "concert"@,
    }
}

/// A sequence number is special when it is zero or not whole.
pub open spec fn special_sequence(milli: i64) -> bool {
    milli == 0 || milli % 1000 != 0
}

impl SingleFormat {
    /// What the title is, in words.
    pub fn source_type(&self) -> (r: String)
        ensures
            r@ == kind_name(self.kind),
    {
        match self.kind {
            MediaKind::Episode => String::from_str("episode"),
            MediaKind::Movie => String::from_str("movie"),
            MediaKind::MusicVideo => String::from_str("music video"),
            MediaKind::Concert => String::from_str("concert"),
        }
    }

    pub fn is_episode(&self) -> (r: bool)
        ensures
            r == (self.kind == MediaKind::Episode),
    {
        self.kind == MediaKind::Episode
    }

    /// Whether this is a special: its sequence number is zero or not whole.
    pub fn is_special(&self) -> (r: bool)
        ensures
            r == special_sequence(self.sequence_number),
    {
        self.sequence_number == 0 || self.sequence_number % 1000 != 0
    }
}

/// A fraction `f` written with `width` digits, trailing zeros dropped:
/// the digits left and how many there are.
pub open spec fn trimmed_fraction(f: nat, width: nat) -> (nat, nat)
    decreases width,
{
    if width > 1 && f % 10 == 0 { trimmed_fraction(f / 10, (width - 1) as nat) } else { (f, width) }
}

/// A sequence number in thousandths written as a decimal number, without
/// a fraction when it is whole (`12500` is `12.5`, `3000` is `3`).
pub open spec fn sequence_text(milli: i64) -> Seq<char> {
    let a: nat = if milli < 0 { (-milli) as nat } else { milli as nat };
    let (f, w) = trimmed_fraction(a % 1000, 3);
    (if milli < 0 { seq!['-'] } else { Seq::<char>::empty() }) + decimal(a / 1000)
        + if a % 1000 == 0 { Seq::<char>::empty() } else { seq!['.'] + padded(f, w) }
}

/// Writes a sequence number given in thousandths.
pub fn sequence_string(milli: i64) -> (r: String)
    ensures
        r@ == sequence_text(milli),
{
    let a: u64 = if milli < 0 { (0i128 - milli as i128) as u64 } else { milli as u64 };
    let mut out: Vec<char> = Vec::new();
    if milli < 0 {
        out.push('-');
    }
    push_decimal(&mut out, (a / 1000) as u128);
    if a % 1000 != 0 {
        out.push('.');
        let mut f: u64 = a % 1000;
        let mut w: usize = 3;
        while w > 1 && f % 10 == 0
            invariant
                1 <= w <= 3,
                trimmed_fraction((a % 1000) as nat, 3) == trimmed_fraction(f as nat, w as nat),
            decreases w,
        {
            f = f / 10;
            w = w - 1;
        }
        push_padded(&mut out, f, w);
    }
    assert(out@ =~= sequence_text(milli));
    string_of(&out)
}

/// The identifier of an episode: the one the service gives, or, when that
/// is empty, one made of the series, season and sequence number.
pub fn episode_identifier(identifier: &str, series_id: &str, season_number: u32, sequence_number: i64) -> (r: String)
    ensures
        identifier@.len() > 0 ==> r@ == identifier@,
        identifier@.len() == 0 ==> r@ == series_id@ + "|S"@ + decimal(season_number as nat) + "|E"@
            + sequence_text(sequence_number),
{
    if identifier.unicode_len() > 0 {
        return String::from_str(identifier);
    }
    let mut v = chars_of(series_id);
    push_str(&mut v, "|S");
    push_decimal(&mut v, season_number as u128);
    push_str(&mut v, "|E");
    let seq = sequence_string(sequence_number);
    push_str(&mut v, seq.as_str());
    string_of(&v)
}

/// The episode number shown for an episode: the one the service gives, or
/// its sequence number when that is empty.
pub fn episode_number_or_sequence(episode: &str, sequence_number: i64) -> (r: String)
    ensures
        episode@.len() > 0 ==> r@ == episode@,
        episode@.len() == 0 ==> r@ == sequence_text(sequence_number),
{
    if episode.unicode_len() > 0 {
        String::from_str(episode)
    } else {
        sequence_string(sequence_number)
    }
}

/// Whether `s` holds `word` at some position.
pub open spec fn holds(s: Seq<char>, word: Seq<char>) -> bool {
    exists|p: int| 0 <= p && p + word.len() <= s.len() && #[trigger] s.subrange(p, p + word.len()) == word
}

fn contains_chars(s: &Vec<char>, word: &Vec<char>) -> (r: bool)
    ensures
        r == holds(s@, word@),
{
    if word.len() > s.len() {
        return false;
    }
    let mut p: usize = 0;
    while p <= s.len() - word.len()
        invariant
            word.len() <= s.len(),
            p <= s.len() - word.len() + 1,
            forall|q: int| 0 <= q < p ==> #[trigger] s@.subrange(q, q + word.len()) != word@,
        decreases s.len() - p,
    {
        let mut k: usize = 0;
        let mut same = true;
        while k < word.len()
            invariant
                p + word.len() <= s.len(),
                k <= word.len(),
                same <==> forall|t: int| 0 <= t < k ==> s@[p + t] == word@[t],
            decreases word.len() - k,
        {
            if s[p + k] != word[k] {
                same = false;
            }
            k = k + 1;
        }
        if same {
            assert(s@.subrange(p as int, p + word.len()) =~= word@);
            return true;
        }
        proof {
            let t = choose|t: int| 0 <= t < word.len() && s@[p + t] != word@[t];
            assert(s@.subrange(p as int, p + word.len())[t] != word@[t]);
        }
        p = p + 1;
    }
    proof {
        if holds(s@, word@) {
            let q = choose|q: int| 0 <= q && q + word.len() <= s.len() && #[trigger] s@.subrange(q, q + word.len()) == word@;
            assert(q < p);
        }
    }
    false
}

/// Episodes of a season: sequence number and the formats of that episode.
pub type EpisodesView = Seq<(i64, Seq<SingleFormat>)>;

/// Seasons: number, identifier and episodes.
pub type SeasonsView = Seq<(u32, Seq<char>, EpisodesView)>;

/// The first episode whose sequence number is at least `key`.
pub open spec fn first_at_least(eps: EpisodesView, key: i64) -> int
    decreases eps.len(),
{
    if eps.len() == 0 {
        0
    } else if eps[0].0 >= key {
        0
    } else {
        1 + first_at_least(eps.drop_first(), key)
    }
}

/// The episodes with `formats` stored as episode `key`: an episode with
/// that number is replaced, else the new one goes before the first with a
/// greater number.
pub open spec fn put_episode(eps: EpisodesView, key: i64, formats: Seq<SingleFormat>) -> EpisodesView {
    let i = first_at_least(eps, key);
    if i < eps.len() && eps[i].0 == key {
        eps.update(i, (key, formats))
    } else {
        eps.insert(i, (key, formats))
    }
}

/// The season with this number and identifier, or the number of seasons.
pub open spec fn find_season(ss: SeasonsView, number: u32, id: Seq<char>) -> int
    decreases ss.len(),
{
    if ss.len() == 0 {
        0
    } else if ss[0].0 == number && ss[0].1 == id {
        0
    } else {
        1 + find_season(ss.drop_first(), number, id)
    }
}

/// Where a new season numbered `number` goes: after every season whose
/// number is not greater (first come, first served among equal numbers).
pub open spec fn season_slot(ss: SeasonsView, number: u32) -> int
    decreases ss.len(),
{
    if ss.len() == 0 {
        0
    } else if ss[0].0 > number {
        0
    } else {
        1 + season_slot(ss.drop_first(), number)
    }
}

/// The seasons with the formats of one episode added.
pub open spec fn add_formats(ss: SeasonsView, number: u32, id: Seq<char>, key: i64, formats: Seq<SingleFormat>) -> SeasonsView {
    let j = find_season(ss, number, id);
    if j < ss.len() {
        ss.update(j, (ss[j].0, ss[j].1, put_episode(ss[j].2, key, formats)))
    } else {
        ss.insert(season_slot(ss, number), (number, id, seq![(key, formats)]))
    }
}

proof fn lemma_first_at_least_bound(eps: EpisodesView, key: i64)
    ensures
        0 <= first_at_least(eps, key) <= eps.len(),
    decreases eps.len(),
{
    if eps.len() > 0 {
        lemma_first_at_least_bound(eps.drop_first(), key);
    }
}

proof fn lemma_find_season_bound(ss: SeasonsView, number: u32, id: Seq<char>)
    ensures
        0 <= find_season(ss, number, id) <= ss.len(),
    decreases ss.len(),
{
    if ss.len() > 0 {
        lemma_find_season_bound(ss.drop_first(), number, id);
    }
}

proof fn lemma_season_slot_bound(ss: SeasonsView, number: u32)
    ensures
        0 <= season_slot(ss, number) <= ss.len(),
    decreases ss.len(),
{
    if ss.len() > 0 {
        lemma_season_slot_bound(ss.drop_first(), number);
    }
}

struct SeasonEntry {
    number: u32,
    id: String,
    episodes: Vec<(i64, Vec<SingleFormat>)>,
}

pub open spec fn episodes_view(eps: Seq<(i64, Vec<SingleFormat>)>) -> EpisodesView {
    eps.map_values(|e: (i64, Vec<SingleFormat>)| (e.0, e.1@))
}

/// Formats grouped by season, seasons by number, episodes by sequence number.
pub struct SingleFormatCollection {
    seasons: Vec<SeasonEntry>,
}

impl View for SingleFormatCollection {
    type V = SeasonsView;

    closed spec fn view(&self) -> SeasonsView {
        self.seasons@.map_values(|s: SeasonEntry| (s.number, s.id@, episodes_view(s.episodes@)))
    }
}

fn put_episode_exec(eps: Vec<(i64, Vec<SingleFormat>)>, key: i64, formats: Vec<SingleFormat>) -> (r: Vec<(i64, Vec<SingleFormat>)>)
    ensures
        episodes_view(r@) == put_episode(episodes_view(eps@), key, formats@),
{
    let ghost ev = episodes_view(eps@);
    proof { lemma_first_at_least_bound(ev, key); }
    let mut eps = eps;
    let mut i: usize = 0;
    assert(ev.skip(0) =~= ev);
    while i < eps.len() && eps[i].0 < key
        invariant
            ev == episodes_view(eps@),
            i <= eps.len(),
            first_at_least(ev, key) == i + first_at_least(ev.skip(i as int), key),
        decreases eps.len() - i,
    {
        assert(ev.skip(i as int).drop_first() =~= ev.skip(i + 1));
        i = i + 1;
    }
    if i < eps.len() {
        assert(ev.skip(i as int)[0] == ev[i as int]);
    }
    let ghost fv = formats@;
    if i < eps.len() && eps[i].0 == key {
        let _ = eps.remove(i);
        eps.insert(i, (key, formats));
        assert(episodes_view(eps@) =~= ev.update(i as int, (key, fv)));
    } else {
        eps.insert(i, (key, formats));
        assert(episodes_view(eps@) =~= ev.insert(i as int, (key, fv)));
    }
    eps
}

impl SingleFormatCollection {
    /// Every season holds at least one episode.
    pub open spec fn wf(&self) -> bool {
        forall|i: int| 0 <= i < self@.len() ==> (#[trigger] self@[i]).2.len() > 0
    }

    pub fn new() -> (r: SingleFormatCollection)
        ensures
            r@.len() == 0,
            r.wf(),
    {
        let r = SingleFormatCollection { seasons: Vec::new() };
        assert(r@ =~= Seq::<(u32, Seq<char>, EpisodesView)>::empty());
        r
    }

    pub fn is_empty(&self) -> (r: bool)
        ensures
            r == (self@.len() == 0),
    {
        self.seasons.len() == 0
    }

    /// Adds the formats of one episode, filed by the first format's season
    /// and sequence number.
    pub fn add_single_formats(&mut self, single_formats: Vec<SingleFormat>)
        requires
            old(self).wf(),
            single_formats@.len() >= 1,
        ensures
            final(self).wf(),
            final(self)@ == add_formats(old(self)@, single_formats@[0].season_number, single_formats@[0].season_id@,
                single_formats@[0].sequence_number, single_formats@),
    {
        let number = single_formats[0].season_number;
        let id = single_formats[0].season_id.clone();
        let key = single_formats[0].sequence_number;
        let ghost ss = self@;
        let ghost fv = single_formats@;
        proof {
            lemma_find_season_bound(ss, number, id@);
            lemma_season_slot_bound(ss, number);
        }
        let mut j: usize = 0;
        assert(ss.skip(0) =~= ss);
        while j < self.seasons.len() && !(self.seasons[j].number == number && self.seasons[j].id == id)
            invariant
                ss == self@,
                j <= self.seasons.len(),
                find_season(ss, number, id@) == j + find_season(ss.skip(j as int), number, id@),
            decreases self.seasons.len() - j,
        {
            assert(ss.skip(j as int).drop_first() =~= ss.skip(j + 1));
            j = j + 1;
        }
        if j < self.seasons.len() {
            assert(ss.skip(j as int)[0] == ss[j as int]);
            let season = self.seasons.remove(j);
            let SeasonEntry { number: n, id: sid, episodes } = season;
            let episodes = put_episode_exec(episodes, key, single_formats);
            self.seasons.insert(j, SeasonEntry { number: n, id: sid, episodes });
            assert(self@ =~= add_formats(ss, number, id@, key, fv));
            proof {
                lemma_first_at_least_bound(ss[j as int].2, key);
            }
        } else {
            let mut p: usize = 0;
            assert(ss.skip(0) =~= ss);
            while p < self.seasons.len() && self.seasons[p].number <= number
                invariant
                    ss == self@,
                    p <= self.seasons.len(),
                    season_slot(ss, number) == p + season_slot(ss.skip(p as int), number),
                decreases self.seasons.len() - p,
            {
                assert(ss.skip(p as int).drop_first() =~= ss.skip(p + 1));
                p = p + 1;
            }
            if p < self.seasons.len() {
                assert(ss.skip(p as int)[0] == ss[p as int]);
            }
            let mut episodes: Vec<(i64, Vec<SingleFormat>)> = Vec::new();
            episodes.push((key, single_formats));
            assert(episodes_view(episodes@) =~= seq![(key, fv)]);
            self.seasons.insert(p, SeasonEntry { number, id, episodes });
            assert(self@ =~= add_formats(ss, number, id@, key, fv));
        }
    }

    /// Takes the formats of the first episode of the first season; a season
    /// left without episodes goes.
    pub fn next(&mut self) -> (r: Option<Vec<SingleFormat>>)
        requires
            old(self).wf(),
        ensures
            final(self).wf(),
            old(self)@.len() == 0 ==> r is None && final(self)@ == old(self)@,
            old(self)@.len() > 0 ==> {
                let first = old(self)@[0];
                &&& r matches Some(v) && v@ == first.2[0].1
                &&& first.2.len() == 1 ==> final(self)@ == old(self)@.drop_first()
                &&& first.2.len() > 1 ==> final(self)@ == old(self)@.update(0, (first.0, first.1, first.2.drop_first()))
            },
    {
        if self.seasons.len() == 0 {
            return None;
        }
        let ghost ss = self@;
        assert(ss[0].2.len() > 0);
        let season = self.seasons.remove(0);
        let SeasonEntry { number, id, mut episodes } = season;
        let ghost ev = episodes_view(episodes@);
        let (_, formats) = episodes.remove(0);
        if episodes.len() > 0 {
            self.seasons.insert(0, SeasonEntry { number, id, episodes });
            assert(episodes_view(episodes@) =~= ev.drop_first());
            assert(self@ =~= ss.update(0, (ss[0].0, ss[0].1, ss[0].2.drop_first())));
        } else {
            assert(self@ =~= ss.drop_first());
        }
        Some(formats)
    }
}

/// The metadata of a title across its language variants: the first
/// variant's, with every variant's audio and subtitle locales.
pub struct Format {
    pub title: String,
    pub description: String,
    pub locales: Vec<(Locale, Vec<Locale>)>,
    pub width: u64,
    pub height: u64,
    pub release_year: u64,
    pub release_month: u64,
    pub release_day: u64,
    pub series_id: String,
    pub series_name: String,
    pub season_id: String,
    pub season_title: String,
    pub season_number: u32,
    pub episode_id: String,
    pub episode_number: String,
    pub relative_episode_number: Option<u32>,
    pub sequence_number: i64,
    pub relative_sequence_number: Option<i64>,
}

/// The locales of a variant's subtitles.
pub open spec fn subtitle_locales(subs: Seq<(Subtitle, bool)>) -> Seq<Locale> {
    subs.map_values(|s: (Subtitle, bool)| s.0.locale)
}

fn take_subtitle_locales(subs: Vec<(Subtitle, bool)>) -> (r: Vec<Locale>)
    ensures
        r@ == subtitle_locales(subs@),
{
    let ghost all = subs@;
    let n = subs.len();
    let mut subs = subs;
    let mut r: Vec<Locale> = Vec::new();
    while subs.len() > 0
        invariant
            n == all.len(),
            r.len() + subs.len() == n,
            subs@ == all.subrange(r.len() as int, n as int),
            r@ == subtitle_locales(all).take(r.len() as int),
        decreases subs.len(),
    {
        let (sub, _) = subs.remove(0);
        r.push(sub.locale);
        assert(subs@ =~= all.subrange(r.len() as int, n as int));
        assert(r@ =~= subtitle_locales(all).take(r.len() as int));
    }
    assert(r@ =~= subtitle_locales(all));
    r
}

impl Format {
    /// The metadata of the variants given, each with its subtitles; the
    /// first variant gives everything but the locales. The video is
    /// `width` x `height`.
    pub fn from_single_formats(single_formats: Vec<(SingleFormat, Vec<(Subtitle, bool)>)>, width: u64, height: u64) -> (r: Format)
        requires
            single_formats@.len() >= 1,
        ensures
            r.locales@.len() == single_formats@.len(),
            forall|i: int| 0 <= i < single_formats@.len() ==> {
                &&& (#[trigger] r.locales@[i]).0 == single_formats@[i].0.audio
                &&& r.locales@[i].1@ == subtitle_locales(single_formats@[i].1@)
            },
            r.title == single_formats@[0].0.title,
            r.description == single_formats@[0].0.description,
            r.width == width,
            r.height == height,
            r.release_year == single_formats@[0].0.release_year,
            r.release_month == single_formats@[0].0.release_month,
            r.release_day == single_formats@[0].0.release_day,
            r.series_id == single_formats@[0].0.series_id,
            r.series_name == single_formats@[0].0.series_name,
            r.season_id == single_formats@[0].0.season_id,
            r.season_title == single_formats@[0].0.season_title,
            r.season_number == single_formats@[0].0.season_number,
            r.episode_id == single_formats@[0].0.episode_id,
            r.episode_number == single_formats@[0].0.episode_number,
            r.relative_episode_number == single_formats@[0].0.relative_episode_number,
            r.sequence_number == single_formats@[0].0.sequence_number,
            r.relative_sequence_number == single_formats@[0].0.relative_sequence_number,
    {
        let ghost all = single_formats@;
        let n = single_formats.len();
        let mut rest = single_formats;
        let mut locales: Vec<(Locale, Vec<Locale>)> = Vec::new();
        let mut first: Option<SingleFormat> = None;
        while rest.len() > 0
            invariant
                n == all.len(),
                n >= 1,
                locales.len() + rest.len() == n,
                rest@ == all.subrange(locales.len() as int, n as int),
                forall|i: int| 0 <= i < locales.len() ==> {
                    &&& (#[trigger] locales@[i]).0 == all[i].0.audio
                    &&& locales@[i].1@ == subtitle_locales(all[i].1@)
                },
                locales.len() == 0 ==> first is None,
                locales.len() > 0 ==> first == Some(all[0].0),
            decreases rest.len(),
        {
            let (format, subs) = rest.remove(0);
            let subtitle_locales = take_subtitle_locales(subs);
            if locales.len() == 0 {
                locales.push((Locale { tag: format.audio.tag.clone(), name: format.audio.name.clone() }, subtitle_locales));
                first = Some(format);
            } else {
                locales.push((format.audio, subtitle_locales));
            }
            assert(rest@ =~= all.subrange(locales.len() as int, n as int));
        }
        let f = first.unwrap();
        Format {
            title: f.title,
            description: f.description,
            locales,
            width,
            height,
            release_year: f.release_year,
            release_month: f.release_month,
            release_day: f.release_day,
            series_id: f.series_id,
            series_name: f.series_name,
            season_id: f.season_id,
            season_title: f.season_title,
            season_number: f.season_number,
            episode_id: f.episode_id,
            episode_number: f.episode_number,
            relative_episode_number: f.relative_episode_number,
            sequence_number: f.sequence_number,
            relative_sequence_number: f.relative_sequence_number,
        }
    }

    /// Whether this is a special: its sequence number is zero or not whole.
    pub fn is_special(&self) -> (r: bool)
        ensures
            r == special_sequence(self.sequence_number),
    {
        self.sequence_number == 0 || self.sequence_number % 1000 != 0
    }

    /// Whether a path template uses a relative episode or sequence number.
    pub fn has_relative_fmt(s: &str) -> (r: bool)
        ensures
            r == (holds(s@, "{relative_episode_number}"@) || holds(s@, "{relative_sequence_number}"@)),
    {
        let v = chars_of(s);
        let a = chars_of("{relative_episode_number}");
        let b = chars_of("{relative_sequence_number}");
        contains_chars(&v, &a) || contains_chars(&v, &b)
    }
}

} // verus!
