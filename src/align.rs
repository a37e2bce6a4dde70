//! Aligning several language variants of one title in time, and merging
//! them around the variant whose video is kept.

use vstd::prelude::*;
use crate::model::{DownloadFormat, Locale, Subtitle};
use crate::segments::StreamData;

verus! {

/// The largest spread of effective lengths, in milliseconds, at which
/// offsets are still trusted.
pub const MAX_SPREAD_MS: u64 = 15000;

/// What came of aligning the variants.
#[derive(Debug, PartialEq, Eq, Structural)]
pub enum Alignment {
    /// The offsets hold; variant `root` keeps its video.
    Aligned { root: usize },
    /// The offsets put the variants' effective lengths `spread_ms` apart,
    /// more than [`MAX_SPREAD_MS`]; they are dropped.
    Rejected { spread_ms: u128 },
    /// No offsets were found.
    Unavailable,
}

/// A variant's length once its offset is taken off.
pub open spec fn effective_length(total_ms: u64, offset: Option<i64>) -> int {
    match offset {
        Some(o) => total_ms - o,
        None => total_ms as int,
    }
}

/// `root` is the first variant of greatest effective length.
pub open spec fn is_root(eff: Seq<i128>, root: int) -> bool {
    &&& 0 <= root < eff.len()
    &&& forall|i: int| 0 <= i < eff.len() ==> eff[i] <= eff[root]
    &&& forall|i: int| 0 <= i < root ==> eff[i] < eff[root]
}

pub open spec fn is_max(eff: Seq<i128>, m: int) -> bool {
    &&& forall|i: int| 0 <= i < eff.len() ==> eff[i] <= m
    &&& exists|i: int| 0 <= i < eff.len() && eff[i] == m
}

pub open spec fn is_min(eff: Seq<i128>, m: int) -> bool {
    &&& forall|i: int| 0 <= i < eff.len() ==> eff[i] >= m
    &&& exists|i: int| 0 <= i < eff.len() && eff[i] == m
}

/// The effective length of every variant.
pub fn effective_lengths(totals: &Vec<u64>, offsets: &Vec<Option<i64>>) -> (r: Vec<i128>)
    requires
        totals.len() == offsets.len(),
    ensures
        r.len() == totals.len(),
        forall|i: int| 0 <= i < r.len() ==> r[i] == effective_length(totals[i], offsets[i]),
{
    let mut r: Vec<i128> = Vec::new();
    let mut i: usize = 0;
    while i < totals.len()
        invariant
            i <= totals.len() == offsets.len(),
            r.len() == i,
            forall|j: int| 0 <= j < i ==> r[j] == effective_length(totals[j], offsets[j]),
        decreases totals.len() - i,
    {
        let e: i128 = match offsets[i] {
            Some(o) => totals[i] as i128 - o as i128,
            None => totals[i] as i128,
        };
        r.push(e);
        i = i + 1;
    }
    r
}

/// The first variant of greatest effective length.
pub fn root_variant(eff: &Vec<i128>) -> (r: usize)
    requires
        eff.len() >= 1,
    ensures
        is_root(eff@, r as int),
{
    let mut best: usize = 0;
    let mut i: usize = 1;
    while i < eff.len()
        invariant
            1 <= i <= eff.len(),
            best < i,
            forall|j: int| 0 <= j < i ==> eff[j] <= eff[best as int],
            forall|j: int| 0 <= j < best ==> eff[j] < eff[best as int],
        decreases eff.len() - i,
    {
        if eff[i] > eff[best] {
            best = i;
        }
        i = i + 1;
    }
    best
}

/// The greatest and least effective lengths.
pub fn extremes(eff: &Vec<i128>) -> (r: (i128, i128))
    requires
        eff.len() >= 1,
    ensures
        is_max(eff@, r.0 as int),
        is_min(eff@, r.1 as int),
{
    let mut hi: i128 = eff[0];
    let mut lo: i128 = eff[0];
    let mut i: usize = 1;
    while i < eff.len()
        invariant
            1 <= i <= eff.len(),
            forall|j: int| 0 <= j < i ==> lo <= #[trigger] eff[j] <= hi,
            exists|j: int| 0 <= j < i && eff[j] == hi,
            exists|j: int| 0 <= j < i && eff[j] == lo,
        decreases eff.len() - i,
    {
        if eff[i] > hi {
            hi = eff[i];
        }
        if eff[i] < lo {
            lo = eff[i];
        }
        i = i + 1;
    }
    (hi, lo)
}

/// The effective lengths of variants of `totals` milliseconds with offsets `o`.
pub open spec fn effective_all(totals: Seq<u64>, o: Seq<Option<i64>>) -> Seq<i128> {
    Seq::new(totals.len(), |i: int| effective_length(totals[i], o[i]) as i128)
}

/// `r` is the outcome of aligning variants of `totals` milliseconds with the
/// offsets found, if any: unavailable without offsets; rejected, with the
/// spread, when the effective lengths lie more than [`MAX_SPREAD_MS`] apart;
/// else aligned on the first variant of greatest effective length.
pub open spec fn alignment_decided(totals: Seq<u64>, offsets: Option<Vec<Option<i64>>>, r: Alignment) -> bool {
    &&& offsets is None ==> r == Alignment::Unavailable
    &&& offsets matches Some(o) ==> {
        let eff = effective_all(totals, o@);
        &&& seq_max(eff) - seq_min(eff) > MAX_SPREAD_MS ==> r == Alignment::Rejected {
            spread_ms: (seq_max(eff) - seq_min(eff)) as u128,
        }
        &&& seq_max(eff) - seq_min(eff) <= MAX_SPREAD_MS ==> (r matches Alignment::Aligned { root } && is_root(eff, root as int))
    }
}

/// The greatest of the values (0 for none).
pub open spec fn seq_max(s: Seq<i128>) -> int
    decreases s.len(),
{
    if s.len() == 0 {
        0
    } else if s.len() == 1 {
        s[0] as int
    } else if seq_max(s.drop_last()) >= s.last() {
        seq_max(s.drop_last())
    } else {
        s.last() as int
    }
}

/// The least of the values (0 for none).
pub open spec fn seq_min(s: Seq<i128>) -> int
    decreases s.len(),
{
    if s.len() == 0 {
        0
    } else if s.len() == 1 {
        s[0] as int
    } else if seq_min(s.drop_last()) <= s.last() {
        seq_min(s.drop_last())
    } else {
        s.last() as int
    }
}

proof fn lemma_extremes(s: Seq<i128>)
    requires
        s.len() >= 1,
    ensures
        is_max(s, seq_max(s)),
        is_min(s, seq_min(s)),
    decreases s.len(),
{
    if s.len() > 1 {
        let p = s.drop_last();
        lemma_extremes(p);
        let a = choose|i: int| 0 <= i < p.len() && p[i] == seq_max(p);
        let b = choose|i: int| 0 <= i < p.len() && p[i] == seq_min(p);
        assert(s[a] == p[a] && s[b] == p[b]);
        assert forall|i: int| 0 <= i < s.len() implies s[i] <= seq_max(s) && s[i] >= seq_min(s) by {
            if i < p.len() {
                assert(s[i] == p[i]);
            }
        }
        assert(s[s.len() - 1] == s.last());
    }
}

/// An aligned outcome names a variant that exists, and comes only from offsets.
pub proof fn lemma_aligned_root_exists(totals: Seq<u64>, offsets: Option<Vec<Option<i64>>>, r: Alignment)
    requires
        totals.len() >= 1,
        offsets matches Some(o) ==> o@.len() == totals.len(),
        alignment_decided(totals, offsets, r),
        r is Aligned,
    ensures
        offsets is Some,
        r->root < totals.len(),
{
    if let Some(o) = offsets {
        let eff = effective_all(totals, o@);
        lemma_extremes(eff);
    }
}

/// Decides whether the offsets found for the variants hold, and which
/// variant becomes the root: offsets that leave the effective lengths more
/// than [`MAX_SPREAD_MS`] apart are rejected; otherwise the root is the first
/// variant of greatest effective length.
pub fn check_alignment(totals: &Vec<u64>, offsets: &Option<Vec<Option<i64>>>) -> (r: Alignment)
    requires
        totals.len() >= 1,
        offsets matches Some(o) ==> o.len() == totals.len(),
    ensures
        alignment_decided(totals@, *offsets, r),
{
    match offsets {
        None => Alignment::Unavailable,
        Some(o) => {
            let eff = effective_lengths(totals, o);
            assert(eff@ =~= effective_all(totals@, o@));
            let (hi, lo) = extremes(&eff);
            let ghost eff_s = eff@;
            proof {
                lemma_extremes(eff_s);
                let a = choose|j: int| 0 <= j < eff_s.len() && eff_s[j] == seq_max(eff_s);
                let b = choose|j: int| 0 <= j < eff_s.len() && eff_s[j] == seq_min(eff_s);
                let c = choose|j: int| 0 <= j < eff_s.len() && eff_s[j] == hi;
                let d = choose|j: int| 0 <= j < eff_s.len() && eff_s[j] == lo;
                assert(hi == seq_max(eff_s) && lo == seq_min(eff_s));
            }
            let spread: u128 = (hi - lo) as u128;
            if spread > MAX_SPREAD_MS as u128 {
                Alignment::Rejected { spread_ms: spread }
            } else {
                Alignment::Aligned { root: root_variant(&eff) }
            }
        },
    }
}

/// The audio tracks of all variants, variant by variant.
pub open spec fn audios_of(fs: Seq<DownloadFormat>) -> Seq<(StreamData, Locale)>
    decreases fs.len(),
{
    if fs.len() == 0 {
        Seq::empty()
    } else {
        audios_of(fs.drop_last()) + fs.last().audios@
    }
}

/// The subtitle tracks of all variants, variant by variant.
pub open spec fn subtitles_of(fs: Seq<DownloadFormat>) -> Seq<(Subtitle, bool)>
    decreases fs.len(),
{
    if fs.len() == 0 {
        Seq::empty()
    } else {
        subtitles_of(fs.drop_last()) + fs.last().subtitles@
    }
}

/// Merges all variants into the root: the root's video and metadata are
/// kept, the other videos dropped; the audio and subtitle tracks of the
/// variants before the root come first, then the root's, then those after it.
pub fn merge_into_root(formats: Vec<DownloadFormat>, root: usize) -> (r: DownloadFormat)
    requires
        root < formats.len(),
    ensures
        r.video == formats@[root as int].video,
        r.metadata == formats@[root as int].metadata,
        r.audios@ == audios_of(formats@),
        r.subtitles@ == subtitles_of(formats@),
{
    let ghost all = formats@;
    let n = formats.len();
    let mut formats = formats;
    let mut audios: Vec<(StreamData, Locale)> = Vec::new();
    let mut subtitles: Vec<(Subtitle, bool)> = Vec::new();
    let mut kept: Option<DownloadFormat> = None;
    let mut i: usize = 0;
    while formats.len() > 0
        invariant
            n == all.len(),
            root < n,
            i + formats.len() == n,
            formats@ == all.subrange(i as int, n as int),
            audios@ == audios_of(all.take(i as int)),
            subtitles@ == subtitles_of(all.take(i as int)),
            i <= root ==> kept is None,
            i > root ==> (kept matches Some(k) && k.video == all[root as int].video
                && k.metadata == all[root as int].metadata),
        decreases formats.len(),
    {
        assert(all.take(i + 1).drop_last() =~= all.take(i as int));
        let mut f = formats.remove(0);
        let mut a: Vec<(StreamData, Locale)> = Vec::new();
        let mut s: Vec<(Subtitle, bool)> = Vec::new();
        std::mem::swap(&mut a, &mut f.audios);
        std::mem::swap(&mut s, &mut f.subtitles);
        audios.append(&mut a);
        subtitles.append(&mut s);
        if i == root {
            kept = Some(f);
        }
        i = i + 1;
        assert(formats@ =~= all.subrange(i as int, n as int));
    }
    assert(all.take(n as int) =~= all);
    let kept = kept.unwrap();
    DownloadFormat { video: kept.video, audios, subtitles, metadata: kept.metadata }
}

} // verus!
