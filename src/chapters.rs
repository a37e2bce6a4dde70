//! The chapter sidecar read by the multiplexer, built from skip events.

use vstd::prelude::*;
use vstd::string::*;
use crate::model::{SkipEvent, SkipEvents};
use crate::order::{apply_order, stable_order};
use crate::text::{chars_of, decimal, push_decimal, push_str, string_of};

verus! {

/// Gaps longer than this, in milliseconds, get a chapter of their own.
pub const MIN_GAP_MS: u64 = 10000;

/// A chapter: its title and where it starts and ends, in milliseconds.
pub struct Chapter {
    pub title: String,
    pub start_ms: u64,
    pub end_ms: u64,
}

/// A chapter as plain values.
pub open spec fn chapter_view(c: Chapter) -> (Seq<char>, u64, u64) {
    (c.title@, c.start_ms, c.end_ms)
}

pub open spec fn chapter_views(cs: Seq<Chapter>) -> Seq<(Seq<char>, u64, u64)> {
    cs.map_values(|c: Chapter| chapter_view(c))
}

pub open spec fn valid_event(e: SkipEvent) -> bool {
    e.start_ms < e.end_ms
}

/// The events sorted by start.
pub open spec fn sorted_by_start(events: Seq<(Seq<char>, SkipEvent)>) -> bool {
    forall|i: int, j: int| 0 <= i < j < events.len() ==> #[trigger] events[i].1.start_ms <= #[trigger] events[j].1.start_ms
}

/// The chapters for `events`, walked in order with the previous chapter
/// ending at `last_end`: an `Episode` chapter fills each gap longer than
/// [`MIN_GAP_MS`] before an event.
pub open spec fn walk(events: Seq<(Seq<char>, SkipEvent)>, last_end: u64) -> Seq<(Seq<char>, u64, u64)>
    decreases events.len(),
{
    if events.len() == 0 {
        Seq::empty()
    } else {
        let e = events[0].1;
        (if e.start_ms - last_end > MIN_GAP_MS {
            seq![("Episode"@, last_end, e.start_ms)]
        } else {
            Seq::empty()
        }) + seq![(events[0].0, e.start_ms, e.end_ms)] + walk(events.drop_first(), e.end_ms)
    }
}

/// Where the last event ends (0 with none).
pub open spec fn last_end(events: Seq<(Seq<char>, SkipEvent)>) -> u64 {
    if events.len() == 0 { 0 } else { events.last().1.end_ms }
}

/// All chapters of a video of `video_len` milliseconds with these (sorted)
/// events: the walk, then an `Episode` chapter up to the end when the last
/// gap is longer than [`MIN_GAP_MS`].
pub open spec fn chapters_for(events: Seq<(Seq<char>, SkipEvent)>, video_len: u64) -> Seq<(Seq<char>, u64, u64)> {
    walk(events, 0) + if video_len - last_end(events) > MIN_GAP_MS {
        seq![("Episode"@, last_end(events), video_len)]
    } else {
        Seq::empty()
    }
}

/// The labelled events of `skip`, in the order recap, intro, credits, preview.
pub open spec fn labelled(skip: SkipEvents) -> Seq<(Seq<char>, SkipEvent)> {
    (match skip.recap { Some(e) => seq![("Recap"@, e)], None => Seq::empty() })
        + (match skip.intro { Some(e) => seq![("Intro"@, e)], None => Seq::empty() })
        + (match skip.credits { Some(e) => seq![("Credits"@, e)], None => Seq::empty() })
        + (match skip.preview { Some(e) => seq![("Preview"@, e)], None => Seq::empty() })
}

pub open spec fn event_views(events: Seq<(String, SkipEvent)>) -> Seq<(Seq<char>, SkipEvent)> {
    events.map_values(|e: (String, SkipEvent)| (e.0@, e.1))
}

fn push_event(v: &mut Vec<(String, SkipEvent)>, label: &str, e: &Option<SkipEvent>)
    ensures
        event_views(final(v)@) == event_views(old(v)@) + match *e {
            Some(x) => seq![(label@, x)],
            None => Seq::empty(),
        },
{
    match e {
        Some(x) => {
            v.push((String::from_str(label), *x));
            assert(event_views(final(v)@) =~= event_views(old(v)@) + seq![(label@, *x)]);
        },
        None => {
            assert(event_views(final(v)@) =~= event_views(old(v)@) + Seq::empty());
        },
    }
}

/// The labelled events of `skip`, in the order recap, intro, credits, preview.
pub fn chapter_events(skip: &SkipEvents) -> (r: Vec<(String, SkipEvent)>)
    ensures
        event_views(r@) == labelled(*skip),
{
    let mut v: Vec<(String, SkipEvent)> = Vec::new();
    assert(event_views(v@) =~= Seq::empty());
    push_event(&mut v, "Recap", &skip.recap);
    push_event(&mut v, "Intro", &skip.intro);
    push_event(&mut v, "Credits", &skip.credits);
    push_event(&mut v, "Preview", &skip.preview);
    assert(event_views(v@) =~= labelled(*skip));
    v
}

/// The events sorted by start; events that start together keep their order.
pub fn sort_events(events: Vec<(String, SkipEvent)>) -> (r: Vec<(String, SkipEvent)>)
    ensures
        r.len() == events.len(),
        sorted_by_start(event_views(r@)),
        exists|order: Seq<usize>| crate::order::is_permutation(order, events.len() as nat)
            && crate::order::stably_sorted(events@.map_values(|e: (String, SkipEvent)| e.1.start_ms as u128), order)
            && forall|k: int| 0 <= k < r.len() ==> #[trigger] r@[k] == events@[order[k] as int],
{
    let mut keys: Vec<u128> = Vec::new();
    let mut i: usize = 0;
    while i < events.len()
        invariant
            i <= events.len(),
            keys.len() == i,
            forall|t: int| 0 <= t < i ==> #[trigger] keys[t] == events@[t].1.start_ms as u128,
        decreases events.len() - i,
    {
        keys.push(events[i].1.start_ms as u128);
        i = i + 1;
    }
    assert(keys@ =~= events@.map_values(|e: (String, SkipEvent)| e.1.start_ms as u128));
    let order = stable_order(&keys);
    let ghost all = events@;
    let r = apply_order(events, &order);
    assert forall|a: int, b: int| 0 <= a < b < r.len() implies
        #[trigger] event_views(r@)[a].1.start_ms <= #[trigger] event_views(r@)[b].1.start_ms by {
        assert(keys[order[a] as int] < keys[order[b] as int] || keys[order[a] as int] == keys[order[b] as int]);
    }
    r
}

/// Builds the chapters of a video `video_len` milliseconds long from its
/// events, already sorted by start.
pub fn build_chapters(video_len: u64, events: &Vec<(String, SkipEvent)>) -> (r: Vec<Chapter>)
    ensures
        chapter_views(r@) == chapters_for(event_views(events@), video_len),
{
    let ghost ev = event_views(events@);
    let mut out: Vec<Chapter> = Vec::new();
    let mut last: u64 = 0;
    let mut i: usize = 0;
    assert(ev.skip(0) =~= ev);
    while i < events.len()
        invariant
            ev == event_views(events@),
            i <= events.len(),
            walk(ev, 0) == chapter_views(out@) + walk(ev.skip(i as int), last),
            last == last_end(ev.take(i as int)),
        decreases events.len() - i,
    {
        let ghost before = chapter_views(out@);
        let ghost rest = ev.skip(i as int);
        let ghost last_before = last;
        let e = events[i].1;
        assert(rest[0] == (events@[i as int].0@, e));
        assert(rest.drop_first() =~= ev.skip(i + 1));
        if e.start_ms > last && e.start_ms - last > MIN_GAP_MS {
            out.push(Chapter { title: String::from_str("Episode"), start_ms: last, end_ms: e.start_ms });
        }
        out.push(Chapter { title: events[i].0.clone(), start_ms: e.start_ms, end_ms: e.end_ms });
        assert(ev.take(i + 1).last() == ev[i as int]);
        last = e.end_ms;
        i = i + 1;
        assert(chapter_views(out@) + walk(ev.skip(i as int), last) =~= before + walk(rest, last_before));
    }
    assert(ev.skip(i as int) =~= Seq::<(Seq<char>, SkipEvent)>::empty());
    assert(ev.take(i as int) =~= ev);
    let ghost walked = chapter_views(out@);
    if video_len > last && video_len - last > MIN_GAP_MS {
        out.push(Chapter { title: String::from_str("Episode"), start_ms: last, end_ms: video_len });
    }
    assert(chapter_views(out@) =~= chapters_for(ev, video_len));
    out
}

/// Chapters in order of start.
pub open spec fn starts_sorted(cs: Seq<(Seq<char>, u64, u64)>) -> bool {
    forall|i: int, j: int| 0 <= i < j < cs.len() ==> #[trigger] cs[i].1 <= #[trigger] cs[j].1
}

pub open spec fn all_valid(events: Seq<(Seq<char>, SkipEvent)>) -> bool {
    forall|i: int| 0 <= i < events.len() ==> valid_event(#[trigger] events[i].1)
}

proof fn lemma_walk_sorted(events: Seq<(Seq<char>, SkipEvent)>, le: u64)
    requires
        sorted_by_start(events),
        all_valid(events),
    ensures
        starts_sorted(walk(events, le)),
        events.len() > 0 ==> forall|k: int| 0 <= k < walk(events, le).len() ==>
            #[trigger] walk(events, le)[k].1 >= le || walk(events, le)[k].1 >= events[0].1.start_ms,
        events.len() > 0 ==> forall|k: int| 0 <= k < walk(events, le).len() ==>
            #[trigger] walk(events, le)[k].1 <= events.last().1.start_ms,
    decreases events.len(),
{
    if events.len() > 0 {
        let e = events[0].1;
        let rest = events.drop_first();
        assert(sorted_by_start(rest)) by {
            assert forall|i: int, j: int| 0 <= i < j < rest.len() implies #[trigger] rest[i].1.start_ms <= #[trigger] rest[j].1.start_ms by {
                assert(rest[i] == events[i + 1] && rest[j] == events[j + 1]);
            }
        }
        assert(all_valid(rest)) by {
            assert forall|i: int| 0 <= i < rest.len() implies valid_event(#[trigger] rest[i].1) by {
                assert(rest[i] == events[i + 1]);
            }
        }
        lemma_walk_sorted(rest, e.end_ms);
        let head: Seq<(Seq<char>, u64, u64)> = (if e.start_ms - le > MIN_GAP_MS {
            seq![("Episode"@, le, e.start_ms)]
        } else {
            Seq::empty()
        }) + seq![(events[0].0, e.start_ms, e.end_ms)];
        let tail = walk(rest, e.end_ms);
        let w = walk(events, le);
        assert(w == head + tail);
        assert(valid_event(events[0].1));
        // every chapter of the tail starts at or after this event
        assert forall|k: int| 0 <= k < tail.len() implies #[trigger] tail[k].1 >= e.start_ms by {
            if rest.len() > 0 {
                assert(rest[0] == events[1]);
                assert(events[0].1.start_ms <= events[1].1.start_ms);
            }
        }
        assert forall|k: int| 0 <= k < head.len() implies #[trigger] head[k].1 <= e.start_ms
            && (head[k].1 >= le || head[k].1 >= e.start_ms) by {
        }
        assert forall|i: int, j: int| 0 <= i < j < w.len() implies #[trigger] w[i].1 <= #[trigger] w[j].1 by {
            if j < head.len() {
                assert(head.len() == 2);
                assert(e.start_ms - le > MIN_GAP_MS);
            } else if i < head.len() {
                assert(w[i] == head[i]);
                assert(w[j] == tail[j - head.len()]);
            } else {
                assert(w[i] == tail[i - head.len()]);
                assert(w[j] == tail[j - head.len()]);
            }
        }
        assert forall|k: int| 0 <= k < w.len() implies #[trigger] w[k].1 >= le || w[k].1 >= e.start_ms by {
            if k >= head.len() {
                assert(w[k] == tail[k - head.len()]);
            }
        }
        assert forall|k: int| 0 <= k < w.len() implies #[trigger] w[k].1 <= events.last().1.start_ms by {
            assert(events[0].1.start_ms <= events.last().1.start_ms);
            if k >= head.len() {
                assert(w[k] == tail[k - head.len()]);
                if rest.len() > 0 {
                    assert(rest.last() == events.last());
                }
            }
        }
    }
}

/// For events sorted by start, each starting before it ends, the chapters
/// are in order of start; an `Episode` chapter stands exactly in front of
/// each event that starts more than [`MIN_GAP_MS`] after the previous one
/// ended (the first after 0), and at the end when the video runs on more
/// than [`MIN_GAP_MS`] past the last event.
pub proof fn lemma_chapters_in_order(events: Seq<(Seq<char>, SkipEvent)>, video_len: u64)
    requires
        sorted_by_start(events),
        all_valid(events),
    ensures
        starts_sorted(chapters_for(events, video_len)),
        events.len() > 0 ==> (chapters_for(events, video_len)[0] == ("Episode"@, 0u64, events[0].1.start_ms)
            <==> events[0].1.start_ms > MIN_GAP_MS),
        (video_len - last_end(events) > MIN_GAP_MS) <==> chapters_for(events, video_len).last() == ("Episode"@, last_end(events), video_len)
            && chapters_for(events, video_len).len() > walk(events, 0).len(),
{
    lemma_walk_sorted(events, 0);
    let w = walk(events, 0);
    let c = chapters_for(events, video_len);
    if video_len - last_end(events) > MIN_GAP_MS {
        assert(c == w.push(("Episode"@, last_end(events), video_len)));
        assert forall|i: int, j: int| 0 <= i < j < c.len() implies #[trigger] c[i].1 <= #[trigger] c[j].1 by {
            if j == w.len() {
                assert(c[i] == w[i]);
                if events.len() > 0 {
                    assert(valid_event(events[events.len() - 1].1));
                }
            } else {
                assert(c[i] == w[i] && c[j] == w[j]);
            }
        }
    } else {
        assert(c =~= w);
    }
    if events.len() > 0 {
        let e = events[0].1;
        assert(valid_event(e));
        if e.start_ms > MIN_GAP_MS {
            assert(c[0] == w[0]);
        } else {
            assert(c[0] == w[0]);
            assert(w[0] == (events[0].0, e.start_ms, e.end_ms));
            assert(e.end_ms != e.start_ms);
        }
    }
}

/// Where the chapter before event `k` ends: the previous event's end, 0 for the first.
pub open spec fn end_before(events: Seq<(Seq<char>, SkipEvent)>, k: int) -> u64 {
    if k <= 0 { 0 } else { events[k - 1].1.end_ms }
}

/// The chapters event `e` brings when the chapter before it ends at
/// `last_end`: an `Episode` filler when the gap is longer than
/// [`MIN_GAP_MS`], then the event itself.
pub open spec fn event_chapters(e: (Seq<char>, SkipEvent), last_end: u64) -> Seq<(Seq<char>, u64, u64)> {
    (if e.1.start_ms - last_end > MIN_GAP_MS {
        seq![("Episode"@, last_end, e.1.start_ms)]
    } else {
        Seq::empty()
    }) + seq![(e.0, e.1.start_ms, e.1.end_ms)]
}

/// The chapters of the first `n` events, event by event.
pub open spec fn chapter_pieces(events: Seq<(Seq<char>, SkipEvent)>, n: nat) -> Seq<(Seq<char>, u64, u64)>
    decreases n,
{
    if n == 0 {
        Seq::empty()
    } else {
        chapter_pieces(events, (n - 1) as nat) + event_chapters(events[n - 1], end_before(events, n - 1))
    }
}

proof fn lemma_walk_pieces(events: Seq<(Seq<char>, SkipEvent)>, k: nat)
    requires
        k <= events.len(),
    ensures
        chapter_pieces(events, events.len()) == chapter_pieces(events, k) + walk(events.skip(k as int), end_before(events, k as int)),
    decreases events.len() - k,
{
    if k == events.len() {
        assert(events.skip(k as int).len() == 0);
        assert(chapter_pieces(events, k) + Seq::<(Seq<char>, u64, u64)>::empty() =~= chapter_pieces(events, k));
    } else {
        lemma_walk_pieces(events, k + 1);
        let rest = events.skip(k as int);
        assert(rest.drop_first() =~= events.skip(k + 1 as int));
        assert(rest[0] == events[k as int]);
        let ec = event_chapters(events[k as int], end_before(events, k as int));
        let w = walk(events.skip(k + 1 as int), end_before(events, k + 1 as int));
        assert(walk(rest, end_before(events, k as int)) == ec + w);
        assert(chapter_pieces(events, k + 1) == chapter_pieces(events, k) + ec);
        assert((chapter_pieces(events, k) + ec) + w =~= chapter_pieces(events, k) + (ec + w));
    }
}

/// The chapters are, event after event, an `Episode` filler exactly when
/// the event starts more than [`MIN_GAP_MS`] after the previous event ended
/// (after 0 for the first), then the event; and at the end an `Episode`
/// filler up to the video's end when more than [`MIN_GAP_MS`] remain.
pub proof fn lemma_chapters_piecewise(events: Seq<(Seq<char>, SkipEvent)>, video_len: u64)
    ensures
        chapters_for(events, video_len) == chapter_pieces(events, events.len()) + if video_len - last_end(events) > MIN_GAP_MS {
            seq![("Episode"@, last_end(events), video_len)]
        } else {
            Seq::empty()
        },
{
    lemma_walk_pieces(events, 0);
    assert(events.skip(0) =~= events);
    assert(chapter_pieces(events, 0) + walk(events, 0) =~= walk(events, 0));
}

/// One `[CHAPTER]` block of the sidecar.
pub open spec fn chapter_block(c: (Seq<char>, u64, u64)) -> Seq<char> {
    "[CHAPTER]\nTIMEBASE=1/1000\nSTART="@ + decimal(c.1 as nat) + "\nEND="@ + decimal(c.2 as nat) + "\ntitle="@ + c.0 + "\n"@
}

/// The sidecar text: the `;FFMETADATA1` header, then one block per chapter.
pub open spec fn sidecar_text(cs: Seq<(Seq<char>, u64, u64)>) -> Seq<char>
    decreases cs.len(),
{
    if cs.len() == 0 {
        ";FFMETADATA1\n"@
    } else {
        sidecar_text(cs.drop_last()) + chapter_block(cs.last())
    }
}

/// The sidecar text for these chapters.
pub fn render_chapters(chapters: &Vec<Chapter>) -> (r: String)
    ensures
        r@ == sidecar_text(chapter_views(chapters@)),
{
    let ghost cv = chapter_views(chapters@);
    let mut out = chars_of(";FFMETADATA1\n");
    let mut i: usize = 0;
    while i < chapters.len()
        invariant
            cv == chapter_views(chapters@),
            i <= chapters.len(),
            out@ == sidecar_text(cv.take(i as int)),
        decreases chapters.len() - i,
    {
        assert(cv.take(i + 1).drop_last() =~= cv.take(i as int));
        let ghost before = out@;
        let c = &chapters[i];
        push_str(&mut out, "[CHAPTER]\nTIMEBASE=1/1000\nSTART=");
        push_decimal(&mut out, c.start_ms as u128);
        push_str(&mut out, "\nEND=");
        push_decimal(&mut out, c.end_ms as u128);
        push_str(&mut out, "\ntitle=");
        push_str(&mut out, c.title.as_str());
        push_str(&mut out, "\n");
        i = i + 1;
        assert(out@ =~= before + chapter_block(cv[i - 1]));
    }
    assert(cv.take(i as int) =~= cv);
    string_of(&out)
}

/// The chapter sidecar for a video `video_len` milliseconds long with these
/// events: they are sorted by start (stably), then chapters are built and
/// written out.
pub fn write_ffmpeg_chapters(video_len: u64, events: Vec<(String, SkipEvent)>) -> (r: String)
    ensures
        exists|sorted: Seq<(String, SkipEvent)>| {
            &&& sorted.len() == events.len()
            &&& sorted_by_start(event_views(sorted))
            &&& exists|order: Seq<usize>| crate::order::is_permutation(order, events.len() as nat)
                && crate::order::stably_sorted(events@.map_values(|e: (String, SkipEvent)| e.1.start_ms as u128), order)
                && forall|k: int| 0 <= k < sorted.len() ==> #[trigger] sorted[k] == events@[order[k] as int]
            &&& r@ == sidecar_text(chapters_for(event_views(sorted), video_len))
        },
{
    let sorted = sort_events(events);
    let chapters = build_chapters(video_len, &sorted);
    render_chapters(&chapters)
}

} // verus!
