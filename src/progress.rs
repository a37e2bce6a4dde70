//! Reading the multiplexer's output: the frame counter of its statistics
//! lines, and a video's duration and frame rate from its stream report.

use vstd::prelude::*;
use crate::text::{chars_of, clock_parsed, digit_run_end, parse_clock, parse_digits, run_end, string_of, value_of};

verus! {

/// Whitespace between the tokens of the multiplexer's output.
pub open spec fn is_space(c: char) -> bool {
    c == ' ' || c == '\t' || c == '\n' || c == '\r' || c == '\x0b' || c == '\x0c'
}

fn space(c: char) -> (r: bool)
    ensures
        r == is_space(c),
{
    c == ' ' || c == '\t' || c == '\n' || c == '\r' || c == '\x0b' || c == '\x0c'
}

/// The end of the run of whitespace starting at `i`.
pub open spec fn space_end(s: Seq<char>, i: int) -> int
    decreases s.len() - i,
{
    if 0 <= i < s.len() && is_space(s[i]) { space_end(s, i + 1) } else { i }
}

fn space_run_end(s: &Vec<char>, i: usize) -> (r: usize)
    requires
        i <= s.len(),
    ensures
        r == space_end(s@, i as int),
        i <= r <= s.len(),
{
    let mut j: usize = i;
    while j < s.len() && space(s[j])
        invariant
            i <= j <= s.len(),
            space_end(s@, i as int) == space_end(s@, j as int),
        decreases s.len() - j,
    {
        j = j + 1;
    }
    j
}

/// `word` stands in `s` at `p`.
pub open spec fn word_at(s: Seq<char>, p: int, word: Seq<char>) -> bool {
    0 <= p && p + word.len() <= s.len() && s.subrange(p, p + word.len()) == word
}

fn has_word_at(s: &Vec<char>, p: usize, word: &Vec<char>) -> (r: bool)
    ensures
        r == word_at(s@, p as int, word@),
{
    if p > s.len() || word.len() > s.len() - p {
        return false;
    }
    let mut k: usize = 0;
    while k < word.len()
        invariant
            p + word.len() <= s.len(),
            k <= word.len(),
            forall|t: int| 0 <= t < k ==> s@[p + t] == word@[t],
        decreases word.len() - k,
    {
        if s[p + k] != word[k] {
            assert(s@.subrange(p as int, p + word.len())[k as int] != word@[k as int]);
            return false;
        }
        k = k + 1;
    }
    assert(s@.subrange(p as int, p + word.len()) =~= word@);
    true
}

/// A frame counter `frame=` followed by whitespace and digits starts at `p`;
/// the end of its digits.
pub open spec fn frame_digits_at(s: Seq<char>, p: int) -> Option<(int, int)> {
    let w = p + 6;
    let d = space_end(s, w);
    if word_at(s, p, "frame="@) && d > w && run_end(s, d) > d {
        Some((d, run_end(s, d)))
    } else {
        None
    }
}

/// The first frame counter at or after `from`: where its digits start and end.
pub open spec fn first_frame(s: Seq<char>, from: int) -> Option<(int, int)>
    decreases s.len() - from,
{
    if from < 0 || from >= s.len() {
        None
    } else if frame_digits_at(s, from) is Some {
        frame_digits_at(s, from)
    } else {
        first_frame(s, from + 1)
    }
}

/// What a statistics line says of the frame count.
#[derive(Debug, PartialEq, Eq, Structural)]
pub enum FrameLine {
    /// The line holds no frame counter.
    NoFrame,
    /// The number of frames processed so far.
    Frame(u64),
    /// The counter does not fit in 64 bits.
    TooLarge,
}

/// The frame counter of a statistics line, read from its first `frame=`
/// followed by whitespace and digits.
pub open spec fn frame_of(s: Seq<char>) -> FrameLine {
    match first_frame(s, 0) {
        None => FrameLine::NoFrame,
        Some((a, b)) => if value_of(s.subrange(a, b)) <= u64::MAX {
            FrameLine::Frame(value_of(s.subrange(a, b)) as u64)
        } else {
            FrameLine::TooLarge
        },
    }
}

/// Reads the frame counter of a statistics line.
pub fn parse_frame(line: &str) -> (r: FrameLine)
    ensures
        r == frame_of(line@),
{
    let s = chars_of(line);
    let word = chars_of("frame=");
    proof { reveal_strlit("frame="); }
    let mut p: usize = 0;
    while p < s.len()
        invariant
            s@ == line@,
            word@ == "frame="@,
            word@.len() == 6,
            p <= s.len(),
            first_frame(s@, 0) == first_frame(s@, p as int),
        decreases s.len() - p,
    {
        if has_word_at(&s, p, &word) {
            let w = p + 6;
            let d = space_run_end(&s, w);
            if d > w {
                let e = digit_run_end(&s, d);
                if e > d {
                    return match parse_digits(&s, d, e) {
                        Some(v) => FrameLine::Frame(v),
                        None => FrameLine::TooLarge,
                    };
                }
            }
        }
        p = p + 1;
    }
    FrameLine::NoFrame
}

/// Where the progress bar ends up once statistics stop: at the target
/// when the last frame seen fell short of it.
pub fn final_position(frame: u64, total: u64) -> (r: Option<u64>)
    ensures
        r == (if frame < total { Some(total) } else { None::<u64> }),
{
    if frame < total { Some(total) } else { None }
}

/// A duration report `Duration:`, one whitespace character, a clock time
/// and a comma, at `p`: the duration in milliseconds.
pub open spec fn duration_at(s: Seq<char>, p: int) -> Option<u64> {
    if word_at(s, p, "Duration:"@) && p + 9 < s.len() && is_space(s[p + 9]) {
        match clock_parsed(s, p + 10) {
            Some((v, e)) => if (e as int) < s.len() && s[e as int] == ',' { Some(v) } else { None },
            None => None,
        }
    } else {
        None
    }
}

/// The first duration report at or after `from`.
pub open spec fn first_duration(s: Seq<char>, from: int) -> Option<u64>
    decreases s.len() - from,
{
    if from < 0 || from >= s.len() {
        None
    } else if duration_at(s, from) is Some {
        duration_at(s, from)
    } else {
        first_duration(s, from + 1)
    }
}

/// The length of a video in milliseconds, from the first duration report
/// of the multiplexer's stream report.
pub fn parse_video_duration(report: &str) -> (r: Option<u64>)
    ensures
        r == first_duration(report@, 0),
{
    let s = chars_of(report);
    let word = chars_of("Duration:");
    proof { reveal_strlit("Duration:"); }
    let mut p: usize = 0;
    while p < s.len()
        invariant
            s@ == report@,
            word@ == "Duration:"@,
            word@.len() == 9,
            p <= s.len(),
            first_duration(s@, 0) == first_duration(s@, p as int),
        decreases s.len() - p,
    {
        if has_word_at(&s, p, &word) && p + 9 < s.len() && space(s[p + 9]) {
            match parse_clock(&s, p + 10) {
                Some((v, e)) => {
                    if e < s.len() && s[e] == ',' {
                        return Some(v);
                    }
                },
                None => {},
            }
        }
        p = p + 1;
    }
    None
}

/// Characters of a frame rate as the report writes it (`23.98`, `24000/1001`).
pub open spec fn is_rate_char(c: char) -> bool {
    ('0' <= c <= '9') || c == '/' || c == '.'
}

pub open spec fn rate_end(s: Seq<char>, i: int) -> int
    decreases s.len() - i,
{
    if 0 <= i < s.len() && is_rate_char(s[i]) { rate_end(s, i + 1) } else { i }
}

/// A frame rate followed by whitespace and `fps` starts at `p`: where it ends.
pub open spec fn rate_at(s: Seq<char>, p: int) -> Option<int> {
    let e = rate_end(s, p);
    if e > p && e < s.len() && is_space(s[e]) && word_at(s, e + 1, "fps"@) { Some(e) } else { None }
}

/// The first frame rate at or after `from`: where it starts and ends.
pub open spec fn first_rate(s: Seq<char>, from: int) -> Option<(int, int)>
    decreases s.len() - from,
{
    if from < 0 || from >= s.len() {
        None
    } else if rate_at(s, from) is Some {
        Some((from, rate_at(s, from)->0))
    } else {
        first_rate(s, from + 1)
    }
}

/// The frame rate of a video as written in the multiplexer's stream report
/// (the first run of digits, `/` and `.` followed by whitespace and `fps`).
pub fn parse_video_fps(report: &str) -> (r: Option<String>)
    ensures
        r matches Some(t) ==> first_rate(report@, 0) matches Some((a, b)) && t@ == report@.subrange(a, b),
        r is None ==> first_rate(report@, 0) is None,
{
    let s = chars_of(report);
    let word = chars_of("fps");
    proof { reveal_strlit("fps"); }
    let mut p: usize = 0;
    while p < s.len()
        invariant
            s@ == report@,
            word@ == "fps"@,
            word@.len() == 3,
            p <= s.len(),
            first_rate(s@, 0) == first_rate(s@, p as int),
        decreases s.len() - p,
    {
        let mut e: usize = p;
        while e < s.len() && (('0' <= s[e] && s[e] <= '9') || s[e] == '/' || s[e] == '.')
            invariant
                p <= e <= s.len(),
                rate_end(s@, p as int) == rate_end(s@, e as int),
            decreases s.len() - e,
        {
            e = e + 1;
        }
        if e > p && e < s.len() && space(s[e]) && has_word_at(&s, e + 1, &word) {
            let mut t: Vec<char> = Vec::new();
            let mut k: usize = p;
            while k < e
                invariant
                    p <= k <= e <= s.len(),
                    t@ == s@.subrange(p as int, k as int),
                decreases e - k,
            {
                t.push(s[k]);
                k = k + 1;
                assert(t@ =~= s@.subrange(p as int, k as int));
            }
            return Some(string_of(&t));
        }
        p = p + 1;
    }
    None
}

} // verus!
