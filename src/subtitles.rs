//! Normalising subtitle files: a rendering hint after the script header,
//! cue times clamped to the video's length, and dialogue in order of start.

use vstd::prelude::*;
use crate::order::{apply_order, is_permutation, stable_order, stably_sorted};
use crate::progress::is_space;
use crate::text::{
    all_digits, chars_of, clock_parsed, clock_text, decimal, digit_run_end, parse_clock, parse_digits, push_clock,
    push_decimal, push_str, run_end, string_of, value_of,
};

verus! {

/// The line that follows the script header.
pub open spec fn hint_line() -> Seq<char> {
    "\nScaledBorderAndShadow: yes"@
}

/// `s` without whitespace at either end.
pub open spec fn trimmed(s: Seq<char>) -> Seq<char>
    decreases s.len(),
{
    if s.len() > 0 && is_space(s[0]) {
        trimmed(s.drop_first())
    } else if s.len() > 0 && is_space(s.last()) {
        trimmed(s.drop_last())
    } else {
        s
    }
}

fn trim_chars(s: &Vec<char>) -> (r: Vec<char>)
    ensures
        r@ == trimmed(s@),
{
    let mut a: usize = 0;
    let mut b: usize = s.len();
    assert(s@.subrange(0, s.len() as int) =~= s@);
    while a < b && (s[a] == ' ' || s[a] == '\t' || s[a] == '\n' || s[a] == '\r' || s[a] == '\x0b' || s[a] == '\x0c')
        invariant
            a <= b == s.len(),
            trimmed(s@) == trimmed(s@.subrange(a as int, b as int)),
        decreases b - a,
    {
        assert(s@.subrange(a as int, b as int).drop_first() =~= s@.subrange(a + 1, b as int));
        a = a + 1;
    }
    while a < b && (s[b - 1] == ' ' || s[b - 1] == '\t' || s[b - 1] == '\n' || s[b - 1] == '\r' || s[b - 1] == '\x0b' || s[b - 1] == '\x0c')
        invariant
            a <= b <= s.len(),
            a < b ==> !is_space(s@[a as int]),
            trimmed(s@) == trimmed(s@.subrange(a as int, b as int)),
        decreases b - a,
    {
        assert(s@.subrange(a as int, b as int).drop_last() =~= s@.subrange(a as int, b - 1));
        b = b - 1;
    }
    let mut r: Vec<char> = Vec::new();
    let mut k: usize = a;
    while k < b
        invariant
            a <= k <= b <= s.len(),
            r@ == s@.subrange(a as int, k as int),
        decreases b - k,
    {
        r.push(s[k]);
        k = k + 1;
        assert(r@ =~= s@.subrange(a as int, k as int));
    }
    r
}

/// A dialogue line's leading fields: `Dialogue:`, one whitespace character,
/// the layer, and the start and end times, each followed by a comma. Gives
/// the layer, the times in milliseconds and where the fields end.
pub open spec fn dialogue_fields(line: Seq<char>) -> Option<(u64, u64, u64, int)> {
    let l = run_end(line, 10);
    if !(line.len() >= 10 && line.subrange(0, 9) == "Dialogue:"@ && is_space(line[9])) {
        None
    } else if l == 10 || l >= line.len() || line[l] != ',' || value_of(line.subrange(10, l)) > u64::MAX {
        None
    } else {
        match clock_parsed(line, l + 1) {
            Some((start, e1)) => if (e1 as int) < line.len() && line[e1 as int] == ',' {
                match clock_parsed(line, e1 + 1) {
                    Some((end, e2)) => if (e2 as int) < line.len() && line[e2 as int] == ',' {
                        Some((value_of(line.subrange(10, l)) as u64, start, end, e2 + 1))
                    } else {
                        None
                    },
                    None => None,
                }
            } else {
                None
            },
            None => None,
        }
    }
}

fn read_dialogue_fields(line: &Vec<char>) -> (r: Option<(u64, u64, u64, usize)>)
    ensures
        r matches Some((a, b, c, d)) ==> dialogue_fields(line@) == Some((a, b, c, d as int)),
        r is None ==> dialogue_fields(line@) is None,
{
    proof { reveal_strlit("Dialogue:"); }
    if line.len() < 10 {
        return None;
    }
    let word = chars_of("Dialogue:");
    let mut k: usize = 0;
    while k < 9
        invariant
            line.len() >= 10,
            word@ == "Dialogue:"@,
            word@.len() == 9,
            k <= 9,
            forall|t: int| 0 <= t < k ==> line@[t] == word@[t],
        decreases 9 - k,
    {
        if line[k] != word[k] {
            assert(line@.subrange(0, 9)[k as int] != "Dialogue:"@[k as int]);
            return None;
        }
        k = k + 1;
    }
    assert(line@.subrange(0, 9) =~= "Dialogue:"@);
    let c = line[9];
    if !(c == ' ' || c == '\t' || c == '\n' || c == '\r' || c == '\x0b' || c == '\x0c') {
        return None;
    }
    let l = digit_run_end(line, 10);
    if l == 10 || l >= line.len() || line[l] != ',' {
        return None;
    }
    let layer = match parse_digits(line, 10, l) {
        Some(v) => v,
        None => { return None; },
    };
    let (start, e1) = match parse_clock(line, l + 1) {
        Some(p) => p,
        None => { return None; },
    };
    if e1 >= line.len() || line[e1] != ',' {
        return None;
    }
    let (end, e2) = match parse_clock(line, e1 + 1) {
        Some(p) => p,
        None => { return None; },
    };
    if e2 >= line.len() || line[e2] != ',' {
        return None;
    }
    Some((layer, start, end, e2 + 1))
}

pub open spec fn min_u64(a: u64, b: u64) -> u64 {
    if a <= b { a } else { b }
}

/// A line after normalising: the script header gets the hint after it; a
/// dialogue line whose times run past `max_ms` gets them clamped to it, its
/// leading fields rewritten; any other line stays.
#[verifier::opaque]
pub open spec fn fixed_line(line: Seq<char>, max_ms: u64) -> Seq<char> {
    if trimmed(line) == "[Script Info]"@ {
        line + hint_line()
    } else {
        match dialogue_fields(line) {
            Some((layer, start, end, rest)) => if start > max_ms || end > max_ms {
                "Dialogue: "@ + decimal(layer as nat) + seq![','] + clock_text(min_u64(start, max_ms) as int) + seq![',']
                    + clock_text(min_u64(end, max_ms) as int) + seq![','] + line.subrange(rest, line.len() as int)
            } else {
                line
            },
            None => line,
        }
    }
}

/// The sort key of a line: the (clamped) start of a dialogue line, nothing
/// for any other line.
#[verifier::opaque]
pub open spec fn line_start(line: Seq<char>, max_ms: u64) -> Option<u64> {
    if trimmed(line) == "[Script Info]"@ {
        None
    } else {
        match dialogue_fields(line) {
            Some((layer, start, end, rest)) => Some(min_u64(start, max_ms)),
            None => None,
        }
    }
}

/// Normalises one line: its new text and, for a dialogue line, its sort key.
pub fn fix_line(line: &Vec<char>, max_ms: u64) -> (r: (Vec<char>, Option<u64>))
    requires
        max_ms <= i64::MAX,
    ensures
        r.0@ == fixed_line(line@, max_ms),
        r.1 == line_start(line@, max_ms),
{
    reveal(fixed_line);
    reveal(line_start);
    let t = trim_chars(line);
    let header = chars_of("[Script Info]");
    let mut same = t.len() == header.len();
    let mut k: usize = 0;
    while same && k < t.len()
        invariant
            same ==> t.len() == header.len(),
            k <= t.len(),
            same ==> forall|j: int| 0 <= j < k ==> t@[j] == header@[j],
            !same ==> t@ != header@,
        decreases t.len() - k,
    {
        if t[k] != header[k] {
            same = false;
        }
        k = k + 1;
    }
    if same {
        assert(t@ =~= header@);
        let mut out: Vec<char> = Vec::new();
        let mut src = line.clone();
        assert(src@ == line@);
        out.append(&mut src);
        push_str(&mut out, "\nScaledBorderAndShadow: yes");
        return (out, None);
    }
    match read_dialogue_fields(line) {
        Some((layer, start, end, rest)) => {
            let s = if start <= max_ms { start } else { max_ms };
            if start > max_ms || end > max_ms {
                let e = if end <= max_ms { end } else { max_ms };
                let mut out = chars_of("Dialogue: ");
                push_decimal(&mut out, layer as u128);
                out.push(',');
                push_clock(&mut out, s as i64);
                out.push(',');
                push_clock(&mut out, e as i64);
                out.push(',');
                let ghost head = out@;
                let mut k: usize = rest;
                while k < line.len()
                    invariant
                        rest <= k <= line.len(),
                        out@ == head + line@.subrange(rest as int, k as int),
                    decreases line.len() - k,
                {
                    out.push(line[k]);
                    k = k + 1;
                    assert(out@ =~= head + line@.subrange(rest as int, k as int));
                }
                assert(out@ =~= fixed_line(line@, max_ms));
                (out, Some(s))
            } else {
                (line.clone(), Some(s))
            }
        },
        None => (line.clone(), None),
    }
}

/// The lines of `s`, split at each line feed (one line for no text).
pub open spec fn split_lines(s: Seq<char>) -> Seq<Seq<char>>
    decreases s.len(),
{
    if s.len() == 0 {
        seq![Seq::empty()]
    } else {
        let p = split_lines(s.drop_last());
        if s.last() == '\n' {
            p.push(Seq::empty())
        } else {
            p.update(p.len() - 1, p.last().push(s.last()))
        }
    }
}

proof fn lemma_split_nonempty(s: Seq<char>)
    ensures
        split_lines(s).len() >= 1,
    decreases s.len(),
{
    if s.len() > 0 {
        lemma_split_nonempty(s.drop_last());
    }
}

/// The lines joined by line feeds.
pub open spec fn join_lines(ls: Seq<Seq<char>>) -> Seq<char>
    decreases ls.len(),
{
    if ls.len() == 0 {
        Seq::empty()
    } else if ls.len() == 1 {
        ls[0]
    } else {
        join_lines(ls.drop_last()) + seq!['\n'] + ls.last()
    }
}

pub open spec fn line_views(ls: Seq<Vec<char>>) -> Seq<Seq<char>> {
    ls.map_values(|l: Vec<char>| l@)
}

fn split_text(s: &Vec<char>) -> (r: Vec<Vec<char>>)
    ensures
        line_views(r@) == split_lines(s@),
{
    let mut lines: Vec<Vec<char>> = Vec::new();
    let mut cur: Vec<char> = Vec::new();
    let mut i: usize = 0;
    assert(s@.take(0) =~= Seq::<char>::empty());
    assert(line_views(lines@).push(cur@) =~= split_lines(s@.take(0)));
    while i < s.len()
        invariant
            i <= s.len(),
            line_views(lines@).push(cur@) == split_lines(s@.take(i as int)),
        decreases s.len() - i,
    {
        assert(s@.take(i + 1).drop_last() =~= s@.take(i as int));
        proof { lemma_split_nonempty(s@.take(i as int)); }
        if s[i] == '\n' {
            let mut done: Vec<char> = Vec::new();
            std::mem::swap(&mut done, &mut cur);
            lines.push(done);
            assert(line_views(lines@).push(cur@) =~= split_lines(s@.take(i + 1)));
        } else {
            cur.push(s[i]);
            assert(line_views(lines@).push(cur@) =~= split_lines(s@.take(i + 1)));
        }
        i = i + 1;
    }
    lines.push(cur);
    assert(s@.take(i as int) =~= s@);
    assert(line_views(lines@) =~= split_lines(s@));
    lines
}

fn join_text(ls: &Vec<Vec<char>>) -> (r: Vec<char>)
    ensures
        r@ == join_lines(line_views(ls@)),
{
    let ghost v = line_views(ls@);
    let mut out: Vec<char> = Vec::new();
    let mut i: usize = 0;
    while i < ls.len()
        invariant
            v == line_views(ls@),
            i <= ls.len(),
            out@ == join_lines(v.take(i as int)),
        decreases ls.len() - i,
    {
        assert(v.take(i + 1).drop_last() =~= v.take(i as int));
        if i > 0 {
            out.push('\n');
        }
        let ghost before = out@;
        let mut k: usize = 0;
        while k < ls[i].len()
            invariant
                i < ls.len(),
                k <= ls@[i as int].len(),
                out@ == before + ls@[i as int]@.take(k as int),
            decreases ls@[i as int].len() - k,
        {
            out.push(ls[i][k]);
            k = k + 1;
            assert(out@ =~= before + ls@[i as int]@.take(k as int));
        }
        assert(ls@[i as int]@.take(k as int) =~= v[i as int]);
        i = i + 1;
        if i == 1 {
            assert(out@ =~= join_lines(v.take(i as int)));
        } else {
            assert(out@ =~= join_lines(v.take(i as int)));
        }
    }
    assert(v.take(i as int) =~= v);
    out
}

/// The positions of the dialogue lines among the first `n` lines.
pub open spec fn dialogue_positions(ls: Seq<Seq<char>>, max_ms: u64, n: nat) -> Seq<int>
    decreases n,
{
    if n == 0 {
        Seq::empty()
    } else if line_start(ls[n - 1], max_ms) is Some {
        dialogue_positions(ls, max_ms, (n - 1) as nat).push(n - 1)
    } else {
        dialogue_positions(ls, max_ms, (n - 1) as nat)
    }
}

/// The lines with the dialogue lines' texts placed by `order`: the `k`-th
/// dialogue position, for `k` below `count`, gets the text of the
/// `order[k]`-th dialogue line.
pub open spec fn place(fixed: Seq<Seq<char>>, pos: Seq<int>, order: Seq<usize>, count: nat) -> Seq<Seq<char>>
    decreases count,
{
    if count == 0 {
        fixed
    } else {
        place(fixed, pos, order, (count - 1) as nat).update(pos[count - 1], fixed[pos[order[count - 1] as int]])
    }
}

proof fn lemma_place_len(fixed: Seq<Seq<char>>, pos: Seq<int>, order: Seq<usize>, count: nat)
    requires
        count <= pos.len(),
        forall|j: int| 0 <= j < pos.len() ==> 0 <= #[trigger] pos[j] < fixed.len(),
    ensures
        place(fixed, pos, order, count).len() == fixed.len(),
    decreases count,
{
    if count > 0 {
        lemma_place_len(fixed, pos, order, (count - 1) as nat);
    }
}

proof fn lemma_positions_in_range(ls: Seq<Seq<char>>, max_ms: u64, n: nat)
    requires
        n <= ls.len(),
    ensures
        forall|k: int| 0 <= k < dialogue_positions(ls, max_ms, n).len() ==>
            0 <= #[trigger] dialogue_positions(ls, max_ms, n)[k] < n
            && line_start(ls[dialogue_positions(ls, max_ms, n)[k]], max_ms) is Some,
    decreases n,
{
    if n > 0 {
        lemma_positions_in_range(ls, max_ms, (n - 1) as nat);
    }
}

/// The subtitle file normalised for a video `max_length_ms` long: the hint
/// follows the script header, cue times past the end are clamped to it,
/// and the dialogue lines are sorted stably by their (clamped) start,
/// taking the places dialogue lines held; other lines stay where they are.
pub fn fix_subtitles(text: &str, max_length_ms: u64) -> (r: String)
    requires
        max_length_ms <= i64::MAX,
    ensures
        ({
            let ls = split_lines(text@);
            let fixed = ls.map_values(|l: Seq<char>| fixed_line(l, max_length_ms));
            let pos = dialogue_positions(ls, max_length_ms, ls.len());
            let keys = pos.map_values(|p: int| line_start(ls[p], max_length_ms)->0 as u128);
            exists|order: Seq<usize>| #[trigger] is_permutation(order, pos.len()) && stably_sorted(keys, order)
                && r@ == join_lines(place(fixed, pos, order, pos.len()))
        }),
{
    let chars = chars_of(text);
    let lines = split_text(&chars);
    let ghost ls = split_lines(text@);
    let ghost fixed_s = ls.map_values(|l: Seq<char>| fixed_line(l, max_length_ms));
    let mut fixed: Vec<Vec<char>> = Vec::new();
    let mut pos: Vec<usize> = Vec::new();
    let mut keys: Vec<u128> = Vec::new();
    let mut i: usize = 0;
    while i < lines.len()
        invariant
            ls == line_views(lines@),
            fixed_s == ls.map_values(|l: Seq<char>| fixed_line(l, max_length_ms)),
            max_length_ms <= i64::MAX,
            i <= lines.len(),
            line_views(fixed@) == fixed_s.take(i as int),
            pos@.map_values(|p: usize| p as int) == dialogue_positions(ls, max_length_ms, i as nat),
            keys.len() == pos.len(),
            forall|k: int| 0 <= k < pos.len() ==> #[trigger] keys@[k] == line_start(ls[pos@[k] as int], max_length_ms)->0 as u128,
        decreases lines.len() - i,
    {
        let (f, start) = fix_line(&lines[i], max_length_ms);
        assert(fixed_s[i as int] == fixed_line(ls[i as int], max_length_ms));
        assert(ls[i as int] == lines@[i as int]@);
        let ghost fv = f@;
        let ghost before = line_views(fixed@);
        assert(fv == fixed_s[i as int]);
        fixed.push(f);
        assert(line_views(fixed@) =~= before.push(fv));
        assert(fixed_s.take(i + 1) =~= fixed_s.take(i as int).push(fv));
        match start {
            Some(st) => {
                pos.push(i);
                keys.push(st as u128);
            },
            None => {},
        }
        i = i + 1;
        assert(line_views(fixed@) =~= fixed_s.take(i as int));
        assert(pos@.map_values(|p: usize| p as int) =~= dialogue_positions(ls, max_length_ms, i as nat));
    }
    assert(line_views(fixed@) =~= fixed_s);
    let ghost pos_s = dialogue_positions(ls, max_length_ms, ls.len());
    proof { lemma_positions_in_range(ls, max_length_ms, ls.len()); }
    let order = stable_order(&keys);
    let mut picked: Vec<Vec<char>> = Vec::new();
    let mut k: usize = 0;
    while k < pos.len()
        invariant
            pos@.map_values(|p: usize| p as int) == pos_s,
            forall|j: int| 0 <= j < pos_s.len() ==> 0 <= #[trigger] pos_s[j] < ls.len(),
            line_views(fixed@) == fixed_s,
            fixed_s.len() == ls.len(),
            k <= pos.len(),
            picked.len() == k,
            forall|j: int| 0 <= j < k ==> #[trigger] picked@[j]@ == fixed_s[pos_s[j]],
        decreases pos.len() - k,
    {
        assert(pos_s[k as int] == pos@[k as int] as int);
        let line = fixed[pos[k]].clone();
        picked.push(line);
        k = k + 1;
    }
    let sorted = apply_order(picked, &order);
    let mut out = fixed;
    let mut k: usize = 0;
    while k < pos.len()
        invariant
            pos@.map_values(|p: usize| p as int) == pos_s,
            forall|j: int| 0 <= j < pos_s.len() ==> 0 <= #[trigger] pos_s[j] < ls.len(),
            fixed_s.len() == ls.len(),
            is_permutation(order@, pos.len() as nat),
            sorted.len() == pos.len(),
            forall|j: int| 0 <= j < sorted.len() ==> #[trigger] sorted@[j]@ == fixed_s[pos_s[order@[j] as int]],
            k <= pos.len(),
            line_views(out@) == place(fixed_s, pos_s, order@, k as nat),
        decreases pos.len() - k,
    {
        proof { lemma_place_len(fixed_s, pos_s, order@, k as nat); }
        assert(pos_s[k as int] == pos@[k as int] as int);
        let line = sorted[k].clone();
        out.set(pos[k], line);
        k = k + 1;
        assert(line_views(out@) =~= place(fixed_s, pos_s, order@, k as nat));
    }
    let joined = join_text(&out);
    let ghost keys_s = pos_s.map_values(|p: int| line_start(ls[p], max_length_ms)->0 as u128);
    assert(keys@ =~= keys_s);
    assert(is_permutation(order@, pos_s.len()));
    string_of(&joined)
}

/// The first comma at or after `i`.
pub open spec fn comma_from(s: Seq<char>, i: int) -> int
    decreases s.len() - i,
{
    if i < 0 || i >= s.len() {
        s.len() as int
    } else if s[i] == ',' {
        i
    } else {
        comma_from(s, i + 1)
    }
}

fn find_comma(s: &Vec<char>, i: usize) -> (r: usize)
    requires
        i <= s.len(),
    ensures
        r == comma_from(s@, i as int),
        i <= r <= s.len(),
{
    let mut j = i;
    while j < s.len() && s[j] != ','
        invariant
            i <= j <= s.len(),
            comma_from(s@, i as int) == comma_from(s@, j as int),
        decreases s.len() - j,
    {
        j = j + 1;
    }
    j
}

/// `word` stands at the start of `s`, followed by one whitespace character.
pub open spec fn starts_with_field(s: Seq<char>, word: Seq<char>) -> bool {
    s.len() > word.len() && s.subrange(0, word.len() as int) == word && is_space(s[word.len() as int])
}

fn has_prefix(s: &Vec<char>, word: &str) -> (r: bool)
    ensures
        r == starts_with_field(s@, word@),
{
    let w = chars_of(word);
    if s.len() <= w.len() {
        return false;
    }
    let mut k: usize = 0;
    while k < w.len()
        invariant
            s.len() > w.len(),
            w@ == word@,
            k <= w.len(),
            forall|t: int| 0 <= t < k ==> s@[t] == w@[t],
        decreases w.len() - k,
    {
        if s[k] != w[k] {
            assert(s@.subrange(0, w.len() as int)[k as int] != w@[k as int]);
            assert(s@.subrange(0, word@.len() as int) != word@);
            return false;
        }
        k = k + 1;
    }
    assert(s@.subrange(0, w.len() as int) =~= w@);
    let c = s[w.len()];
    c == ' ' || c == '\t' || c == '\n' || c == '\r' || c == '\x0b' || c == '\x0c'
}

/// The font of a style line: its second field (`Style: name,font,...`).
pub open spec fn style_font(line: Seq<char>) -> Option<Seq<char>> {
    let a = comma_from(line, 8);
    let b = comma_from(line, a + 2);
    if starts_with_field(line, "Style:"@) && a < line.len() && b < line.len() {
        Some(line.subrange(a + 1, b))
    } else {
        None
    }
}

/// Characters of a font name in an override.
pub open spec fn is_name_char(c: char) -> bool {
    ('a' <= c <= 'z') || ('A' <= c <= 'Z') || ('0' <= c <= '9') || c == '_' || is_space(c)
}

pub open spec fn name_end(s: Seq<char>, i: int) -> int
    decreases s.len() - i,
{
    if 0 <= i < s.len() && is_name_char(s[i]) { name_end(s, i + 1) } else { i }
}

/// A font override `\fn<name>` at `p`, its name ended by `\` or `}`.
pub open spec fn override_at(s: Seq<char>, p: int) -> Option<Seq<char>> {
    let e = name_end(s, p + 3);
    if 0 <= p && p + 3 <= s.len() && s[p] == '\\' && s[p + 1] == 'f' && s[p + 2] == 'n' && e > p + 3 && e < s.len()
        && (s[e] == '\\' || s[e] == '}') {
        Some(s.subrange(p + 3, e))
    } else {
        None
    }
}

/// The font overrides of a dialogue line at or after `from`, in order.
pub open spec fn overrides_from(s: Seq<char>, from: int) -> Seq<Seq<char>>
    decreases s.len() - from,
{
    if from < 0 || from >= s.len() {
        Seq::empty()
    } else {
        (match override_at(s, from) {
            Some(n) => seq![n],
            None => Seq::empty(),
        }) + overrides_from(s, from + 1)
    }
}

/// The fonts a line names: a style's font, or a dialogue line's overrides.
pub open spec fn line_fonts(line: Seq<char>) -> Seq<Seq<char>> {
    match style_font(line) {
        Some(f) => seq![f],
        None => if starts_with_field(line, "Dialogue:"@) { overrides_from(line, 0) } else { Seq::empty() },
    }
}

/// `names` with repeats dropped, first occurrences kept in order, appended to `seen`.
pub open spec fn dedup_into(seen: Seq<Seq<char>>, names: Seq<Seq<char>>) -> Seq<Seq<char>>
    decreases names.len(),
{
    if names.len() == 0 {
        seen
    } else if seen.contains(names[0]) {
        dedup_into(seen, names.drop_first())
    } else {
        dedup_into(seen.push(names[0]), names.drop_first())
    }
}

/// The fonts named in the lines, in order.
pub open spec fn fonts_of_lines(ls: Seq<Seq<char>>) -> Seq<Seq<char>>
    decreases ls.len(),
{
    if ls.len() == 0 { Seq::empty() } else { fonts_of_lines(ls.drop_last()) + line_fonts(ls.last()) }
}

fn copy_range(s: &Vec<char>, a: usize, b: usize) -> (r: Vec<char>)
    requires
        a <= b <= s.len(),
    ensures
        r@ == s@.subrange(a as int, b as int),
{
    let mut r: Vec<char> = Vec::new();
    let mut k = a;
    while k < b
        invariant
            a <= k <= b <= s.len(),
            r@ == s@.subrange(a as int, k as int),
        decreases b - k,
    {
        r.push(s[k]);
        k = k + 1;
        assert(r@ =~= s@.subrange(a as int, k as int));
    }
    r
}

fn line_font_names(line: &Vec<char>) -> (r: Vec<Vec<char>>)
    ensures
        line_views(r@) == line_fonts(line@),
{
    let mut r: Vec<Vec<char>> = Vec::new();
    proof { reveal_strlit("Style:"); }
    if has_prefix(line, "Style:") {
        let a = if line.len() >= 8 { find_comma(line, 8) } else { line.len() };
        if a < line.len() {
            let b = if line.len() - a >= 2 { find_comma(line, a + 2) } else { line.len() };
            if b < line.len() {
                r.push(copy_range(line, a + 1, b));
                assert(line_views(r@) =~= line_fonts(line@));
                return r;
            }
        }
    }
    assert(style_font(line@) is None);
    if !has_prefix(line, "Dialogue:") {
        assert(line_views(r@) =~= line_fonts(line@));
        return r;
    }
    let n = line.len();
    let mut p: usize = n;
    assert(overrides_from(line@, n as int) =~= Seq::<Seq<char>>::empty());
    // scan backwards so each found name goes in front of the later ones
    let mut rev: Vec<Vec<char>> = Vec::new();
    while p > 0
        invariant
            n == line.len(),
            p <= n,
            line_views(rev@).reverse() == overrides_from(line@, p as int),
        decreases p,
    {
        p = p - 1;
        let ghost later = overrides_from(line@, p + 1);
        if n - p >= 3 && line[p] == '\\' && line[p + 1] == 'f' && line[p + 2] == 'n' {
            let mut e = p + 3;
            while e < n && (('a' <= line[e] && line[e] <= 'z') || ('A' <= line[e] && line[e] <= 'Z')
                || ('0' <= line[e] && line[e] <= '9') || line[e] == '_' || line[e] == ' ' || line[e] == '\t'
                || line[e] == '\n' || line[e] == '\r' || line[e] == '\x0b' || line[e] == '\x0c')
                invariant
                    n == line.len(),
                    p + 3 <= e <= n,
                    name_end(line@, p + 3) == name_end(line@, e as int),
                decreases n - e,
            {
                e = e + 1;
            }
            if e > p + 3 && e < n && (line[e] == '\\' || line[e] == '}') {
                let name = copy_range(line, p + 3, e);
                let ghost nv = name@;
                rev.push(name);
                assert(line_views(rev@).reverse() =~= seq![nv] + later);
            } else {
                assert(overrides_from(line@, p as int) =~= later);
            }
        } else {
            assert(overrides_from(line@, p as int) =~= later);
        }
    }
    let mut k: usize = rev.len();
    let ghost rv = line_views(rev@);
    while k > 0
        invariant
            k <= rev.len(),
            rv == line_views(rev@),
            line_views(r@) == rv.reverse().take((rev.len() - k) as int),
        decreases k,
    {
        k = k - 1;
        let name = rev[k].clone();
        let ghost m = (rev.len() - 1 - k) as int;
        assert(name@ == rv[k as int]);
        assert(rv.reverse()[m] == rv[k as int]);
        assert(rv.reverse().take(m + 1) =~= rv.reverse().take(m).push(rv.reverse()[m]));
        let ghost before = line_views(r@);
        r.push(name);
        assert(line_views(r@) =~= before.push(name@));
        assert(line_views(r@) =~= rv.reverse().take((rev.len() - k) as int));
    }
    assert(rv.reverse().take(rv.len() as int) =~= rv.reverse());
    r
}

proof fn lemma_dedup_append(seen: Seq<Seq<char>>, a: Seq<Seq<char>>, b: Seq<Seq<char>>)
    ensures
        dedup_into(seen, a + b) == dedup_into(dedup_into(seen, a), b),
    decreases a.len(),
{
    if a.len() > 0 {
        assert((a + b).drop_first() =~= a.drop_first() + b);
        assert((a + b)[0] == a[0]);
        if seen.contains(a[0]) {
            lemma_dedup_append(seen, a.drop_first(), b);
        } else {
            lemma_dedup_append(seen.push(a[0]), a.drop_first(), b);
        }
    } else {
        assert(a + b =~= b);
    }
}

fn same_chars(a: &Vec<char>, b: &Vec<char>) -> (r: bool)
    ensures
        r == (a@ == b@),
{
    if a.len() != b.len() {
        return false;
    }
    let mut k: usize = 0;
    while k < a.len()
        invariant
            a.len() == b.len(),
            k <= a.len(),
            forall|t: int| 0 <= t < k ==> a@[t] == b@[t],
        decreases a.len() - k,
    {
        if a[k] != b[k] {
            return false;
        }
        k = k + 1;
    }
    assert(a@ =~= b@);
    true
}

fn contains_name(names: &Vec<Vec<char>>, n: &Vec<char>) -> (r: bool)
    ensures
        r == line_views(names@).contains(n@),
{
    let mut k: usize = 0;
    while k < names.len()
        invariant
            k <= names.len(),
            forall|t: int| 0 <= t < k ==> names@[t]@ != n@,
        decreases names.len() - k,
    {
        if same_chars(&names[k], n) {
            assert(line_views(names@)[k as int] == n@);
            return true;
        }
        k = k + 1;
    }
    proof {
        if line_views(names@).contains(n@) {
            let t = choose|t: int| 0 <= t < line_views(names@).len() && line_views(names@)[t] == n@;
            assert(names@[t]@ == n@);
        }
    }
    false
}

/// The fonts a subtitle file names, each once, in order of first mention:
/// the font of each style, and each `\fn` override of a dialogue line.
pub fn get_subtitle_stats(text: &str) -> (r: Vec<String>)
    ensures
        r@.map_values(|s: String| s@) == dedup_into(Seq::empty(), fonts_of_lines(split_lines(text@))),
{
    let chars = chars_of(text);
    let lines = split_text(&chars);
    let ghost ls = split_lines(text@);
    let mut found: Vec<Vec<char>> = Vec::new();
    let mut i: usize = 0;
    assert(ls.take(0) =~= Seq::<Seq<char>>::empty());
    while i < lines.len()
        invariant
            ls == line_views(lines@),
            i <= lines.len(),
            line_views(found@) == dedup_into(Seq::empty(), fonts_of_lines(ls.take(i as int))),
        decreases lines.len() - i,
    {
        assert(ls.take(i + 1).drop_last() =~= ls.take(i as int));
        let names = line_font_names(&lines[i]);
        let ghost nv = line_views(names@);
        let ghost start = line_views(found@);
        let mut j: usize = 0;
        assert(nv.take(0) =~= Seq::<Seq<char>>::empty());
        while j < names.len()
            invariant
                nv == line_views(names@),
                j <= names.len(),
                line_views(found@) == dedup_into(start, nv.take(j as int)),
            decreases names.len() - j,
        {
            proof {
                lemma_dedup_append(start, nv.take(j as int), seq![nv[j as int]]);
                assert(nv.take(j + 1) =~= nv.take(j as int) + seq![nv[j as int]]);
                assert(seq![nv[j as int]].drop_first() =~= Seq::<Seq<char>>::empty());
                let cur = dedup_into(start, nv.take(j as int));
                let x = nv[j as int];
                assert(dedup_into(cur, seq![x]) == if cur.contains(x) { cur } else { cur.push(x) }) by {
                    reveal_with_fuel(dedup_into, 2);
                    assert(seq![x].drop_first() =~= Seq::<Seq<char>>::empty());
                }
            }
            if !contains_name(&found, &names[j]) {
                let ghost before = line_views(found@);
                found.push(names[j].clone());
                assert(line_views(found@) =~= before.push(nv[j as int]));
            }
            j = j + 1;
        }
        proof {
            assert(nv.take(j as int) =~= nv);
            lemma_dedup_append(Seq::empty(), fonts_of_lines(ls.take(i as int)), nv);
        }
        i = i + 1;
    }
    assert(ls.take(i as int) =~= ls);
    let mut r: Vec<String> = Vec::new();
    let mut k: usize = 0;
    while k < found.len()
        invariant
            k <= found.len(),
            r@.map_values(|s: String| s@) == line_views(found@).take(k as int),
        decreases found.len() - k,
    {
        let ghost before = r@.map_values(|s: String| s@);
        let t = string_of(&found[k]);
        r.push(t);
        assert(r@.map_values(|s: String| s@) =~= before.push(found@[k as int]@));
        k = k + 1;
        assert(r@.map_values(|s: String| s@) =~= line_views(found@).take(k as int));
    }
    assert(line_views(found@).take(k as int) =~= line_views(found@));
    r
}

} // verus!
