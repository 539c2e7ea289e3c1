//! What holds of every chunk.
use vstd::prelude::*;

use crate::chunk::{
    above, chunks_of, close_section, read_events, sections_of, window_end, window_step, windows,
    windows_from, Heading, Reading, SectionText,
};
use crate::outside::EventText;
use crate::parse_laws::trimmed_is_bare_at_both_ends;
use crate::text::{is_space, join, run_end, run_end_bounds, run_end_stops, words, words_from, Class};

verus! {

/// Chunks are numbered through from zero.
pub proof fn chunks_are_numbered_through(
    sections: Seq<SectionText>,
    max_tokens: nat,
    overlap: nat,
)
    ensures
        forall|i: int|
            0 <= i < chunks_of(sections, max_tokens, overlap).len() ==> (#[trigger] chunks_of(
                sections,
                max_tokens,
                overlap,
            )[i]).ord == i,
    decreases sections.len(),
{
    if sections.len() > 0 {
        chunks_are_numbered_through(sections.drop_last(), max_tokens, overlap);
        let before = chunks_of(sections.drop_last(), max_tokens, overlap);
        let all = chunks_of(sections, max_tokens, overlap);
        assert forall|i: int| 0 <= i < all.len() implies (#[trigger] all[i]).ord == i by {
            if i < before.len() {
                assert(all[i] == before[i]);
            }
        }
    }
}

/// Whether `window` is the words of `all` from `a` up to `b`.
pub open spec fn spans(window: Seq<char>, all: Seq<Seq<char>>, a: int, b: int) -> bool {
    0 <= a <= b <= all.len() && window == join(all.subrange(a, b), " "@)
}

/// Whether `window` is at most `max_tokens` of the words of `all`, in a row.
pub open spec fn is_window(window: Seq<char>, all: Seq<Seq<char>>, max_tokens: nat) -> bool {
    exists|a: int, b: int| #[trigger] spans(window, all, a, b) && b - a <= max_tokens
}

/// Whether one of some windows spans the word at index `k`.
pub open spec fn covers(v: Seq<Seq<char>>, all: Seq<Seq<char>>, k: int) -> bool {
    exists|j: int, a: int, b: int|
        0 <= j < v.len() && #[trigger] spans(v[j], all, a, b) && a <= k < b
}

proof fn windows_from_facts(all: Seq<Seq<char>>, start: nat, max_tokens: nat, overlap: nat)
    requires
        max_tokens > 0,
    ensures
        forall|j: int|
            0 <= j < windows_from(all, start, max_tokens, overlap).len() ==> is_window(
                #[trigger] windows_from(all, start, max_tokens, overlap)[j],
                all,
                max_tokens,
            ),
        forall|k: int|
            start <= k < all.len() ==> #[trigger] covers(
                windows_from(all, start, max_tokens, overlap),
                all,
                k,
            ),
    decreases all.len() - start,
{
    let v = windows_from(all, start, max_tokens, overlap);
    if start < all.len() {
        let end = window_end(all.len(), start, max_tokens);
        let first = join(all.subrange(start as int, end as int), " "@);
        assert(spans(first, all, start as int, end as int));
        assert(is_window(first, all, max_tokens));
        if end == all.len() {
            assert(v =~= seq![first]);
            assert forall|k: int| start <= k < all.len() implies #[trigger] covers(v, all, k) by {
                assert(spans(v[0], all, start as int, end as int));
            }
        } else {
            let next = start + window_step(max_tokens, overlap);
            let rest = windows_from(all, next, max_tokens, overlap);
            windows_from_facts(all, next, max_tokens, overlap);
            assert(v =~= seq![first] + rest);
            assert forall|j: int| 0 <= j < v.len() implies is_window(
                #[trigger] v[j],
                all,
                max_tokens,
            ) by {
                if j > 0 {
                    assert(v[j] == rest[j - 1]);
                }
            }
            assert forall|k: int| start <= k < all.len() implies #[trigger] covers(v, all, k) by {
                if k < end {
                    assert(spans(v[0], all, start as int, end as int));
                } else {
                    assert(covers(rest, all, k));
                    let (j, a, b) = choose|j: int, a: int, b: int|
                        0 <= j < rest.len() && #[trigger] spans(rest[j], all, a, b) && a <= k < b;
                    assert(v[j + 1] == rest[j]);
                    assert(spans(v[j + 1], all, a, b));
                }
            }
        }
    }
}

/// Windows lose no word: each word of a text is in one of its windows, and each
/// window is at most `max_tokens` words in a row.
pub proof fn windows_cover_the_text(text: Seq<char>, max_tokens: nat, overlap: nat)
    requires
        max_tokens > 0,
    ensures
        forall|j: int|
            0 <= j < windows(text, max_tokens, overlap).len() ==> is_window(
                #[trigger] windows(text, max_tokens, overlap)[j],
                words(text),
                max_tokens,
            ),
        forall|k: int|
            0 <= k < words(text).len() ==> #[trigger] covers(
                windows(text, max_tokens, overlap),
                words(text),
                k,
            ),
{
    let all = words(text);
    let v = windows(text, max_tokens, overlap);
    if all.len() == 0 {
    } else if all.len() <= max_tokens {
        assert(all.subrange(0, all.len() as int) =~= all);
        assert(spans(v[0], all, 0, all.len() as int));
    } else {
        windows_from_facts(all, 0, max_tokens, overlap);
    }
}

/// Two windows in a row overlap by `overlap` words, where that is less than a
/// window.
pub proof fn windows_overlap(all: Seq<Seq<char>>, start: nat, max_tokens: nat, overlap: nat)
    requires
        overlap < max_tokens,
        start + max_tokens < all.len(),
    ensures
        ({
            let v = windows_from(all, start, max_tokens, overlap);
            let next = start + max_tokens - overlap;
            &&& v.len() >= 2
            &&& spans(v[0], all, start as int, (start + max_tokens) as int)
            &&& spans(v[1], all, next, window_end(all.len(), next as nat, max_tokens) as int)
        }),
{
    let next = (start + max_tokens - overlap) as nat;
    let rest = windows_from(all, next, max_tokens, overlap);
    assert(rest.len() >= 1);
    let v = windows_from(all, start, max_tokens, overlap);
    assert(v =~= seq![join(all.subrange(start as int, (start + max_tokens) as int), " "@)] + rest);
    assert(v[1] == rest[0]);
}

proof fn words_not_empty(s: Seq<char>, i: int)
    requires
        0 <= i <= s.len(),
    ensures
        forall|k: int| 0 <= k < words_from(s, i).len() ==> (#[trigger] words_from(s, i)[k]).len() > 0,
        (exists|k: int| i <= k < s.len() && !is_space(#[trigger] s[k])) ==> words_from(s, i).len()
            > 0,
    decreases s.len() - i,
{
    let start = run_end(s, true, i);
    let end = run_end(s, false, start);
    run_end_bounds(s, true, i);
    run_end_stops(s, true, i);
    run_end_bounds(s, false, start);
    if start < s.len() {
        words_not_empty(s, end);
    }
}

/// The first word at or after an index is not empty.
pub proof fn word_is_not_empty(s: Seq<char>, i: int)
    requires
        0 <= i <= s.len(),
        run_end(s, true, i) < s.len(),
    ensures
        run_end(s, true, i) < run_end(s, false, run_end(s, true, i)),
{
    let start = run_end(s, true, i);
    run_end_bounds(s, true, i);
    run_end_stops(s, true, i);
    run_end_bounds(s, false, start + 1);
}

pub proof fn join_not_empty(parts: Seq<Seq<char>>, sep: Seq<char>)
    requires
        parts.len() > 0,
        parts.last().len() > 0,
    ensures
        join(parts, sep).len() > 0,
{
}

/// A text that is not blank has a window, and no window is empty.
pub proof fn windows_are_not_empty(text: Seq<char>, max_tokens: nat, overlap: nat)
    requires
        max_tokens > 0,
    ensures
        (exists|k: int| 0 <= k < text.len() && !is_space(#[trigger] text[k])) ==> windows(
            text,
            max_tokens,
            overlap,
        ).len() > 0,
        forall|j: int|
            0 <= j < windows(text, max_tokens, overlap).len() ==> (#[trigger] windows(
                text,
                max_tokens,
                overlap,
            )[j]).len() > 0,
{
    let all = words(text);
    let v = windows(text, max_tokens, overlap);
    words_not_empty(text, 0);
    if all.len() == 0 {
    } else if all.len() <= max_tokens {
        join_not_empty(all, " "@);
    } else {
        windows_from_not_empty(all, 0, max_tokens, overlap);
    }
}

proof fn windows_from_not_empty(
    all: Seq<Seq<char>>,
    start: nat,
    max_tokens: nat,
    overlap: nat,
)
    requires
        max_tokens > 0,
        start <= all.len(),
        forall|k: int| 0 <= k < all.len() ==> (#[trigger] all[k]).len() > 0,
    ensures
        start < all.len() ==> windows_from(all, start, max_tokens, overlap).len() > 0,
        forall|j: int|
            0 <= j < windows_from(all, start, max_tokens, overlap).len() ==> (
            #[trigger] windows_from(all, start, max_tokens, overlap)[j]).len() > 0,
    decreases all.len() - start,
{
    if start < all.len() {
        let end = window_end(all.len(), start, max_tokens);
        let part = all.subrange(start as int, end as int);
        assert(part.last() == all[end - 1]);
        join_not_empty(part, " "@);
        if end < all.len() {
            let next = start + window_step(max_tokens, overlap);
            windows_from_not_empty(all, next, max_tokens, overlap);
        }
    }
}

/// Whether the levels of a trail increase from the outermost heading inwards.
pub open spec fn is_nested(trail: Seq<Heading>) -> bool {
    forall|i: int, j: int|
        0 <= i < j < trail.len() ==> (#[trigger] trail[i]).level < (#[trigger] trail[j]).level
}

proof fn above_facts(trail: Seq<Heading>, level: u8)
    requires
        is_nested(trail),
    ensures
        is_nested(above(trail, level)),
        forall|i: int|
            0 <= i < above(trail, level).len() ==> (#[trigger] above(trail, level)[i]).level
                < level,
        forall|i: int|
            0 <= i < above(trail, level).len() ==> trail.contains(
                #[trigger] above(trail, level)[i],
            ),
    decreases trail.len(),
{
    if trail.len() > 0 {
        let t = trail.drop_last();
        assert(is_nested(t)) by {
            assert forall|i: int, j: int| 0 <= i < j < t.len() implies (#[trigger] t[i]).level < (
            #[trigger] t[j]).level by {
                assert(trail[i].level < trail[j].level);
            }
        }
        above_facts(t, level);
        let a = above(t, level);
        assert forall|i: int| 0 <= i < a.len() implies trail.contains(#[trigger] a[i]) by {
            assert(t.contains(a[i]));
            let m = choose|m: int| 0 <= m < t.len() && t[m] == a[i];
            assert(trail[m] == a[i]);
        }
        if trail.last().level < level {
            let r = above(trail, level);
            assert forall|i: int, j: int| 0 <= i < j < r.len() implies (#[trigger] r[i]).level < (
            #[trigger] r[j]).level by {
                if j < a.len() {
                    assert(a[i].level < a[j].level);
                } else {
                    assert(t.contains(a[i]));
                    let m = choose|m: int| 0 <= m < t.len() && t[m] == a[i];
                    assert(trail[m].level < trail[trail.len() - 1].level);
                }
            }
            assert forall|i: int| 0 <= i < r.len() implies trail.contains(#[trigger] r[i]) by {
                if i < a.len() {
                    assert(trail.contains(a[i]));
                } else {
                    assert(trail[trail.len() - 1] == r[i]);
                }
            }
        }
    }
}

/// Whether each section's text is trimmed and not empty.
pub open spec fn are_trimmed(sections: Seq<SectionText>) -> bool {
    forall|i: int|
        0 <= i < sections.len() ==> (#[trigger] sections[i]).text.len() > 0 && !is_space(
            sections[i].text[0],
        ) && !is_space(sections[i].text.last())
}

proof fn close_section_trimmed(r: Reading)
    requires
        are_trimmed(r.sections),
    ensures
        are_trimmed(close_section(r).sections),
{
    trimmed_is_bare_at_both_ends(r.current, Class::Space);
}

/// While a markdown text is read, the headings that enclose the current text are
/// each of a deeper level than the one before: a heading replaces those at its
/// level or below. Each section's text is trimmed and not empty.
pub proof fn headings_nest_and_sections_are_trimmed(events: Seq<EventText>)
    ensures
        is_nested(read_events(events).trail),
        are_trimmed(read_events(events).sections),
        are_trimmed(sections_of(events)),
    decreases events.len(),
{
    if events.len() > 0 {
        let before = read_events(events.drop_last());
        headings_nest_and_sections_are_trimmed(events.drop_last());
        close_section_trimmed(before);
        if let EventText::HeadingEnd(level) = events.last() {
            above_facts(before.trail, level);
        }
    }
    close_section_trimmed(read_events(events));
}

} // verus!
