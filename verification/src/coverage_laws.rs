//! Chunking loses nothing: every word of a text comes into a section, every word
//! of a section into a chunk, and every section stands under its headings.
use vstd::prelude::*;

use crate::chunk::{
    above, breadcrumb, chunks_of, close_section, read_events, sections_of, trail_titles,
    window_end, windows, windows_from, ChunkText, Heading, Reading, SectionText,
};
use crate::chunk_laws::{covers, spans, windows_cover_the_text};
use crate::outside::EventText;
use crate::text::{is_space, join, trim, words, Class};
use crate::text_laws::{
    a_word_is_one_word, is_core, joined_in_order, trimming_keeps_the_core,
    words_part_at_white_space,
};

verus! {

/// By how many words a window starts after the one before it.
pub open spec fn stride(max_tokens: nat, overlap: nat) -> nat {
    if overlap < max_tokens {
        (max_tokens - overlap) as nat
    } else {
        1
    }
}

/// Whether some windows over `all` from word `start` on are the words from each
/// multiple of the stride on, at most `max_tokens` of them, up to the first
/// window that reaches the last word.
pub open spec fn strides(
    v: Seq<Seq<char>>,
    all: Seq<Seq<char>>,
    start: nat,
    max_tokens: nat,
    overlap: nat,
) -> bool {
    let step = stride(max_tokens, overlap);
    &&& v.len() > 0
    &&& forall|j: int|
        0 <= j < v.len() - 1 ==> spans(
            #[trigger] v[j],
            all,
            start + j * step,
            start + j * step + max_tokens,
        ) && start + j * step + max_tokens < all.len()
    &&& spans(v.last(), all, start + (v.len() - 1) * step, all.len() as int)
    &&& start + (v.len() - 1) * step + max_tokens >= all.len()
    &&& start + (v.len() - 1) * step < all.len()
}

proof fn windows_from_stride(all: Seq<Seq<char>>, start: nat, max_tokens: nat, overlap: nat)
    requires
        max_tokens > 0,
        start < all.len(),
    ensures
        strides(windows_from(all, start, max_tokens, overlap), all, start, max_tokens, overlap),
    decreases all.len() - start,
{
    let v = windows_from(all, start, max_tokens, overlap);
    let step = stride(max_tokens, overlap);
    let end = window_end(all.len(), start, max_tokens);
    let first = join(all.subrange(start as int, end as int), " "@);
    assert(0 * step == 0);
    if end == all.len() {
        assert(v =~= seq![first]);
        assert((v.len() - 1) * step == 0) by (nonlinear_arith)
            requires
                v.len() == 1,
        ;
    } else {
        let next = start + step;
        let rest = windows_from(all, next, max_tokens, overlap);
        windows_from_stride(all, next, max_tokens, overlap);
        assert(v =~= seq![first] + rest);
        assert forall|j: int| 0 <= j < v.len() - 1 implies spans(
            #[trigger] v[j],
            all,
            start + j * step,
            start + j * step + max_tokens,
        ) && start + j * step + max_tokens < all.len() by {
            if j > 0 {
                assert(v[j] == rest[j - 1]);
                assert(step + (j - 1) * step == j * step) by (nonlinear_arith);
            }
        }
        assert(step + (rest.len() - 1) * step == (v.len() - 1) * step) by (nonlinear_arith)
            requires
                v.len() == rest.len() + 1,
        ;
        assert(v.last() == rest.last());
    }
}

/// Where the windows over a text lie: each starts a stride after the one before
/// it and is `max_tokens` words long, but for the last, which is the first that
/// reaches the last word. A blank text has none.
pub proof fn windows_lie_a_stride_apart(text: Seq<char>, max_tokens: nat, overlap: nat)
    requires
        max_tokens > 0,
    ensures
        words(text).len() == 0 ==> windows(text, max_tokens, overlap).len() == 0,
        words(text).len() > 0 ==> strides(
            windows(text, max_tokens, overlap),
            words(text),
            0,
            max_tokens,
            overlap,
        ),
{
    let all = words(text);
    if all.len() == 0 {
    } else if all.len() <= max_tokens {
        let v = windows(text, max_tokens, overlap);
        let step = stride(max_tokens, overlap);
        assert(all.subrange(0, all.len() as int) =~= all);
        assert((v.len() - 1) * step == 0) by (nonlinear_arith)
            requires
                v.len() == 1,
        ;
    } else {
        windows_from_stride(all, 0, max_tokens, overlap);
    }
}

/// How many windows the first `n` of some sections have together.
pub open spec fn windows_before(
    sections: Seq<SectionText>,
    n: int,
    max_tokens: nat,
    overlap: nat,
) -> nat
    decreases n,
{
    if n <= 0 {
        0
    } else {
        windows_before(sections, n - 1, max_tokens, overlap) + windows(
            sections[n - 1].text,
            max_tokens,
            overlap,
        ).len()
    }
}

/// Whether a chunk under a heading path spans the word at `k` of a text.
pub open spec fn has_word(
    chunks: Seq<ChunkText>,
    heading_path: Seq<char>,
    all: Seq<Seq<char>>,
    k: int,
) -> bool {
    exists|c: int, a: int, b: int|
        0 <= c < chunks.len() && chunks[c].heading_path == heading_path && #[trigger] spans(
            chunks[c].text,
            all,
            a,
            b,
        ) && a <= k < b
}

proof fn windows_before_prefix(
    a: Seq<SectionText>,
    b: Seq<SectionText>,
    n: int,
    max_tokens: nat,
    overlap: nat,
)
    requires
        n <= a.len(),
        n <= b.len(),
        forall|i: int| 0 <= i < n ==> #[trigger] a[i] == b[i],
    ensures
        windows_before(a, n, max_tokens, overlap) == windows_before(b, n, max_tokens, overlap),
    decreases n,
{
    if n > 0 {
        windows_before_prefix(a, b, n - 1, max_tokens, overlap);
        assert(a[n - 1] == b[n - 1]);
    }
}

/// Whether the window at `j` of the section at `i` is the text of the chunk at
/// its place, under the section's heading path.
pub open spec fn in_its_place(
    chunks: Seq<ChunkText>,
    sections: Seq<SectionText>,
    max_tokens: nat,
    overlap: nat,
    i: int,
    j: int,
) -> bool {
    let c = windows_before(sections, i, max_tokens, overlap) + j;
    &&& 0 <= c < chunks.len()
    &&& chunks[c].text == windows(sections[i].text, max_tokens, overlap)[j]
    &&& chunks[c].heading_path == sections[i].heading_path
}

/// The chunks of a document are the windows of its sections, section by section:
/// there are as many, and each window of each section is the text of the chunk
/// at its place, under the section's heading path.
pub proof fn chunks_are_the_windows_of_the_sections(
    sections: Seq<SectionText>,
    max_tokens: nat,
    overlap: nat,
)
    ensures
        chunks_of(sections, max_tokens, overlap).len() == windows_before(
            sections,
            sections.len() as int,
            max_tokens,
            overlap,
        ),
        forall|i: int, j: int|
            0 <= i < sections.len() && 0 <= j < windows(
                sections[i].text,
                max_tokens,
                overlap,
            ).len() ==> #[trigger] in_its_place(
                chunks_of(sections, max_tokens, overlap),
                sections,
                max_tokens,
                overlap,
                i,
                j,
            ),
    decreases sections.len(),
{
    if sections.len() > 0 {
        let rest = sections.drop_last();
        let n = sections.len() - 1;
        let before = chunks_of(rest, max_tokens, overlap);
        let all = chunks_of(sections, max_tokens, overlap);
        chunks_are_the_windows_of_the_sections(rest, max_tokens, overlap);
        windows_before_prefix(rest, sections, n, max_tokens, overlap);
        assert forall|i: int, j: int|
            0 <= i < sections.len() && 0 <= j < windows(
                sections[i].text,
                max_tokens,
                overlap,
            ).len() implies #[trigger] in_its_place(
            all,
            sections,
            max_tokens,
            overlap,
            i,
            j,
        ) by {
            if i < n {
                assert(rest[i] == sections[i]);
                windows_before_prefix(rest, sections, i, max_tokens, overlap);
                assert(in_its_place(before, rest, max_tokens, overlap, i, j));
            }
        }
    }
}

/// Chunks lose no word: each word of each section's text is in a chunk that
/// stands under that section's heading path.
pub proof fn chunks_lose_no_word(
    sections: Seq<SectionText>,
    max_tokens: nat,
    overlap: nat,
    i: int,
    k: int,
)
    requires
        max_tokens > 0,
        0 <= i < sections.len(),
        0 <= k < words(sections[i].text).len(),
    ensures
        has_word(
            chunks_of(sections, max_tokens, overlap),
            sections[i].heading_path,
            words(sections[i].text),
            k,
        ),
{
    let text = sections[i].text;
    let v = windows(text, max_tokens, overlap);
    windows_cover_the_text(text, max_tokens, overlap);
    chunks_are_the_windows_of_the_sections(sections, max_tokens, overlap);
    assert(covers(v, words(text), k));
    let (j, a, b) = choose|j: int, a: int, b: int|
        0 <= j < v.len() && #[trigger] spans(v[j], words(text), a, b) && a <= k < b;
    let chunks = chunks_of(sections, max_tokens, overlap);
    assert(in_its_place(chunks, sections, max_tokens, overlap, i, j));
    let c = windows_before(sections, i, max_tokens, overlap) + j;
    assert(spans(chunks[c].text, words(text), a, b));
}

/// Whether a heading is being read after some events.
pub open spec fn in_heading(events: Seq<EventText>) -> bool
    decreases events.len(),
{
    if events.len() == 0 {
        false
    } else {
        match events.last() {
            EventText::HeadingStart => true,
            EventText::HeadingEnd(_) => false,
            _ => in_heading(events.drop_last()),
        }
    }
}

/// The text of some events that stands outside of headings. Line breaks, the
/// ends of paragraphs, items and code blocks, and headings part it.
pub open spec fn outside_headings(events: Seq<EventText>) -> Seq<char>
    decreases events.len(),
{
    if events.len() == 0 {
        seq![]
    } else {
        let before = outside_headings(events.drop_last());
        match events.last() {
            EventText::HeadingStart => before.push('\n'),
            EventText::HeadingEnd(_) | EventText::Other => before,
            _ if in_heading(events.drop_last()) => before,
            EventText::Text(t) => before + t,
            EventText::Code(t) => before + t,
            EventText::SoftBreak | EventText::HardBreak => before.push(' '),
            EventText::ParagraphEnd | EventText::ItemEnd | EventText::CodeBlockEnd => before.push(
                '\n',
            ),
        }
    }
}

/// The text read so far of the heading that is being read.
pub open spec fn heading_text(events: Seq<EventText>) -> Seq<char>
    decreases events.len(),
{
    if events.len() == 0 {
        seq![]
    } else {
        match events.last() {
            EventText::HeadingStart | EventText::HeadingEnd(_) => seq![],
            EventText::Text(t) => heading_text(events.drop_last()) + t,
            EventText::Code(t) => heading_text(events.drop_last()) + t,
            _ => heading_text(events.drop_last()),
        }
    }
}

/// The headings that some events hold, each with its level and trimmed text.
pub open spec fn headings_read(events: Seq<EventText>) -> Seq<Heading>
    decreases events.len(),
{
    if events.len() == 0 {
        seq![]
    } else {
        let before = headings_read(events.drop_last());
        match events.last() {
            EventText::HeadingEnd(level) => before.push(
                Heading {
                    level,
                    title: if in_heading(events.drop_last()) {
                        trim(heading_text(events.drop_last()))
                    } else {
                        seq![]
                    },
                },
            ),
            _ => before,
        }
    }
}

/// The words of some sections, section by section.
pub open spec fn section_words(sections: Seq<SectionText>) -> Seq<Seq<char>>
    decreases sections.len(),
{
    if sections.len() == 0 {
        seq![]
    } else {
        section_words(sections.drop_last()) + words(sections.last().text)
    }
}

proof fn words_of_nothing()
    ensures
        words(seq![]) == Seq::<Seq<char>>::empty(),
{
    a_word_is_one_word(seq![]);
    assert(words(seq![]) =~= seq![]);
}

/// White space around a text makes no words.
proof fn words_before_blank(x: Seq<char>, blank: Seq<char>)
    requires
        forall|k: int| 0 <= k < blank.len() ==> is_space(#[trigger] blank[k]),
    ensures
        words(x + blank) == words(x),
        words(blank) == Seq::<Seq<char>>::empty(),
    decreases blank.len(),
{
    words_of_nothing();
    if blank.len() == 0 {
        assert(x + blank =~= x);
        assert(blank =~= seq![]);
    } else {
        let rest = blank.drop_last();
        let c = blank.last();
        words_before_blank(x, rest);
        words_part_at_white_space(x + rest, c, seq![]);
        assert((x + rest).push(c) + seq![] =~= x + blank);
        words_part_at_white_space(rest, c, seq![]);
        assert(rest.push(c) + seq![] =~= blank);
        assert(words(x) + Seq::<Seq<char>>::empty() =~= words(x));
    }
}

proof fn words_after_blank(blank: Seq<char>, x: Seq<char>)
    requires
        forall|k: int| 0 <= k < blank.len() ==> is_space(#[trigger] blank[k]),
    ensures
        words(blank + x) == words(x),
    decreases blank.len(),
{
    if blank.len() == 0 {
        assert(blank + x =~= x);
    } else {
        let rest = blank.drop_last();
        words_part_at_white_space(rest, blank.last(), x);
        words_before_blank(seq![], rest);
        assert(rest.push(blank.last()) + x =~= blank + x);
        assert(Seq::<Seq<char>>::empty() + words(x) =~= words(x));
    }
}

/// Trimming takes away no word.
pub proof fn trimming_keeps_the_words(s: Seq<char>)
    ensures
        words(trim(s)) == words(s),
{
    trimming_keeps_the_core(s, Class::Space);
    let (i, j) = choose|i: int, j: int| #[trigger] is_core(trim(s), s, Class::Space, i, j);
    let (a, b) = (s.take(i), s.skip(j));
    assert(s =~= a + (trim(s) + b));
    assert forall|k: int| 0 <= k < b.len() implies is_space(#[trigger] b[k]) by {
        assert(Class::Space.has(s[j + k]));
    }
    assert forall|k: int| 0 <= k < a.len() implies is_space(#[trigger] a[k]) by {
        assert(Class::Space.has(s[k]));
    }
    words_after_blank(a, trim(s) + b);
    words_before_blank(trim(s), b);
}

/// A text that is parted by white space has the words of both parts.
proof fn words_of_parts(p: Seq<char>, x: Seq<char>)
    requires
        p.len() == 0 || is_space(p.last()),
    ensures
        words(p + x) == words(p) + words(x),
{
    words_of_nothing();
    if p.len() == 0 {
        assert(p + x =~= x);
        assert(p =~= seq![]);
        assert(words(p) + words(x) =~= words(x));
    } else {
        let q = p.drop_last();
        words_part_at_white_space(q, p.last(), x);
        words_part_at_white_space(q, p.last(), seq![]);
        assert(q.push(p.last()) =~= p);
        assert(p + seq![] =~= p);
        assert(words(q) + Seq::<Seq<char>>::empty() =~= words(q));
    }
}

proof fn close_section_words(r: Reading)
    ensures
        section_words(close_section(r).sections) == section_words(r.sections) + words(r.current),
{
    trimming_keeps_the_words(r.current);
    words_of_nothing();
    let t = trim(r.current);
    if t.len() > 0 {
        let s = SectionText { heading_path: breadcrumb(r.trail), text: t };
        assert(r.sections.push(s).drop_last() =~= r.sections);
    } else {
        assert(t =~= seq![]);
        assert(section_words(r.sections) + words(r.current) =~= section_words(r.sections));
    }
}

/// What has been read is what stands outside of headings, up to the last heading
/// in sections and then as the current text.
proof fn reading_words(events: Seq<EventText>) -> (p: Seq<char>)
    ensures
        read_events(events).heading == if in_heading(events) {
            Some(heading_text(events))
        } else {
            None
        },
        outside_headings(events) == p + read_events(events).current,
        p.len() == 0 || is_space(p.last()),
        words(p) == section_words(read_events(events).sections),
    decreases events.len(),
{
    let r = read_events(events);
    words_of_nothing();
    if events.len() == 0 {
        assert(seq![] + r.current =~= Seq::<char>::empty());
        seq![]
    } else {
        let before = events.drop_last();
        let q = read_events(before);
        let p = reading_words(before);
        match events.last() {
            EventText::HeadingStart => {
                let all = outside_headings(before);
                let next = all.push('\n');
                close_section_words(q);
                words_of_parts(p, q.current);
                words_part_at_white_space(all, '\n', seq![]);
                assert(next + seq![] =~= next);
                assert(words(all) + Seq::<Seq<char>>::empty() =~= words(all));
                next
            },
            EventText::Text(t) => {
                assert(p + (q.current + t) =~= (p + q.current) + t);
                p
            },
            EventText::Code(t) => {
                assert(p + (q.current + t) =~= (p + q.current) + t);
                p
            },
            EventText::SoftBreak | EventText::HardBreak => {
                assert(p + q.current.push(' ') =~= (p + q.current).push(' '));
                p
            },
            EventText::ParagraphEnd | EventText::ItemEnd | EventText::CodeBlockEnd => {
                assert(p + q.current.push('\n') =~= (p + q.current).push('\n'));
                p
            },
            EventText::HeadingEnd(_) | EventText::Other => p,
        }
    }
}

/// Sections lose no word and run none together: the words of the sections, one
/// after another, are those of the text that stands outside of headings.
pub proof fn sections_lose_no_word(events: Seq<EventText>)
    ensures
        section_words(sections_of(events)) == words(outside_headings(events)),
{
    let p = reading_words(events);
    let r = read_events(events);
    close_section_words(r);
    words_of_parts(p, r.current);
}

/// Whether no later heading is at the level of the one at `j` or above it.
pub open spec fn is_open(hs: Seq<Heading>, j: int) -> bool {
    0 <= j < hs.len() && forall|k: int|
        j < k < hs.len() ==> (#[trigger] hs[k]).level > hs[j].level
}

/// Whether `at` are the places of a trail's headings among all headings, in
/// order.
pub open spec fn are_places(trail: Seq<Heading>, hs: Seq<Heading>, at: Seq<int>) -> bool {
    &&& at.len() == trail.len()
    &&& forall|i: int|
        0 <= i < at.len() ==> 0 <= #[trigger] at[i] < hs.len() && trail[i] == hs[at[i]]
    &&& forall|i: int, j: int| 0 <= i < j < at.len() ==> #[trigger] at[i] < #[trigger] at[j]
}

proof fn places_above(trail: Seq<Heading>, hs: Seq<Heading>, at: Seq<int>, level: u8) -> (r: Seq<
    int,
>)
    requires
        are_places(trail, hs, at),
    ensures
        are_places(above(trail, level), hs, r),
        forall|j: int| #[trigger]
            r.contains(j) <==> at.contains(j) && hs[j].level < level,
    decreases trail.len(),
{
    if trail.len() == 0 {
        assert(at =~= seq![]);
        at
    } else {
        let t = trail.drop_last();
        let a = at.drop_last();
        assert(are_places(t, hs, a)) by {
            assert forall|i: int, j: int| 0 <= i < j < a.len() implies #[trigger] a[i]
                < #[trigger] a[j] by {
                assert(at[i] < at[j]);
            }
            assert forall|i: int| 0 <= i < a.len() implies 0 <= #[trigger] a[i] < hs.len() && t[i]
                == hs[a[i]] by {
                assert(at[i] == a[i]);
            }
        }
        let q = places_above(t, hs, a, level);
        let n = at.len() - 1;
        assert(trail[n] == hs[at[n]]);
        assert forall|j: int| #[trigger] at.contains(j) <==> a.contains(j) || j == at[n] by {
            if at.contains(j) {
                let i = choose|i: int| 0 <= i < at.len() && at[i] == j;
                if i < n {
                    assert(a[i] == j);
                }
            }
            if a.contains(j) {
                let i = choose|i: int| 0 <= i < a.len() && a[i] == j;
                assert(at[i] == j);
            }
        }
        if trail.last().level < level {
            let r = q.push(at[n]);
            assert forall|j: int| #[trigger] r.contains(j) <==> q.contains(j) || j == at[n] by {
                if q.contains(j) {
                    let i = choose|i: int| 0 <= i < q.len() && q[i] == j;
                    assert(r[i] == j);
                }
                if j == at[n] {
                    assert(r[q.len() as int] == j);
                }
            }
            assert forall|i: int, j: int| 0 <= i < j < r.len() implies #[trigger] r[i]
                < #[trigger] r[j] by {
                if j == q.len() {
                    assert(q.contains(q[i]));
                    assert(a.contains(q[i]));
                    let m = choose|m: int| 0 <= m < a.len() && a[m] == q[i];
                    assert(at[m] < at[n]);
                }
            }
            assert forall|i: int| 0 <= i < r.len() implies 0 <= #[trigger] r[i] < hs.len()
                && above(trail, level)[i] == hs[r[i]] by {
                if i < q.len() {
                    assert(r[i] == q[i]);
                }
            }
            r
        } else {
            q
        }
    }
}

/// The headings that enclose the text being read are the open ones, outermost
/// first: those that no heading of their own level or above it has followed.
pub proof fn the_trail_is_the_open_headings(events: Seq<EventText>) -> (at: Seq<int>)
    ensures
        are_places(read_events(events).trail, headings_read(events), at),
        forall|j: int| #[trigger] at.contains(j) <==> is_open(headings_read(events), j),
    decreases events.len(),
{
    let hs = headings_read(events);
    if events.len() == 0 {
        Seq::empty()
    } else {
        let before = events.drop_last();
        let q = read_events(before);
        let old_hs = headings_read(before);
        let a = the_trail_is_the_open_headings(before);
        match events.last() {
            EventText::HeadingEnd(level) => {
                let n = old_hs.len() as int;
                let kept = places_above(q.trail, old_hs, a, level);
                let at = kept.push(n);
                let p = reading_words(before);
                let trail = read_events(events).trail;
                assert(trim(seq![]) =~= seq![]);
                assert(hs[n] == trail.last());
                assert forall|j: int| #[trigger] at.contains(j) <==> kept.contains(j) || j == n by {
                    if kept.contains(j) {
                        let i = choose|i: int| 0 <= i < kept.len() && kept[i] == j;
                        assert(at[i] == j);
                    }
                    if j == n {
                        assert(at[kept.len() as int] == j);
                    }
                }
                assert forall|i: int| 0 <= i < at.len() implies 0 <= #[trigger] at[i] < hs.len()
                    && trail[i] == hs[at[i]] by {
                    if i < kept.len() {
                        assert(at[i] == kept[i]);
                    }
                }
                assert forall|i: int, j: int| 0 <= i < j < at.len() implies #[trigger] at[i]
                    < #[trigger] at[j] by {
                    if j < kept.len() {
                        assert(kept[i] < kept[j]);
                    } else {
                        assert(at[i] == kept[i]);
                    }
                }
                assert forall|j: int| #[trigger] at.contains(j) <==> is_open(hs, j) by {
                    if at.contains(j) && j != n {
                        assert(kept.contains(j));
                        assert(a.contains(j));
                        assert(is_open(old_hs, j));
                        assert forall|k: int| j < k < hs.len() implies (#[trigger] hs[k]).level
                            > hs[j].level by {
                            if k < n {
                                assert(old_hs[k].level > old_hs[j].level);
                            }
                        }
                    }
                    if is_open(hs, j) && j != n {
                        assert(hs[n].level > hs[j].level);
                        assert forall|k: int| j < k < old_hs.len() implies (
                        #[trigger] old_hs[k]).level > old_hs[j].level by {
                            assert(hs[k].level > hs[j].level);
                        }
                        assert(is_open(old_hs, j));
                        assert(a.contains(j));
                    }
                }
                at
            },
            _ => a,
        }
    }
}

/// Whether a section was read up to the event at `n`: its text is what had been
/// read since the last heading, and its heading path that of the headings that
/// enclosed it.
pub open spec fn was_read_up_to(s: SectionText, events: Seq<EventText>, n: int) -> bool {
    &&& 0 <= n <= events.len()
    &&& n == events.len() || events[n] is HeadingStart
    &&& s.text == trim(read_events(events.take(n)).current)
    &&& s.heading_path == breadcrumb(read_events(events.take(n)).trail)
}

/// Whether a section was read up to some event.
pub open spec fn was_read(s: SectionText, events: Seq<EventText>) -> bool {
    exists|n: int| was_read_up_to(s, events, n)
}

/// Whether a section was closed by a heading.
spec fn was_closed(s: SectionText, events: Seq<EventText>) -> bool {
    exists|n: int| n < events.len() && was_read_up_to(s, events, n)
}

proof fn closed_sections_were_read(events: Seq<EventText>)
    ensures
        forall|i: int|
            0 <= i < read_events(events).sections.len() ==> was_closed(
                #[trigger] read_events(events).sections[i],
                events,
            ),
    decreases events.len(),
{
    if events.len() > 0 {
        let before = events.drop_last();
        let m = before.len() as int;
        let old_sections = read_events(before).sections;
        let now = read_events(events).sections;
        closed_sections_were_read(before);
        assert forall|i: int| 0 <= i < now.len() implies was_closed(#[trigger] now[i], events) by {
            if i < old_sections.len() {
                assert(now[i] == old_sections[i]);
                assert(was_closed(old_sections[i], before));
                let n = choose|n: int| n < before.len() && was_read_up_to(
                    old_sections[i],
                    before,
                    n,
                );
                assert(events.take(n) =~= before.take(n));
                assert(events[n] == before[n]);
                assert(was_read_up_to(now[i], events, n));
            } else {
                assert(events.take(m) =~= before);
                assert(was_read_up_to(now[i], events, m));
            }
        }
    }
}

/// Every section stands under the headings that enclosed its text when it was
/// read, and holds the text since the last heading.
pub proof fn sections_stand_under_their_headings(events: Seq<EventText>)
    ensures
        forall|i: int|
            0 <= i < sections_of(events).len() ==> was_read(
                #[trigger] sections_of(events)[i],
                events,
            ),
{
    let closed = read_events(events).sections;
    let all = sections_of(events);
    closed_sections_were_read(events);
    assert forall|i: int| 0 <= i < all.len() implies was_read(#[trigger] all[i], events) by {
        if i < closed.len() {
            assert(all[i] == closed[i]);
            assert(was_closed(closed[i], events));
        } else {
            assert(events.take(events.len() as int) =~= events);
            assert(was_read_up_to(all[i], events, events.len() as int));
        }
    }
}

/// A heading path holds the titles of the headings, outermost first, parted by
/// ` > `; a heading without a title is left out.
pub proof fn heading_paths_name_each_heading(trail: Seq<Heading>, h: Heading)
    ensures
        breadcrumb(seq![]).len() == 0,
        h.title.len() == 0 ==> breadcrumb(trail.push(h)) == breadcrumb(trail),
        h.title.len() > 0 && breadcrumb(trail).len() == 0 ==> breadcrumb(trail.push(h)) == h.title,
        h.title.len() > 0 && breadcrumb(trail).len() > 0 ==> breadcrumb(trail.push(h))
            == breadcrumb(trail) + seq![' ', '>', ' '] + h.title,
{
    reveal_strlit(" > ");
    assert(" > "@ =~= seq![' ', '>', ' ']);
    assert(trail.push(h).drop_last() =~= trail);
    let titles = trail_titles(trail);
    titles_not_empty(trail);
    if h.title.len() > 0 {
        joined_in_order(titles, seq![h.title], " > "@);
        assert(titles.push(h.title) =~= titles + seq![h.title]);
        if titles.len() == 0 {
            assert(titles.push(h.title) =~= seq![h.title]);
        } else {
            crate::chunk_laws::join_not_empty(titles, " > "@);
        }
    }
}

proof fn titles_not_empty(trail: Seq<Heading>)
    ensures
        trail_titles(trail).len() > 0 ==> trail_titles(trail).last().len() > 0,
    decreases trail.len(),
{
    if trail.len() > 0 {
        titles_not_empty(trail.drop_last());
    }
}

} // verus!
