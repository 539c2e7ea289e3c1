//! Chunks of a markdown body: heading-delimited sections, windowed by words.
use vstd::prelude::*;
use vstd::slice::slice_subrange;

use crate::outside::{event_texts, markdown_events, read_markdown, EventText, MarkdownEvent};
use crate::text::{
    join, join_slices, join_texts, push_text, slices, split_words, strip, texts, to_chars, to_text,
    trim, words, Class,
};

verus! {

/// A unit of text to embed, with the heading trail it came from.
#[derive(Debug, Clone)]
pub struct Chunk {
    pub ord: usize,
    /// Breadcrumb of enclosing headings, e.g. "Design > Storage".
    pub heading_path: String,
    pub text: String,
}

/// The content of a [`Chunk`].
pub struct ChunkText {
    pub ord: nat,
    pub heading_path: Seq<char>,
    pub text: Seq<char>,
}

impl View for Chunk {
    type V = ChunkText;

    open spec fn view(&self) -> ChunkText {
        ChunkText { ord: self.ord as nat, heading_path: self.heading_path@, text: self.text@ }
    }
}

/// The contents of some chunks.
pub open spec fn chunk_texts(v: Seq<Chunk>) -> Seq<ChunkText> {
    Seq::new(v.len(), |i: int| v[i]@)
}

/// A contiguous run of body text under a single heading trail.
pub struct Section {
    pub heading_path: String,
    pub text: String,
}

/// The content of a [`Section`].
pub struct SectionText {
    pub heading_path: Seq<char>,
    pub text: Seq<char>,
}

impl View for Section {
    type V = SectionText;

    open spec fn view(&self) -> SectionText {
        SectionText { heading_path: self.heading_path@, text: self.text@ }
    }
}

/// The contents of some sections.
pub open spec fn section_texts(v: Seq<Section>) -> Seq<SectionText> {
    Seq::new(v.len(), |i: int| v[i]@)
}

/// A heading that encloses the text being read.
pub struct Heading {
    pub level: u8,
    pub title: Seq<char>,
}

/// What has been read of a markdown text.
pub struct Reading {
    /// The sections that are closed.
    pub sections: Seq<SectionText>,
    /// The headings that enclose the current text, outermost first.
    pub trail: Seq<Heading>,
    /// The text since the last heading.
    pub current: Seq<char>,
    /// The text of the heading being read, if one is.
    pub heading: Option<Seq<char>>,
}

/// Nothing read yet.
pub open spec fn nothing_read() -> Reading {
    Reading { sections: seq![], trail: seq![], current: seq![], heading: None }
}

/// The titles of a trail that are not empty.
pub open spec fn trail_titles(trail: Seq<Heading>) -> Seq<Seq<char>>
    decreases trail.len(),
{
    if trail.len() == 0 {
        seq![]
    } else if trail.last().title.len() > 0 {
        trail_titles(trail.drop_last()).push(trail.last().title)
    } else {
        trail_titles(trail.drop_last())
    }
}

/// The breadcrumb of a heading trail.
pub open spec fn breadcrumb(trail: Seq<Heading>) -> Seq<char> {
    join(trail_titles(trail), " > "@)
}

/// The headings of a trail that are above `level`.
pub open spec fn above(trail: Seq<Heading>, level: u8) -> Seq<Heading>
    decreases trail.len(),
{
    if trail.len() == 0 {
        seq![]
    } else if trail.last().level < level {
        above(trail.drop_last(), level).push(trail.last())
    } else {
        above(trail.drop_last(), level)
    }
}

/// The current text becomes a section, unless it is blank.
pub open spec fn close_section(r: Reading) -> Reading {
    Reading {
        sections: if trim(r.current).len() > 0 {
            r.sections.push(
                SectionText { heading_path: breadcrumb(r.trail), text: trim(r.current) },
            )
        } else {
            r.sections
        },
        current: seq![],
        ..r
    }
}

/// Text goes to the heading being read, if one is, else to the current text.
pub open spec fn add_text(r: Reading, t: Seq<char>) -> Reading {
    match r.heading {
        Some(h) => Reading { heading: Some(h + t), ..r },
        None => Reading { current: r.current + t, ..r },
    }
}

/// A separator goes to the current text, but not inside a heading.
pub open spec fn add_separator(r: Reading, c: char) -> Reading {
    match r.heading {
        Some(_) => r,
        None => Reading { current: r.current.push(c), ..r },
    }
}

/// One more event read: a heading closes the section before it, and when it
/// ends it takes the place of those at its level or below in the trail.
pub open spec fn read_event(r: Reading, event: EventText) -> Reading {
    match event {
        EventText::HeadingStart => Reading { heading: Some(seq![]), ..close_section(r) },
        EventText::HeadingEnd(level) => Reading {
            trail: above(r.trail, level).push(
                Heading {
                    level,
                    title: match r.heading {
                        Some(h) => trim(h),
                        None => seq![],
                    },
                },
            ),
            heading: None,
            ..r
        },
        EventText::Text(t) => add_text(r, t),
        EventText::Code(t) => add_text(r, t),
        EventText::SoftBreak => add_separator(r, ' '),
        EventText::HardBreak => add_separator(r, ' '),
        EventText::ParagraphEnd => add_separator(r, '\n'),
        EventText::ItemEnd => add_separator(r, '\n'),
        EventText::CodeBlockEnd => add_separator(r, '\n'),
        EventText::Other => r,
    }
}

/// What has been read after some events.
pub open spec fn read_events(events: Seq<EventText>) -> Reading
    decreases events.len(),
{
    if events.len() == 0 {
        nothing_read()
    } else {
        read_event(read_events(events.drop_last()), events.last())
    }
}

/// The sections that a markdown text's events make up.
pub open spec fn sections_of(events: Seq<EventText>) -> Seq<SectionText> {
    close_section(read_events(events)).sections
}

/// The headings of an executable trail.
pub open spec fn trail_view(stack: Seq<(u8, String)>) -> Seq<Heading> {
    Seq::new(stack.len(), |i: int| Heading { level: stack[i].0, title: stack[i].1@ })
}

/// The breadcrumb of a heading trail: its titles that are not empty, joined.
pub fn heading_path(stack: &[(u8, String)]) -> (r: String)
    ensures
        r@ == breadcrumb(trail_view(stack@)),
{
    let mut titles: Vec<String> = Vec::new();
    let ghost trail = trail_view(stack@);
    let mut i: usize = 0;
    assert(texts(titles@) =~= trail_titles(trail.take(0)));
    while i < stack.len()
        invariant
            i <= stack.len(),
            trail == trail_view(stack@),
            texts(titles@) == trail_titles(trail.take(i as int)),
        decreases stack.len() - i,
    {
        let ghost so_far = texts(titles@);
        let title = stack[i].1.as_str();
        if !title.is_empty() {
            titles.push(stack[i].1.clone());
            assert(texts(titles@) =~= so_far.push(title@));
        }
        i += 1;
        assert(trail.take(i as int).drop_last() =~= trail.take(i - 1));
    }
    assert(trail.take(i as int) =~= trail);
    join_texts(titles.as_slice(), " > ")
}

/// Keeps the headings above `level`.
fn keep_above(stack: Vec<(u8, String)>, level: u8) -> (r: Vec<(u8, String)>)
    ensures
        trail_view(r@) == above(trail_view(stack@), level),
{
    let mut kept: Vec<(u8, String)> = Vec::new();
    let ghost trail = trail_view(stack@);
    let mut i: usize = 0;
    assert(trail_view(kept@) =~= above(trail.take(0), level));
    while i < stack.len()
        invariant
            i <= stack.len(),
            trail == trail_view(stack@),
            trail_view(kept@) == above(trail.take(i as int), level),
        decreases stack.len() - i,
    {
        let ghost so_far = trail_view(kept@);
        if stack[i].0 < level {
            kept.push((stack[i].0, stack[i].1.clone()));
            assert(trail_view(kept@) =~= so_far.push(trail[i as int]));
        }
        i += 1;
        assert(trail.take(i as int).drop_last() =~= trail.take(i - 1));
    }
    assert(trail.take(i as int) =~= trail);
    kept
}

/// Closes the current section: its trimmed text, unless that is empty, joins
/// the sections.
fn flush_section(sections: &mut Vec<Section>, stack: &[(u8, String)], text: &str)
    ensures
        section_texts(final(sections)@) == if trim(text@).len() > 0 {
            section_texts(old(sections)@).push(
                SectionText { heading_path: breadcrumb(trail_view(stack@)), text: trim(text@) },
            )
        } else {
            section_texts(old(sections)@)
        },
{
    let chars = to_chars(text);
    let trimmed = strip(chars.as_slice(), Class::Space);
    if trimmed.len() > 0 {
        sections.push(Section { heading_path: heading_path(stack), text: to_text(trimmed) });
        assert(section_texts(sections@) =~= section_texts(old(sections)@).push(
            SectionText { heading_path: breadcrumb(trail_view(stack@)), text: trim(text@) },
        ));
    }
}

/// Walks markdown events, accumulating plain text per heading section.
pub fn sections_from_events(events: &[MarkdownEvent]) -> (r: Vec<Section>)
    ensures
        section_texts(r@) == sections_of(event_texts(events@)),
{
    let mut sections: Vec<Section> = Vec::new();
    let mut stack: Vec<(u8, String)> = Vec::new();
    let mut current: String = String::new();
    let mut heading: Option<String> = None;
    let ghost all = event_texts(events@);
    let mut i: usize = 0;
    proof {
        assert(section_texts(sections@) =~= seq![]);
        assert(trail_view(stack@) =~= seq![]);
    }
    while i < events.len()
        invariant
            i <= events.len(),
            all == event_texts(events@),
            read_events(all.take(i as int)) == (Reading {
                sections: section_texts(sections@),
                trail: trail_view(stack@),
                current: current@,
                heading: crate::text::opt_text(heading),
            }),
        decreases events.len() - i,
    {
        let ghost before = read_events(all.take(i as int));
        match &events[i] {
            MarkdownEvent::HeadingStart => {
                flush_section(&mut sections, stack.as_slice(), current.as_str());
                current = String::new();
                heading = Some(String::new());
            },
            MarkdownEvent::HeadingEnd(level) => {
                let title = match heading {
                    Some(h) => to_text(strip(to_chars(h.as_str()).as_slice(), Class::Space)),
                    None => String::new(),
                };
                heading = None;
                stack = keep_above(stack, *level);
                let ghost kept = trail_view(stack@);
                stack.push((*level, title));
                assert(trail_view(stack@) =~= kept.push(Heading { level: *level, title: title@ }));
            },
            MarkdownEvent::Text(t) | MarkdownEvent::Code(t) => {
                match heading {
                    Some(h) => {
                        let mut h = h;
                        push_text(&mut h, t.as_str());
                        heading = Some(h);
                    },
                    None => {
                        push_text(&mut current, t.as_str());
                        heading = None;
                    },
                }
            },
            MarkdownEvent::SoftBreak | MarkdownEvent::HardBreak => {
                if heading.is_none() {
                    current.push(' ');
                }
            },
            MarkdownEvent::ParagraphEnd | MarkdownEvent::ItemEnd | MarkdownEvent::CodeBlockEnd => {
                if heading.is_none() {
                    current.push('\n');
                }
            },
            MarkdownEvent::Other => {},
        }
        assert(all.take(i + 1).drop_last() =~= all.take(i as int));
        assert(all.take(i + 1).last() == events@[i as int]@);
        i += 1;
    }
    assert(all.take(i as int) =~= all);
    flush_section(&mut sections, stack.as_slice(), current.as_str());
    sections
}

/// Splits a markdown body into its sections.
pub fn split_sections(body: &str) -> (r: Vec<Section>)
    ensures
        section_texts(r@) == sections_of(markdown_events(body@)),
{
    sections_from_events(read_markdown(body).as_slice())
}

/// By how many words a window starts after the one before it.
pub open spec fn window_step(max_tokens: nat, overlap: nat) -> nat {
    if max_tokens > overlap {
        (max_tokens - overlap) as nat
    } else {
        1
    }
}

/// Where the window that starts at `start` ends.
pub open spec fn window_end(n: nat, start: nat, max_tokens: nat) -> nat {
    if start + max_tokens < n {
        start + max_tokens
    } else {
        n
    }
}

/// The windows over `all` from word `start` on; the one that reaches the last
/// word is the last.
pub open spec fn windows_from(
    all: Seq<Seq<char>>,
    start: nat,
    max_tokens: nat,
    overlap: nat,
) -> Seq<Seq<char>>
    decreases all.len() - start,
{
    if start >= all.len() {
        seq![]
    } else {
        let end = window_end(all.len(), start, max_tokens);
        let first = join(all.subrange(start as int, end as int), " "@);
        if end == all.len() {
            seq![first]
        } else {
            seq![first] + windows_from(
                all,
                start + window_step(max_tokens, overlap),
                max_tokens,
                overlap,
            )
        }
    }
}

/// The windows over a text: none over a blank one, one over a text of at most
/// `max_tokens` words, else windows of `max_tokens` words that overlap.
pub open spec fn windows(text: Seq<char>, max_tokens: nat, overlap: nat) -> Seq<Seq<char>> {
    let all = words(text);
    if all.len() == 0 {
        seq![]
    } else if all.len() <= max_tokens {
        seq![join(all, " "@)]
    } else {
        windows_from(all, 0, max_tokens, overlap)
    }
}

/// Splits text into overlapping word windows.
pub fn window(text: &str, max_tokens: usize, overlap: usize) -> (r: Vec<String>)
    ensures
        texts(r@) == windows(text@, max_tokens as nat, overlap as nat),
{
    let chars = to_chars(text);
    let all = split_words(chars.as_slice());
    let ghost spec_words = words(text@);
    let mut out: Vec<String> = Vec::new();
    if all.len() == 0 {
        assert(slices(all@).len() == 0);
        assert(texts(out@) =~= seq![]);
        return out;
    }
    assert(slices(all@).len() == all@.len());
    if all.len() <= max_tokens {
        out.push(join_slices(all.as_slice(), " "));
        assert(texts(out@) =~= seq![join(spec_words, " "@)]);
        return out;
    }
    let step: usize = if max_tokens > overlap {
        max_tokens - overlap
    } else {
        1
    };
    let mut start: usize = 0;
    assert(texts(out@) + windows_from(spec_words, 0, max_tokens as nat, overlap as nat)
        =~= windows_from(spec_words, 0, max_tokens as nat, overlap as nat));
    while start < all.len()
        invariant
            spec_words == slices(all@),
            spec_words.len() == all.len(),
            max_tokens < all.len(),
            step == window_step(max_tokens as nat, overlap as nat),
            windows_from(spec_words, 0, max_tokens as nat, overlap as nat) == texts(out@)
                + windows_from(spec_words, start as nat, max_tokens as nat, overlap as nat),
            windows(text@, max_tokens as nat, overlap as nat) == windows_from(
                spec_words,
                0,
                max_tokens as nat,
                overlap as nat,
            ),
        decreases all.len() - start,
    {
        let end: usize = if max_tokens < all.len() - start {
            start + max_tokens
        } else {
            all.len()
        };
        let ghost so_far = texts(out@);
        let part = slice_subrange(all.as_slice(), start, end);
        assert(slices(part@) =~= spec_words.subrange(start as int, end as int));
        let piece = join_slices(part, " ");
        out.push(piece);
        assert(texts(out@) =~= so_far.push(piece@));
        if end == all.len() {
            assert(so_far + seq![piece@] =~= texts(out@));
            return out;
        }
        let ghost rest = windows_from(
            spec_words,
            (start + step) as nat,
            max_tokens as nat,
            overlap as nat,
        );
        assert(so_far + (seq![piece@] + rest) =~= texts(out@) + rest);
        if step >= all.len() - start {
            assert(rest =~= seq![]);
            assert(texts(out@) + rest =~= texts(out@));
            return out;
        }
        start += step;
    }
    assert(texts(out@) + seq![] =~= texts(out@));
    out
}

/// The chunks of `texts` under one heading trail, numbered from `ord`.
pub open spec fn numbered(
    heading_path: Seq<char>,
    pieces: Seq<Seq<char>>,
    ord: nat,
) -> Seq<ChunkText> {
    Seq::new(
        pieces.len(),
        |i: int| ChunkText { ord: (ord + i) as nat, heading_path, text: pieces[i] },
    )
}

/// The chunks of some sections, numbered through.
pub open spec fn chunks_of(
    sections: Seq<SectionText>,
    max_tokens: nat,
    overlap: nat,
) -> Seq<ChunkText>
    decreases sections.len(),
{
    if sections.len() == 0 {
        seq![]
    } else {
        let before = chunks_of(sections.drop_last(), max_tokens, overlap);
        let last = sections.last();
        before + numbered(
            last.heading_path,
            windows(last.text, max_tokens, overlap),
            before.len(),
        )
    }
}

/// Windows each section into chunks, numbered through.
pub fn chunk_sections(sections: &[Section], max_tokens: usize, overlap: usize) -> (r: Vec<Chunk>)
    ensures
        chunk_texts(r@) == chunks_of(section_texts(sections@), max_tokens as nat, overlap as nat),
{
    let mut chunks: Vec<Chunk> = Vec::new();
    let ghost all = section_texts(sections@);
    let mut i: usize = 0;
    assert(chunk_texts(chunks@) =~= chunks_of(all.take(0), max_tokens as nat, overlap as nat));
    while i < sections.len()
        invariant
            i <= sections.len(),
            all == section_texts(sections@),
            chunk_texts(chunks@) == chunks_of(
                all.take(i as int),
                max_tokens as nat,
                overlap as nat,
            ),
        decreases sections.len() - i,
    {
        let section = &sections[i];
        let pieces = window(section.text.as_str(), max_tokens, overlap);
        let ghost before = chunk_texts(chunks@);
        let ghost new = numbered(section.heading_path@, texts(pieces@), before.len());
        let mut k: usize = 0;
        assert(before + new.take(0) =~= before);
        while k < pieces.len()
            invariant
                k <= pieces.len(),
                new == numbered(section.heading_path@, texts(pieces@), before.len()),
                chunk_texts(chunks@) == before + new.take(k as int),
            decreases pieces.len() - k,
        {
            let ghost so_far = chunk_texts(chunks@);
            let chunk = Chunk {
                ord: chunks.len(),
                heading_path: section.heading_path.clone(),
                text: pieces[k].clone(),
            };
            chunks.push(chunk);
            assert(so_far.len() == before.len() + k);
            assert(chunk@ == new[k as int]);
            assert(chunk_texts(chunks@) =~= so_far.push(new[k as int]));
            k += 1;
            assert(before + new.take(k as int) =~= (before + new.take(k - 1)).push(new[k - 1]));
        }
        assert(new.take(k as int) =~= new);
        assert(all.take(i + 1).drop_last() =~= all.take(i as int));
        assert(all.take(i + 1).last() == section@);
        i += 1;
    }
    assert(all.take(i as int) =~= all);
    chunks
}

/// Splits markdown into heading-delimited sections, then windows each section
/// into chunks of `max_tokens` words (split at white space) with `overlap`.
pub fn chunk_markdown(body: &str, max_tokens: usize, overlap: usize) -> (r: Vec<Chunk>)
    ensures
        chunk_texts(r@) == chunks_of(
            sections_of(markdown_events(body@)),
            max_tokens as nat,
            overlap as nat,
        ),
{
    chunk_sections(split_sections(body).as_slice(), max_tokens, overlap)
}

} // verus!
