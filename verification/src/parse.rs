//! Markdown documents: frontmatter, title, wikilinks and tags.
use vstd::prelude::*;
use vstd::slice::slice_subrange;

use crate::outside::{read_yaml_field, yaml_field, FieldText, YamlField};
use crate::paths::{file_stem, stem_of_path};
use crate::text::{
    after_prefix, before, begins_with, distinct, find, find_from, lines, occurs_at, opt_text,
    push_new, slices, split_at, split_char, split_lines, stands_at, strip, strip_start, texts,
    to_chars, to_text, trim, trimmed, trimmed_start, up_to, Class,
};

verus! {

/// The result of parsing a markdown document.
#[derive(Debug)]
pub struct ParsedDoc {
    /// Best-effort document title.
    pub title: String,
    /// Raw YAML frontmatter block, if present (without the `---` fences).
    pub frontmatter: Option<String>,
    /// Body markdown with the frontmatter stripped.
    pub body: String,
    /// `[[wikilink]]` targets found in the body (alias and heading stripped),
    /// those of embeds among them.
    pub links: Vec<String>,
    /// The subset of `links` that were `![[embed]]` transclusions.
    pub embeds: Vec<String>,
    /// Tags from frontmatter `tags:` and inline `#tag` occurrences in the body
    /// (deduplicated, `#`-prefix stripped).
    pub tags: Vec<String>,
}

/// The texts of a [`ParsedDoc`].
pub struct ParsedText {
    pub title: Seq<char>,
    pub frontmatter: Option<Seq<char>>,
    pub body: Seq<char>,
    pub links: Seq<Seq<char>>,
    pub embeds: Seq<Seq<char>>,
    pub tags: Seq<Seq<char>>,
}

impl View for ParsedDoc {
    type V = ParsedText;

    open spec fn view(&self) -> ParsedText {
        ParsedText {
            title: self.title@,
            frontmatter: opt_text(self.frontmatter),
            body: self.body@,
            links: texts(self.links@),
            embeds: texts(self.embeds@),
            tags: texts(self.tags@),
        }
    }
}

/// Whether a closing fence stands in `rest` at index `i`: a line of three
/// dashes, counted from the line feed before it.
pub open spec fn fence_at(rest: Seq<char>, i: int) -> bool {
    occurs_at(rest, "\n---"@, i) && (i + "\n---"@.len() == rest.len() || rest[i + "\n---"@.len()]
        == '\n')
}

/// The index of the first closing fence at or after `i`.
pub open spec fn first_fence(rest: Seq<char>, i: int) -> Option<int>
    decreases rest.len() - i,
{
    if i < 0 || i >= rest.len() {
        None
    } else if fence_at(rest, i) {
        Some(i)
    } else {
        first_fence(rest, i + 1)
    }
}

/// Frontmatter and body: the frontmatter stands between a first line of three
/// dashes and the first closing fence; without both, all is body.
pub open spec fn frontmatter_and_body(content: Seq<char>) -> (Option<Seq<char>>, Seq<char>) {
    let rest = content.skip("---\n"@.len() as int);
    if !"---\n"@.is_prefix_of(content) {
        (None, content)
    } else {
        match first_fence(rest, 0) {
            Some(i) => {
                let after = rest.skip(i + "\n---"@.len());
                (
                    Some(rest.take(i)),
                    if after.len() > 0 {
                        after.skip(1)
                    } else {
                        after
                    },
                )
            },
            None => (None, content),
        }
    }
}

/// Splits a leading `---` ... `---` YAML frontmatter block from the body.
pub fn split_frontmatter(content: &[char]) -> (r: (Option<&[char]>, &[char]))
    ensures
        r.0 is Some <==> frontmatter_and_body(content@).0 is Some,
        r.0 is Some ==> Some(r.0->0@) == frontmatter_and_body(content@).0,
        r.1@ == frontmatter_and_body(content@).1,
{
    proof {
        reveal_strlit("\n---");
    }
    let rest = match after_prefix(content, "---\n") {
        Some(r) => r,
        None => return (None, content),
    };
    let mut i: usize = 0;
    while i < rest.len()
        invariant
            i <= rest.len(),
            "\n---"@.len() == 4,
            rest@ == content@.skip("---\n"@.len() as int),
            "---\n"@.is_prefix_of(content@),
            first_fence(rest@, 0) == first_fence(rest@, i as int),
        decreases rest.len() - i,
    {
        if stands_at(rest, "\n---", i) && (i + 4 == rest.len() || rest[i + 4] == '\n') {
            let after = slice_subrange(rest, i + 4, rest.len());
            assert(after@ =~= rest@.skip(i + 4));
            let fm = slice_subrange(rest, 0, i);
            assert(fm@ =~= rest@.take(i as int));
            let body = if after.len() > 0 {
                slice_subrange(after, 1, after.len())
            } else {
                after
            };
            assert(after@.len() > 0 ==> body@ =~= after@.skip(1));
            return (Some(fm), body);
        }
        i += 1;
    }
    (None, content)
}

/// The value of a line `title: ...`, without quotes; empty if it is no such line.
pub open spec fn title_value(line: Seq<char>) -> Seq<char> {
    let t = trim(line);
    if "title:"@.is_prefix_of(t) {
        trim(trimmed(trim(t.skip("title:"@.len() as int)), Class::Quote))
    } else {
        seq![]
    }
}

/// The first non-empty title among `all[k..]`.
pub open spec fn title_from(all: Seq<Seq<char>>, k: int) -> Option<Seq<char>>
    decreases all.len() - k,
{
    if k < 0 || k >= all.len() {
        None
    } else if title_value(all[k]).len() > 0 {
        Some(title_value(all[k]))
    } else {
        title_from(all, k + 1)
    }
}

/// Extracts a `title:` value from a YAML frontmatter block (simple line scan).
pub fn frontmatter_title(fm: &[char]) -> (r: Option<String>)
    ensures
        opt_text(r) == title_from(lines(fm@), 0),
{
    let all = split_lines(fm);
    let mut k: usize = 0;
    while k < all.len()
        invariant
            k <= all.len(),
            slices(all@) == lines(fm@),
            title_from(lines(fm@), 0) == title_from(lines(fm@), k as int),
        decreases all.len() - k,
    {
        let line = all[k];
        assert(lines(fm@)[k as int] == line@);
        if let Some(rest) = after_prefix(strip(line, Class::Space), "title:") {
            let value = strip(
                strip(strip(rest, Class::Space), Class::Quote),
                Class::Space,
            );
            if value.len() > 0 {
                return Some(to_text(value));
            }
        }
        k += 1;
    }
    None
}

/// Whether a line opens or closes a fenced code block.
pub open spec fn is_code_fence(line: Seq<char>) -> bool {
    let t = trimmed_start(line, Class::Space);
    "```"@.is_prefix_of(t) || "~~~"@.is_prefix_of(t)
}

fn code_fence(line: &[char]) -> (r: bool)
    ensures
        r == is_code_fence(line@),
{
    let t = strip_start(line, Class::Space);
    begins_with(t, "```") || begins_with(t, "~~~")
}

/// The text of a line `# ...`; empty if it is no such line.
pub open spec fn h1_value(line: Seq<char>) -> Seq<char> {
    let t = trimmed_start(line, Class::Space);
    if "# "@.is_prefix_of(t) {
        trim(t.skip("# "@.len() as int))
    } else {
        seq![]
    }
}

/// The first non-empty level-one heading among `all[k..]`, where `in_code`
/// says whether `all[k]` stands in a fenced code block.
pub open spec fn h1_from(all: Seq<Seq<char>>, k: int, in_code: bool) -> Option<Seq<char>>
    decreases all.len() - k,
{
    if k < 0 || k >= all.len() {
        None
    } else if is_code_fence(all[k]) {
        h1_from(all, k + 1, !in_code)
    } else if !in_code && h1_value(all[k]).len() > 0 {
        Some(h1_value(all[k]))
    } else {
        h1_from(all, k + 1, in_code)
    }
}

/// First ATX H1 heading (`# Title`) in the body, outside fenced code blocks.
pub fn first_h1(body: &[char]) -> (r: Option<String>)
    ensures
        opt_text(r) == h1_from(lines(body@), 0, false),
{
    let all = split_lines(body);
    let mut in_code = false;
    let mut k: usize = 0;
    while k < all.len()
        invariant
            k <= all.len(),
            slices(all@) == lines(body@),
            h1_from(lines(body@), 0, false) == h1_from(lines(body@), k as int, in_code),
        decreases all.len() - k,
    {
        let line = all[k];
        assert(lines(body@)[k as int] == line@);
        k += 1;
        if code_fence(line) {
            in_code = !in_code;
            continue;
        }
        if !in_code {
            if let Some(rest) = after_prefix(strip_start(line, Class::Space), "# ") {
                let title = strip(rest, Class::Space);
                if title.len() > 0 {
                    return Some(to_text(title));
                }
            }
        }
    }
    None
}

/// Title precedence: frontmatter `title:`, first H1, file stem, `untitled`.
pub open spec fn title_of(
    path: Seq<char>,
    frontmatter: Option<Seq<char>>,
    body: Seq<char>,
) -> Seq<char> {
    let declared = match frontmatter {
        Some(fm) => title_from(lines(fm), 0),
        None => None,
    };
    match (declared, h1_from(lines(body), 0, false), file_stem(path)) {
        (Some(t), _, _) => t,
        (None, Some(t), _) => t,
        (None, None, Some(t)) => t,
        (None, None, None) => "untitled"@,
    }
}

/// The text of optional characters.
pub open spec fn opt_chars(s: Option<&[char]>) -> Option<Seq<char>> {
    match s {
        Some(c) => Some(c@),
        None => None,
    }
}

/// Derives a title: frontmatter `title:`, first H1, file stem, `untitled`.
pub fn derive_title(path: &str, frontmatter: Option<&[char]>, body: &[char]) -> (r: String)
    ensures
        r@ == title_of(path@, opt_chars(frontmatter), body@),
{
    if let Some(fm) = frontmatter {
        if let Some(title) = frontmatter_title(fm) {
            return title;
        }
    }
    if let Some(h1) = first_h1(body) {
        return h1;
    }
    match stem_of_path(path) {
        Some(stem) => stem,
        None => "untitled".to_string(),
    }
}

/// A wikilink of a body: its target, and whether it is an embed.
pub struct Wikilink {
    pub target: Seq<char>,
    pub embed: bool,
}

/// The target of a wikilink, without its alias and heading.
pub open spec fn link_target(inner: Seq<char>) -> Seq<char> {
    trim(before(before(inner, '|'), '#'))
}

pub proof fn find_from_bounds(s: Seq<char>, p: Seq<char>, i: int)
    ensures
        find_from(s, p, i) is Some ==> {
            &&& 0 <= i <= find_from(s, p, i)->0
            &&& find_from(s, p, i)->0 + p.len() <= s.len()
        },
    decreases s.len() + 1 - i,
{
    if 0 <= i && i + p.len() <= s.len() && !occurs_at(s, p, i) {
        find_from_bounds(s, p, i + 1);
    }
}

/// The wikilinks of `s` that open at or after `i`: each runs from a `[[` to the
/// next `]]`, and the search goes on behind that; one with an empty target is
/// passed over.
pub open spec fn wikilinks(s: Seq<char>, i: int) -> Seq<Wikilink>
    decreases s.len() - i,
    when 0 <= i
    via wikilinks_decreases
{
    if i + 1 >= s.len() {
        seq![]
    } else if s[i] == '[' && s[i + 1] == '[' {
        match find_from(s, "]]"@, i + 2) {
            Some(end) => {
                let target = link_target(s.subrange(i + 2, end));
                let rest = wikilinks(s, end + "]]"@.len());
                if target.len() == 0 {
                    rest
                } else {
                    seq![Wikilink { target, embed: i > 0 && s[i - 1] == '!' }] + rest
                }
            },
            None => wikilinks(s, i + 1),
        }
    } else {
        wikilinks(s, i + 1)
    }
}

#[via_fn]
proof fn wikilinks_decreases(s: Seq<char>, i: int) {
    find_from_bounds(s, "]]"@, i + 2);
}

/// The targets of some wikilinks.
pub open spec fn targets(v: Seq<Wikilink>) -> Seq<Seq<char>> {
    Seq::new(v.len(), |i: int| v[i].target)
}

/// The targets of those wikilinks that are embeds.
pub open spec fn embed_targets(v: Seq<Wikilink>) -> Seq<Seq<char>>
    decreases v.len(),
{
    if v.len() == 0 {
        seq![]
    } else if v.last().embed {
        embed_targets(v.drop_last()).push(v.last().target)
    } else {
        embed_targets(v.drop_last())
    }
}

/// Collects `[[wikilink]]` targets, each once, in the order of their first
/// occurrence: those of all wikilinks, and those of the embeds.
pub fn extract_wikilinks(body: &str) -> (r: (Vec<String>, Vec<String>))
    ensures
        texts(r.0@) == distinct(targets(wikilinks(body@, 0))),
        texts(r.1@) == distinct(embed_targets(wikilinks(body@, 0))),
{
    wikilinks_of(to_chars(body).as_slice())
}

pub(crate) fn wikilinks_of(s: &[char]) -> (r: (Vec<String>, Vec<String>))
    ensures
        texts(r.0@) == distinct(targets(wikilinks(s@, 0))),
        texts(r.1@) == distinct(embed_targets(wikilinks(s@, 0))),
{
    proof {
        reveal_strlit("]]");
    }
    let mut links: Vec<String> = Vec::new();
    let mut embeds: Vec<String> = Vec::new();
    let ghost mut found: Seq<Wikilink> = seq![];
    let mut i: usize = 0;
    proof {
        assert(texts(links@) =~= distinct(targets(found)));
        assert(texts(embeds@) =~= distinct(embed_targets(found)));
        assert(found + wikilinks(s@, 0) =~= wikilinks(s@, 0));
    }
    while i < s.len() && 1 < s.len() - i
        invariant
            i <= s.len(),
            "]]"@.len() == 2,
            wikilinks(s@, 0) == found + wikilinks(s@, i as int),
            texts(links@) == distinct(targets(found)),
            texts(embeds@) == distinct(embed_targets(found)),
        decreases s.len() - i,
    {
        if s[i] == '[' && s[i + 1] == '[' {
            if let Some(end) = find(s, "]]", i + 2) {
                let inner = slice_subrange(s, i + 2, end);
                let target = strip(up_to(up_to(inner, '|'), '#'), Class::Space);
                let is_embed = i > 0 && s[i - 1] == '!';
                if target.len() > 0 {
                    push_new(&mut links, target);
                    if is_embed {
                        push_new(&mut embeds, target);
                    }
                    proof {
                        let link = Wikilink { target: target@, embed: is_embed };
                        let next = found.push(link);
                        assert(next.drop_last() =~= found);
                        assert(targets(next).drop_last() =~= targets(found));
                        assert(targets(next).last() == target@);
                        if is_embed {
                            assert(embed_targets(next).drop_last() =~= embed_targets(found));
                        }
                        assert(found + (seq![link] + wikilinks(s@, end + 2)) =~= next + wikilinks(
                            s@,
                            end + 2,
                        ));
                        found = next;
                    }
                }
                i = end + 2;
                continue;
            }
        }
        i += 1;
    }
    proof {
        assert(wikilinks(s@, i as int) =~= seq![]);
        assert(found + seq![] =~= found);
    }
    (links, embeds)
}

/// The trimmed texts of a list that are not empty.
pub open spec fn kept_items(items: Seq<Option<Seq<char>>>) -> Seq<Seq<char>>
    decreases items.len(),
{
    if items.len() == 0 {
        seq![]
    } else {
        let rest = kept_items(items.drop_last());
        match items.last() {
            Some(t) => if trim(t).len() > 0 {
                rest.push(trim(t))
            } else {
                rest
            },
            None => rest,
        }
    }
}

/// Each text as an item of a list.
pub open spec fn as_items(v: Seq<Seq<char>>) -> Seq<Option<Seq<char>>> {
    Seq::new(v.len(), |i: int| Some(v[i]))
}

/// The texts of a list-valued frontmatter field: the strings of a sequence, or
/// a string's comma-separated parts.
pub open spec fn field_items(field: FieldText) -> Seq<Seq<char>> {
    match field {
        FieldText::List(items) => kept_items(items),
        FieldText::Text(s) => kept_items(as_items(split_at(s, ','))),
        FieldText::Missing | FieldText::Other => seq![],
    }
}

fn push_kept(out: &mut Vec<String>, item: &[char])
    ensures
        texts(final(out)@) == if trim(item@).len() > 0 {
            texts(old(out)@).push(trim(item@))
        } else {
            texts(old(out)@)
        },
{
    let t = strip(item, Class::Space);
    if t.len() > 0 {
        out.push(to_text(t));
        assert(texts(out@) =~= texts(old(out)@).push(trim(item@)));
    }
}

/// The texts of a list-valued frontmatter field.
pub fn list_from_field(field: &YamlField) -> (r: Vec<String>)
    ensures
        texts(r@) == field_items(field@),
{
    let mut out: Vec<String> = Vec::new();
    assert(texts(out@) =~= seq![]);
    match field {
        YamlField::List(items) => {
            let ghost all = Seq::new(items@.len(), |i: int| opt_text(items@[i]));
            let mut k: usize = 0;
            while k < items.len()
                invariant
                    k <= items.len(),
                    all == Seq::new(items@.len(), |i: int| opt_text(items@[i])),
                    texts(out@) == kept_items(all.take(k as int)),
                decreases items.len() - k,
            {
                if let Some(t) = &items[k] {
                    push_kept(&mut out, to_chars(t.as_str()).as_slice());
                }
                k += 1;
                assert(all.take(k as int).drop_last() =~= all.take(k - 1));
            }
            assert(all.take(k as int) =~= all);
        },
        YamlField::Text(s) => {
            let s = to_chars(s.as_str());
            let parts = split_char(s.as_slice(), ',');
            let ghost all = as_items(split_at(s@, ','));
            let mut k: usize = 0;
            while k < parts.len()
                invariant
                    k <= parts.len(),
                    slices(parts@) == split_at(s@, ','),
                    all == as_items(split_at(s@, ',')),
                    texts(out@) == kept_items(all.take(k as int)),
                decreases parts.len() - k,
            {
                push_kept(&mut out, parts[k]);
                assert(slices(parts@)[k as int] == parts@[k as int]@);
                k += 1;
                assert(all.take(k as int).drop_last() =~= all.take(k - 1));
            }
            assert(all.take(k as int) =~= all);
        },
        _ => {},
    }
    out
}

/// Extracts a frontmatter list-valued field (`aliases:`/`tags:`) in any of its
/// three forms: inline YAML list (`[a, b]`), block YAML list (`- a`/`- b`), and
/// comma shorthand (`a, b`).
pub fn extract_frontmatter_list(frontmatter: &str, key: &str) -> (r: Vec<String>)
    ensures
        texts(r@) == field_items(yaml_field(frontmatter@, key@)),
{
    list_from_field(&read_yaml_field(frontmatter, key))
}

/// A note's frontmatter `aliases:`.
pub fn extract_aliases(frontmatter: &str) -> (r: Vec<String>)
    ensures
        texts(r@) == field_items(yaml_field(frontmatter@, "aliases"@)),
{
    extract_frontmatter_list(frontmatter, "aliases")
}

/// ASCII letters.
pub open spec fn is_letter(c: char) -> bool {
    'a' <= c <= 'z' || 'A' <= c <= 'Z'
}

/// ASCII letters and digits.
pub open spec fn is_alnum(c: char) -> bool {
    is_letter(c) || '0' <= c <= '9'
}

/// The characters of an inline tag.
pub open spec fn is_tag_char(c: char) -> bool {
    is_alnum(c) || c == '_' || c == '-' || c == '/'
}

/// Whether an inline tag opens in `line` at index `i`.
pub open spec fn tag_opens(line: Seq<char>, i: int) -> bool {
    &&& 0 <= i < line.len() - 1
    &&& line[i] == '#'
    &&& i == 0 || !is_alnum(line[i - 1])
    &&& is_letter(line[i + 1]) || line[i + 1] == '_' || line[i + 1] == '/'
}

/// The first index at or after `i` that holds no tag character, or the length.
pub open spec fn tag_end(line: Seq<char>, i: int) -> int
    decreases line.len() - i,
{
    if i < 0 || i >= line.len() {
        line.len() as int
    } else if is_tag_char(line[i]) {
        tag_end(line, i + 1)
    } else {
        i
    }
}

pub proof fn tag_end_bounds(line: Seq<char>, i: int)
    requires
        0 <= i <= line.len(),
    ensures
        i <= tag_end(line, i) <= line.len(),
        forall|k: int| i <= k < tag_end(line, i) ==> is_tag_char(line[k]),
    decreases line.len() - i,
{
    if i < line.len() && is_tag_char(line[i]) {
        tag_end_bounds(line, i + 1);
    }
}

/// The inline tags that open in `line` at or after index `i`.
pub open spec fn line_tags(line: Seq<char>, i: int) -> Seq<Seq<char>>
    decreases line.len() - i,
    when 0 <= i
    via line_tags_decreases
{
    if i >= line.len() {
        seq![]
    } else if tag_opens(line, i) {
        let end = tag_end(line, i + 1);
        seq![line.subrange(i + 1, end)] + line_tags(line, end)
    } else {
        line_tags(line, i + 1)
    }
}

#[via_fn]
proof fn line_tags_decreases(line: Seq<char>, i: int) {
    if tag_opens(line, i) {
        tag_end_bounds(line, i + 1);
    }
}

/// Whether a line is an ATX heading: number signs, then a space.
pub open spec fn is_heading(line: Seq<char>) -> bool {
    let t = trimmed_start(line, Class::Space);
    "#"@.is_prefix_of(t) && " "@.is_prefix_of(trimmed_start(t, Class::Hash))
}

/// The inline tags of `all[k..]`, where `in_code` says whether `all[k]` stands
/// in a fenced code block; code and headings have none.
pub open spec fn tags_from(all: Seq<Seq<char>>, k: int, in_code: bool) -> Seq<Seq<char>>
    decreases all.len() - k,
{
    if k < 0 || k >= all.len() {
        seq![]
    } else if is_code_fence(all[k]) {
        tags_from(all, k + 1, !in_code)
    } else if in_code || is_heading(all[k]) {
        tags_from(all, k + 1, in_code)
    } else {
        line_tags(all[k], 0) + tags_from(all, k + 1, in_code)
    }
}

fn letter(c: char) -> (r: bool)
    ensures
        r == is_letter(c),
{
    ('a' <= c && c <= 'z') || ('A' <= c && c <= 'Z')
}

fn alnum(c: char) -> (r: bool)
    ensures
        r == is_alnum(c),
{
    letter(c) || ('0' <= c && c <= '9')
}

fn tag_char(c: char) -> (r: bool)
    ensures
        r == is_tag_char(c),
{
    alnum(c) || c == '_' || c == '-' || c == '/'
}

fn heading(line: &[char]) -> (r: bool)
    ensures
        r == is_heading(line@),
{
    let t = strip_start(line, Class::Space);
    begins_with(t, "#") && begins_with(strip_start(t, Class::Hash), " ")
}

fn push_line_tags(out: &mut Vec<String>, line: &[char])
    ensures
        texts(final(out)@) == texts(old(out)@) + line_tags(line@, 0),
{
    let mut i: usize = 0;
    while i < line.len()
        invariant
            i <= line.len(),
            texts(old(out)@) + line_tags(line@, 0) == texts(out@) + line_tags(line@, i as int),
        decreases line.len() - i,
    {
        let opens = line[i] == '#' && (i == 0 || !alnum(line[i - 1])) && 1 < line.len() - i && (
        letter(line[i + 1]) || line[i + 1] == '_' || line[i + 1] == '/');
        if opens {
            let mut end: usize = i + 1;
            while end < line.len() && tag_char(line[end])
                invariant
                    i + 1 <= end <= line.len(),
                    tag_end(line@, i + 1) == tag_end(line@, end as int),
                decreases line.len() - end,
            {
                end += 1;
            }
            proof {
                tag_end_bounds(line@, i + 1);
            }
            let ghost so_far = texts(out@);
            let tag = slice_subrange(line, i + 1, end);
            out.push(to_text(tag));
            assert(texts(out@) =~= so_far.push(tag@));
            assert(so_far + (seq![tag@] + line_tags(line@, end as int)) =~= texts(out@) + line_tags(
                line@,
                end as int,
            ));
            i = end;
            continue;
        }
        i += 1;
    }
    assert(line_tags(line@, i as int) =~= seq![]);
    assert(texts(out@) + seq![] =~= texts(out@));
}

/// Inline `#tag` occurrences in the body text, outside fenced code blocks and
/// headings.
pub fn extract_inline_tags(body: &str) -> (r: Vec<String>)
    ensures
        texts(r@) == tags_from(lines(body@), 0, false),
{
    inline_tags_of(to_chars(body).as_slice())
}

pub(crate) fn inline_tags_of(body: &[char]) -> (r: Vec<String>)
    ensures
        texts(r@) == tags_from(lines(body@), 0, false),
{
    let all = split_lines(body);
    let mut out: Vec<String> = Vec::new();
    let mut in_code = false;
    let mut k: usize = 0;
    assert(texts(out@) + tags_from(lines(body@), 0, false) =~= tags_from(lines(body@), 0, false));
    while k < all.len()
        invariant
            k <= all.len(),
            slices(all@) == lines(body@),
            tags_from(lines(body@), 0, false) == texts(out@) + tags_from(
                lines(body@),
                k as int,
                in_code,
            ),
        decreases all.len() - k,
    {
        let line = all[k];
        assert(lines(body@)[k as int] == line@);
        k += 1;
        if code_fence(line) {
            in_code = !in_code;
            continue;
        }
        if in_code || heading(line) {
            continue;
        }
        let ghost so_far = texts(out@);
        push_line_tags(&mut out, line);
        assert(so_far + (line_tags(line@, 0) + tags_from(lines(body@), k as int, in_code))
            =~= texts(out@) + tags_from(lines(body@), k as int, in_code));
    }
    assert(texts(out@) + seq![] =~= texts(out@));
    out
}

/// The texts without the number signs at their start, but for the empty ones.
pub open spec fn without_hashes(v: Seq<Seq<char>>) -> Seq<Seq<char>>
    decreases v.len(),
{
    if v.len() == 0 {
        seq![]
    } else {
        let rest = without_hashes(v.drop_last());
        let t = trimmed_start(v.last(), Class::Hash);
        if t.len() > 0 {
            rest.push(t)
        } else {
            rest
        }
    }
}

/// The tags of a document: those its frontmatter lists, then those of its body,
/// each once.
pub open spec fn all_tags(field: FieldText, body: Seq<char>) -> Seq<Seq<char>> {
    distinct(without_hashes(field_items(field)) + tags_from(lines(body), 0, false))
}

/// Merges the tags that a frontmatter field lists with those of the body.
pub fn merge_tags(field: &YamlField, body: &[char]) -> (r: Vec<String>)
    ensures
        texts(r@) == all_tags(field@, body@),
{
    let listed = list_from_field(field);
    let inline = inline_tags_of(body);
    let mut tags: Vec<String> = Vec::new();
    let ghost all = without_hashes(texts(listed@));
    assert(texts(tags@) =~= distinct(without_hashes(texts(listed@).take(0))));
    let mut k: usize = 0;
    while k < listed.len()
        invariant
            k <= listed.len(),
            texts(tags@) == distinct(without_hashes(texts(listed@).take(k as int))),
        decreases listed.len() - k,
    {
        let item = to_chars(listed[k].as_str());
        let t = strip_start(item.as_slice(), Class::Hash);
        proof {
            let next = texts(listed@).take(k + 1);
            assert(next.drop_last() =~= texts(listed@).take(k as int));
            assert(next.last() == item@);
            assert(without_hashes(next).len() > 0 && t@.len() > 0 ==> without_hashes(
                next,
            ).drop_last() =~= without_hashes(texts(listed@).take(k as int)));
        }
        if t.len() > 0 {
            push_new(&mut tags, t);
        }
        k += 1;
    }
    assert(texts(listed@).take(k as int) =~= texts(listed@));
    let ghost body_tags = texts(inline@);
    assert(all + body_tags.take(0) =~= all);
    let mut k: usize = 0;
    while k < inline.len()
        invariant
            k <= inline.len(),
            body_tags == texts(inline@),
            texts(tags@) == distinct(all + body_tags.take(k as int)),
        decreases inline.len() - k,
    {
        push_new(&mut tags, to_chars(inline[k].as_str()).as_slice());
        k += 1;
        assert((all + body_tags.take(k as int)).drop_last() =~= all + body_tags.take(k - 1));
        assert((all + body_tags.take(k as int)).last() == body_tags[k - 1]);
    }
    assert(body_tags.take(k as int) =~= body_tags);
    tags
}

/// What the frontmatter of a document, if any, holds under `tags`.
pub open spec fn tags_field(frontmatter: Option<Seq<char>>) -> FieldText {
    match frontmatter {
        Some(fm) => yaml_field(fm, "tags"@),
        None => FieldText::Missing,
    }
}

fn read_tags_field(frontmatter: Option<&str>) -> (r: YamlField)
    ensures
        r@ == tags_field(
            match frontmatter {
                Some(fm) => Some(fm@),
                None => None,
            },
        ),
{
    match frontmatter {
        Some(fm) => read_yaml_field(fm, "tags"),
        None => YamlField::Missing,
    }
}

/// Tags from frontmatter `tags:` plus inline `#tag` occurrences in the body,
/// each once.
pub fn extract_tags(frontmatter: Option<&str>, body: &str) -> (r: Vec<String>)
    ensures
        texts(r@) == all_tags(
            tags_field(
                match frontmatter {
                    Some(fm) => Some(fm@),
                    None => None,
                },
            ),
            body@,
        ),
{
    merge_tags(&read_tags_field(frontmatter), to_chars(body).as_slice())
}

/// What parsing yields for a document whose frontmatter holds `field` under
/// `tags`.
pub open spec fn parsed(path: Seq<char>, content: Seq<char>, field: FieldText) -> ParsedText {
    let (frontmatter, body) = frontmatter_and_body(content);
    ParsedText {
        title: title_of(path, frontmatter, body),
        frontmatter,
        body,
        links: distinct(targets(wikilinks(body, 0))),
        embeds: distinct(embed_targets(wikilinks(body, 0))),
        tags: all_tags(field, body),
    }
}

/// Assembles a parsed document from its text and what its frontmatter holds
/// under `tags`.
pub fn assemble(path: &str, content: &str, field: &YamlField) -> (r: ParsedDoc)
    ensures
        r@ == parsed(path@, content@, field@),
{
    let chars = to_chars(content);
    let (frontmatter, body) = split_frontmatter(chars.as_slice());
    let title = derive_title(path, frontmatter, body);
    let (links, embeds) = wikilinks_of(body);
    let tags = merge_tags(field, body);
    ParsedDoc {
        title,
        frontmatter: match frontmatter {
            Some(fm) => Some(to_text(fm)),
            None => None,
        },
        body: to_text(body),
        links,
        embeds,
        tags,
    }
}

/// Parses markdown text: splits the frontmatter, derives a title, collects
/// wikilinks, embeds and tags.
pub fn parse_markdown(path: &str, content: &str) -> (r: ParsedDoc)
    ensures
        r@ == parsed(path@, content@, tags_field(frontmatter_and_body(content@).0)),
{
    let chars = to_chars(content);
    let field = match split_frontmatter(chars.as_slice()).0 {
        Some(fm) => read_tags_field(Some(to_text(fm).as_str())),
        None => YamlField::Missing,
    };
    assemble(path, content, &field)
}

} // verus!
