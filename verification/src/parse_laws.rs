//! What holds of every parsed document.
use vstd::prelude::*;

use crate::outside::FieldText;
use crate::parse::{
    embed_targets, fence_at, field_items, first_fence, frontmatter_and_body, is_tag_char,
    line_tags, link_target, parsed, tag_end, tag_end_bounds, tag_opens, tags_from, targets,
    wikilinks, without_hashes, Wikilink,
};
use crate::text::{
    before, distinct_facts, find_from, index_or_end_bounds, is_space, lines, trimmed, trimmed_end,
    trimmed_start, Class,
};

verus! {

proof fn first_fence_found(rest: Seq<char>, i: int)
    ensures
        first_fence(rest, i) is Some ==> i <= first_fence(rest, i)->0 && fence_at(
            rest,
            first_fence(rest, i)->0,
        ),
    decreases rest.len() - i,
{
    if 0 <= i < rest.len() && !fence_at(rest, i) {
        first_fence_found(rest, i + 1);
    }
}

/// Splitting the frontmatter off loses nothing: the text is the fences, the
/// frontmatter and the body put together, or, without frontmatter, the body.
pub proof fn frontmatter_and_body_make_up_the_text(content: Seq<char>)
    ensures
        match frontmatter_and_body(content) {
            (None, body) => body == content,
            (Some(fm), body) => content == "---\n"@ + fm + "\n---"@ + "\n"@ + body || (body.len()
                == 0 && content == "---\n"@ + fm + "\n---"@),
        },
{
    reveal_strlit("---\n");
    reveal_strlit("\n---");
    reveal_strlit("\n");
    let rest = content.skip("---\n"@.len() as int);
    if "---\n"@.is_prefix_of(content) {
        first_fence_found(rest, 0);
        if let Some(i) = first_fence(rest, 0) {
            let fm = rest.take(i);
            let body = frontmatter_and_body(content).1;
            assert(rest.subrange(i, i + 4) == "\n---"@);
            assert(content =~= "---\n"@ + rest);
            assert forall|k: int| 0 <= k < 4 implies rest[i + k] == "\n---"@[k] by {
                assert(rest.subrange(i, i + 4)[k] == rest[i + k]);
            }
            if i + 4 == rest.len() {
                assert(content =~= "---\n"@ + fm + "\n---"@);
            } else {
                assert(content =~= "---\n"@ + fm + "\n---"@ + "\n"@ + body);
            }
        }
    }
}

/// A text without a first line of three dashes has no frontmatter.
pub proof fn no_opening_fence_no_frontmatter(content: Seq<char>)
    requires
        !"---\n"@.is_prefix_of(content),
    ensures
        frontmatter_and_body(content) == (None::<Seq<char>>, content),
{
}

proof fn embeds_among_targets(v: Seq<Wikilink>, x: Seq<char>)
    requires
        embed_targets(v).contains(x),
    ensures
        targets(v).contains(x),
    decreases v.len(),
{
    if v.len() > 0 {
        let w = v.drop_last();
        let k = choose|k: int| 0 <= k < embed_targets(v).len() && embed_targets(v)[k] == x;
        if v.last().embed && k == embed_targets(w).len() {
            assert(targets(v)[v.len() - 1] == x);
        } else {
            assert(embed_targets(w)[k] == x);
            embeds_among_targets(w, x);
            let m = choose|m: int| 0 <= m < targets(w).len() && targets(w)[m] == x;
            assert(targets(v)[m] == x);
        }
    }
}

/// The links, embeds and tags of a document are without repeats, and every embed
/// is among the links.
pub proof fn links_embeds_and_tags_are_distinct(
    path: Seq<char>,
    content: Seq<char>,
    field: FieldText,
)
    ensures
        parsed(path, content, field).links.no_duplicates(),
        parsed(path, content, field).embeds.no_duplicates(),
        parsed(path, content, field).tags.no_duplicates(),
        forall|x: Seq<char>| #[trigger]
            parsed(path, content, field).embeds.contains(x) ==> parsed(
                path,
                content,
                field,
            ).links.contains(x),
{
    let body = frontmatter_and_body(content).1;
    let all = wikilinks(body, 0);
    distinct_facts(targets(all));
    distinct_facts(embed_targets(all));
    distinct_facts(without_hashes(field_items(field)) + tags_from(lines(body), 0, false));
    let p = parsed(path, content, field);
    assert forall|x: Seq<char>| #[trigger] p.embeds.contains(x) implies p.links.contains(x) by {
        assert(embed_targets(all).contains(x));
        embeds_among_targets(all, x);
    }
}

proof fn trimmed_start_facts(s: Seq<char>, class: Class)
    ensures
        trimmed_start(s, class).len() <= s.len(),
        trimmed_start(s, class).len() > 0 ==> !class.has(trimmed_start(s, class)[0]),
        forall|k: int|
            0 <= k < trimmed_start(s, class).len() ==> s.contains(
                #[trigger] trimmed_start(s, class)[k],
            ),
    decreases s.len(),
{
    if s.len() > 0 && class.has(s[0]) {
        let t = s.skip(1);
        trimmed_start_facts(t, class);
        assert forall|k: int| 0 <= k < trimmed_start(s, class).len() implies s.contains(
            #[trigger] trimmed_start(s, class)[k],
        ) by {
            let x = trimmed_start(t, class)[k];
            assert(t.contains(x));
            let m = choose|m: int| 0 <= m < t.len() && t[m] == x;
            assert(s[m + 1] == x);
        }
    }
}

proof fn trimmed_end_facts(s: Seq<char>, class: Class)
    ensures
        trimmed_end(s, class).is_prefix_of(s),
        trimmed_end(s, class).len() > 0 ==> !class.has(trimmed_end(s, class).last()),
    decreases s.len(),
{
    if s.len() > 0 && class.has(s.last()) {
        trimmed_end_facts(s.drop_last(), class);
    }
}

/// A trimmed text neither begins nor ends with what is trimmed, and holds only
/// characters of the text.
pub proof fn trimmed_is_bare_at_both_ends(s: Seq<char>, class: Class)
    ensures
        trimmed(s, class).len() > 0 ==> !class.has(trimmed(s, class)[0]) && !class.has(
            trimmed(s, class).last(),
        ),
        forall|k: int|
            0 <= k < trimmed(s, class).len() ==> s.contains(#[trigger] trimmed(s, class)[k]),
{
    let t = trimmed_start(s, class);
    trimmed_start_facts(s, class);
    trimmed_end_facts(t, class);
    assert(forall|k: int| 0 <= k < trimmed(s, class).len() ==> trimmed(s, class)[k] == t[k]);
}

/// Whether a link target is clean: not empty, without white space at its ends,
/// and without an alias or heading part.
pub open spec fn is_clean(target: Seq<char>) -> bool {
    &&& target.len() > 0
    &&& !is_space(target[0]) && !is_space(target.last())
    &&& !target.contains('|') && !target.contains('#')
}

proof fn before_lacks(s: Seq<char>, c: char)
    ensures
        !before(s, c).contains(c),
        forall|x: char| #[trigger] before(s, c).contains(x) ==> s.contains(x),
{
    index_or_end_bounds(s, c, 0);
    let b = before(s, c);
    assert forall|x: char| #[trigger] b.contains(x) implies s.contains(x) by {
        let k = choose|k: int| 0 <= k < b.len() && b[k] == x;
        assert(s[k] == x);
    }
}

proof fn link_target_clean(inner: Seq<char>)
    requires
        link_target(inner).len() > 0,
    ensures
        is_clean(link_target(inner)),
{
    let a = before(inner, '|');
    let b = before(a, '#');
    let t = link_target(inner);
    before_lacks(inner, '|');
    before_lacks(a, '#');
    trimmed_is_bare_at_both_ends(b, Class::Space);
    if t.contains('|') {
        let k = choose|k: int| 0 <= k < t.len() && t[k] == '|';
        assert(b.contains(trimmed(b, Class::Space)[k]));
        assert(a.contains('|'));
    }
    if t.contains('#') {
        let k = choose|k: int| 0 <= k < t.len() && t[k] == '#';
        assert(b.contains(trimmed(b, Class::Space)[k]));
    }
}

proof fn wikilinks_clean(s: Seq<char>, i: int)
    requires
        0 <= i,
    ensures
        forall|k: int|
            0 <= k < wikilinks(s, i).len() ==> is_clean((#[trigger] wikilinks(s, i)[k]).target),
    decreases s.len() - i,
{
    if i + 1 >= s.len() {
        assert(wikilinks(s, i) =~= seq![]);
    } else if s[i] == '[' && s[i + 1] == '[' {
        crate::parse::find_from_bounds(s, "]]"@, i + 2);
        match find_from(s, "]]"@, i + 2) {
            Some(end) => {
                let inner = s.subrange(i + 2, end);
                let rest = wikilinks(s, end + "]]"@.len());
                wikilinks_clean(s, end + "]]"@.len());
                if link_target(inner).len() > 0 {
                    link_target_clean(inner);
                    let all = wikilinks(s, i);
                    assert forall|k: int| 0 <= k < all.len() implies is_clean(
                        (#[trigger] all[k]).target,
                    ) by {
                        if k > 0 {
                            assert(all[k] == rest[k - 1]);
                        }
                    }
                }
            },
            None => {
                wikilinks_clean(s, i + 1);
                assert(wikilinks(s, i) == wikilinks(s, i + 1));
            },
        }
    } else {
        wikilinks_clean(s, i + 1);
        assert(wikilinks(s, i) == wikilinks(s, i + 1));
    }
}

/// Every link of a document is clean: it has a target, without white space
/// around it, and its `|alias` and `#heading` parts are stripped.
pub proof fn links_are_clean(path: Seq<char>, content: Seq<char>, field: FieldText)
    ensures
        forall|k: int|
            0 <= k < parsed(path, content, field).links.len() ==> is_clean(
                #[trigger] parsed(path, content, field).links[k],
            ),
{
    let body = frontmatter_and_body(content).1;
    let all = wikilinks(body, 0);
    let links = parsed(path, content, field).links;
    wikilinks_clean(body, 0);
    distinct_facts(targets(all));
    assert forall|k: int| 0 <= k < links.len() implies is_clean(#[trigger] links[k]) by {
        assert(links.contains(links[k]));
        assert(targets(all).contains(links[k]));
        let m = choose|m: int| 0 <= m < targets(all).len() && targets(all)[m] == links[k];
        assert(is_clean(all[m].target));
    }
}

/// Whether a text is what an inline tag may be: a letter, an underscore or a
/// slash, and then tag characters.
pub open spec fn is_inline_tag(t: Seq<char>) -> bool {
    &&& t.len() > 0
    &&& crate::parse::is_letter(t[0]) || t[0] == '_' || t[0] == '/'
    &&& forall|k: int| 0 <= k < t.len() ==> is_tag_char(#[trigger] t[k])
}

proof fn line_tags_wellformed(line: Seq<char>, i: int)
    requires
        0 <= i,
    ensures
        forall|k: int|
            0 <= k < line_tags(line, i).len() ==> is_inline_tag(#[trigger] line_tags(line, i)[k]),
    decreases line.len() - i,
{
    if i >= line.len() {
        assert(line_tags(line, i) =~= seq![]);
    } else if tag_opens(line, i) {
        let end = tag_end(line, i + 1);
        tag_end_bounds(line, i + 1);
        line_tags_wellformed(line, end);
        let t = line.subrange(i + 1, end);
        assert(is_tag_char(line[i + 1]));
        assert(tag_end(line, i + 1) == tag_end(line, i + 2));
        tag_end_bounds(line, i + 2);
        assert(t[0] == line[i + 1]);
        assert forall|k: int| 0 <= k < t.len() implies is_tag_char(#[trigger] t[k]) by {
            assert(is_tag_char(line[i + 1 + k]));
        }
        assert(is_inline_tag(t));
        let rest = line_tags(line, end);
        let all = line_tags(line, i);
        assert forall|k: int| 0 <= k < all.len() implies is_inline_tag(#[trigger] all[k]) by {
            if k > 0 {
                assert(all[k] == rest[k - 1]);
            }
        }
    } else {
        line_tags_wellformed(line, i + 1);
        assert(line_tags(line, i) == line_tags(line, i + 1));
    }
}

proof fn tags_from_wellformed(all: Seq<Seq<char>>, k: int, in_code: bool)
    ensures
        forall|j: int|
            0 <= j < tags_from(all, k, in_code).len() ==> is_inline_tag(
                #[trigger] tags_from(all, k, in_code)[j],
            ),
    decreases all.len() - k,
{
    if k < 0 || k >= all.len() {
        assert(tags_from(all, k, in_code) =~= seq![]);
    } else if crate::parse::is_code_fence(all[k]) {
        tags_from_wellformed(all, k + 1, !in_code);
        assert(tags_from(all, k, in_code) == tags_from(all, k + 1, !in_code));
    } else if in_code || crate::parse::is_heading(all[k]) {
        tags_from_wellformed(all, k + 1, in_code);
        assert(tags_from(all, k, in_code) == tags_from(all, k + 1, in_code));
    } else {
        line_tags_wellformed(all[k], 0);
        tags_from_wellformed(all, k + 1, in_code);
        let first = line_tags(all[k], 0);
        let rest = tags_from(all, k + 1, in_code);
        let both = tags_from(all, k, in_code);
        assert forall|j: int| 0 <= j < both.len() implies is_inline_tag(#[trigger] both[j]) by {
            if j < first.len() {
                assert(both[j] == first[j]);
            } else {
                assert(both[j] == rest[j - first.len()]);
            }
        }
    }
}

proof fn without_hashes_facts(v: Seq<Seq<char>>)
    ensures
        forall|j: int|
            0 <= j < without_hashes(v).len() ==> (#[trigger] without_hashes(v)[j]).len() > 0
                && without_hashes(v)[j][0] != '#',
    decreases v.len(),
{
    if v.len() > 0 {
        without_hashes_facts(v.drop_last());
        trimmed_start_facts(v.last(), Class::Hash);
        let rest = without_hashes(v.drop_last());
        let all = without_hashes(v);
        assert forall|j: int| 0 <= j < all.len() implies (#[trigger] all[j]).len() > 0
            && all[j][0] != '#' by {
            if j < rest.len() {
                assert(all[j] == rest[j]);
            }
        }
    }
}

/// Every tag of a document is not empty and its `#` prefix is stripped; those of
/// the body are made of tag characters and are not purely numeric.
pub proof fn tags_are_bare(path: Seq<char>, content: Seq<char>, field: FieldText)
    ensures
        forall|k: int|
            0 <= k < parsed(path, content, field).tags.len() ==> (#[trigger] parsed(
                path,
                content,
                field,
            ).tags[k]).len() > 0 && parsed(path, content, field).tags[k][0] != '#',
        forall|k: int|
            0 <= k < tags_from(lines(frontmatter_and_body(content).1), 0, false).len()
                ==> is_inline_tag(
                #[trigger] tags_from(lines(frontmatter_and_body(content).1), 0, false)[k],
            ),
{
    let body = frontmatter_and_body(content).1;
    let listed = without_hashes(field_items(field));
    let inline = tags_from(lines(body), 0, false);
    let tags = parsed(path, content, field).tags;
    without_hashes_facts(field_items(field));
    tags_from_wellformed(lines(body), 0, false);
    distinct_facts(listed + inline);
    assert forall|k: int| 0 <= k < tags.len() implies (#[trigger] tags[k]).len() > 0
        && tags[k][0] != '#' by {
        assert(tags.contains(tags[k]));
        assert((listed + inline).contains(tags[k]));
        let m = choose|m: int|
            0 <= m < (listed + inline).len() && (listed + inline)[m] == tags[k];
        if m < listed.len() {
            assert(listed[m] == tags[k]);
        } else {
            assert(inline[m - listed.len()] == tags[k]);
            assert(is_inline_tag(inline[m - listed.len()]));
        }
    }
}

} // verus!
