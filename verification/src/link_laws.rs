//! Which wikilinks a note holds, and what they point at.
use vstd::prelude::*;

use crate::outside::FieldText;
use crate::parse::{
    embed_targets, frontmatter_and_body, link_target, parsed, targets, wikilinks, Wikilink,
};
use crate::text::{before, distinct, find_from, index_or_end, index_or_end_bounds, occurs_at, trim};
use crate::text_laws::repeats_are_dropped;

verus! {

/// Whether two characters `c` stand side by side, the first at `i`.
pub open spec fn twice_at(s: Seq<char>, c: char, i: int) -> bool {
    0 <= i && i + 1 < s.len() && s[i] == c && s[i + 1] == c
}

proof fn closing_is_twice(s: Seq<char>, i: int)
    ensures
        "]]"@.len() == 2,
        occurs_at(s, "]]"@, i) <==> twice_at(s, ']', i),
{
    reveal_strlit("]]");
    let p = "]]"@;
    assert(p =~= seq![']', ']']);
    if occurs_at(s, p, i) {
        assert(s.subrange(i, i + 2)[0] == s[i]);
        assert(s.subrange(i, i + 2)[1] == s[i + 1]);
    }
    if twice_at(s, ']', i) {
        assert(s.subrange(i, i + 2) =~= p);
    }
}

proof fn closing_is_next(s: Seq<char>, i: int)
    requires
        0 <= i,
    ensures
        match find_from(s, "]]"@, i) {
            Some(e) => i <= e && twice_at(s, ']', e) && forall|k: int|
                i <= k < e ==> !#[trigger] twice_at(s, ']', k),
            None => forall|k: int| i <= k ==> !#[trigger] twice_at(s, ']', k),
        },
    decreases s.len() + 1 - i,
{
    closing_is_twice(s, i);
    if i + 2 <= s.len() && !occurs_at(s, "]]"@, i) {
        closing_is_next(s, i + 1);
    }
}

proof fn closing_from_within(s: Seq<char>, i: int, j: int)
    requires
        0 <= i <= s.len(),
        0 <= j,
    ensures
        find_from(s, "]]"@, i + j) == match find_from(s.skip(i), "]]"@, j) {
            Some(e) => Some(i + e),
            None => None,
        },
{
    let t = s.skip(i);
    closing_is_next(s, i + j);
    closing_is_next(t, j);
    if let Some(e) = find_from(s, "]]"@, i + j) {
        assert(twice_at(t, ']', e - i));
    }
    if let Some(e) = find_from(t, "]]"@, j) {
        assert(twice_at(s, ']', i + e));
        if let Some(f) = find_from(s, "]]"@, i + j) {
            assert(twice_at(t, ']', f - i));
        }
    }
}

proof fn links_from_within(s: Seq<char>, i: int, j: int)
    requires
        0 <= i <= s.len(),
        0 <= j,
        i > 0 ==> s[i - 1] != '!',
    ensures
        wikilinks(s, i + j) == wikilinks(s.skip(i), j),
    decreases s.len() - i - j,
{
    let t = s.skip(i);
    if i + j + 1 < s.len() {
        assert(t[j] == s[i + j] && t[j + 1] == s[i + j + 1]);
        closing_is_twice(s, i + j);
        if s[i + j] == '[' && s[i + j + 1] == '[' {
            closing_from_within(s, i, j + 2);
            match find_from(t, "]]"@, j + 2) {
                Some(e) => {
                    closing_is_next(t, j + 2);
                    links_from_within(s, i, e + 2);
                    assert(t.subrange(j + 2, e) =~= s.subrange(i + j + 2, i + e));
                },
                None => {
                    links_from_within(s, i, j + 1);
                },
            }
        } else {
            links_from_within(s, i, j + 1);
        }
    }
}

proof fn no_link_before(s: Seq<char>, i: int, n: int)
    requires
        0 <= i <= n <= s.len(),
        forall|k: int| i <= k < n ==> !#[trigger] twice_at(s, '[', k),
    ensures
        wikilinks(s, i) == wikilinks(s, n),
    decreases n - i,
{
    if i < n {
        assert(!twice_at(s, '[', i));
        no_link_before(s, i + 1, n);
        if i + 1 >= s.len() {
            assert(n == s.len());
        }
    }
}

/// A text in which nothing closes after it opens holds no link.
pub proof fn nothing_closed_no_link(s: Seq<char>)
    requires
        forall|i: int, j: int|
            #![trigger twice_at(s, '[', i), twice_at(s, ']', j)]
            twice_at(s, '[', i) && twice_at(s, ']', j) ==> j < i + 2,
    ensures
        wikilinks(s, 0).len() == 0,
{
    no_link_closed(s, 0);
}

proof fn no_link_closed(s: Seq<char>, i: int)
    requires
        0 <= i,
        forall|k: int, j: int|
            #![trigger twice_at(s, '[', k), twice_at(s, ']', j)]
            twice_at(s, '[', k) && twice_at(s, ']', j) ==> j < k + 2,
    ensures
        wikilinks(s, i).len() == 0,
    decreases s.len() - i,
{
    if i + 1 < s.len() {
        if s[i] == '[' && s[i + 1] == '[' {
            assert(twice_at(s, '[', i));
            closing_is_next(s, i + 2);
            assert(find_from(s, "]]"@, i + 2) is None);
        }
        no_link_closed(s, i + 1);
    }
}

/// A link runs from the first pair of opening brackets to the next pair of
/// closing ones, and the links of the text behind it follow. It is an embed
/// where an exclamation mark stands right before it, and none at all where its
/// target is empty.
pub proof fn a_link_and_those_behind_it(pre: Seq<char>, inner: Seq<char>, post: Seq<char>)
    requires
        ({
            let s = pre + seq!['[', '['] + inner + seq![']', ']'] + post;
            let n = pre.len() as int;
            &&& forall|k: int| 0 <= k < n ==> !#[trigger] twice_at(s, '[', k)
            &&& forall|k: int|
                n + 2 <= k < n + 2 + inner.len() ==> !#[trigger] twice_at(s, ']', k)
        }),
    ensures
        ({
            let s = pre + seq!['[', '['] + inner + seq![']', ']'] + post;
            let link = Wikilink {
                target: link_target(inner),
                embed: pre.len() > 0 && pre.last() == '!',
            };
            wikilinks(s, 0) == if link_target(inner).len() == 0 {
                wikilinks(post, 0)
            } else {
                seq![link] + wikilinks(post, 0)
            }
        }),
{
    let s = pre + seq!['[', '['] + inner + seq![']', ']'] + post;
    let n = pre.len() as int;
    let e = n + 2 + inner.len();
    no_link_before(s, 0, n);
    assert(s[n] == '[' && s[n + 1] == '[');
    assert(s[e] == ']' && s[e + 1] == ']');
    assert(twice_at(s, ']', e));
    closing_is_next(s, n + 2);
    closing_is_twice(s, e);
    assert(find_from(s, "]]"@, n + 2) == Some(e));
    assert(s.subrange(n + 2, e) =~= inner);
    assert(s.skip(e + 2) =~= post);
    links_from_within(s, e + 2, 0);
    if n > 0 {
        assert(s[n - 1] == pre.last());
    }
}

/// A link's target is what stands before its alias and heading, that is before
/// the first vertical bar or number sign in it, trimmed.
pub proof fn targets_end_at_alias_and_heading(inner: Seq<char>, n: int)
    requires
        0 <= n <= inner.len(),
        n < inner.len() ==> inner[n] == '|' || inner[n] == '#',
        forall|k: int| 0 <= k < n ==> #[trigger] inner[k] != '|' && inner[k] != '#',
    ensures
        link_target(inner) == trim(inner.take(n)),
{
    let a = before(inner, '|');
    index_or_end_bounds(inner, '|', 0);
    let p = index_or_end(inner, '|', 0);
    index_or_end_bounds(a, '#', 0);
    let q = index_or_end(a, '#', 0);
    assert(before(a, '#') =~= inner.take(q));
    if q < n {
        if q < a.len() {
            assert(a[q] == inner[q]);
        } else {
            assert(inner[p] == '|');
        }
    }
    if n < q {
        assert(a[n] == inner[n]);
    }
}

/// The targets of links are listed one by one, and those of the embeds among
/// them too, in order.
pub proof fn targets_are_listed_in_order(v: Seq<Wikilink>, w: Wikilink)
    ensures
        targets(v).len() == v.len(),
        forall|k: int| 0 <= k < v.len() ==> #[trigger] targets(v)[k] == v[k].target,
        embed_targets(seq![]).len() == 0,
        embed_targets(v.push(w)) == if w.embed {
            embed_targets(v).push(w.target)
        } else {
            embed_targets(v)
        },
{
    assert(v.push(w).drop_last() =~= v);
}

/// Whether `x` is the target of one of some links, of an embed where `embed`.
pub open spec fn is_target_of(v: Seq<Wikilink>, embed: bool, x: Seq<char>) -> bool {
    exists|k: int| 0 <= k < v.len() && (#[trigger] v[k]).target == x && (embed ==> v[k].embed)
}

proof fn embeds_are_targets(v: Seq<Wikilink>, x: Seq<char>)
    ensures
        embed_targets(v).contains(x) <==> is_target_of(v, true, x),
    decreases v.len(),
{
    let all = embed_targets(v);
    if v.len() > 0 {
        let rest = v.drop_last();
        let before = embed_targets(rest);
        embeds_are_targets(rest, x);
        if all.contains(x) {
            let i = choose|i: int| 0 <= i < all.len() && all[i] == x;
            if i < before.len() {
                assert(before[i] == x);
                let k = choose|k: int|
                    0 <= k < rest.len() && (#[trigger] rest[k]).target == x && rest[k].embed;
                assert(v[k].target == x);
            } else {
                assert(v[v.len() - 1].target == x);
            }
        }
        if is_target_of(v, true, x) {
            let k = choose|k: int| 0 <= k < v.len() && (#[trigger] v[k]).target == x && v[k].embed;
            if k < rest.len() {
                assert(rest[k].target == x);
                assert(is_target_of(rest, true, x));
                let i = choose|i: int| 0 <= i < before.len() && before[i] == x;
                assert(all[i] == x);
            } else {
                assert(all[before.len() as int] == x);
            }
        }
    }
}

/// A note's links are the targets of the wikilinks of its body, each once, and
/// its embeds those of the wikilinks that are embeds, both in the order in which
/// they first come.
pub proof fn a_note_links_to_each_target(path: Seq<char>, content: Seq<char>, field: FieldText)
    ensures
        ({
            let note = parsed(path, content, field);
            let all = wikilinks(frontmatter_and_body(content).1, 0);
            &&& note.links == distinct(targets(all)) && note.embeds == distinct(embed_targets(all))
            &&& note.links.no_duplicates() && note.embeds.no_duplicates()
            &&& forall|x: Seq<char>| #[trigger]
                note.links.contains(x) <==> is_target_of(all, false, x)
            &&& forall|x: Seq<char>| #[trigger]
                note.embeds.contains(x) <==> is_target_of(all, true, x)
        }),
{
    let note = parsed(path, content, field);
    let all = wikilinks(frontmatter_and_body(content).1, 0);
    repeats_are_dropped(targets(all), seq![]);
    repeats_are_dropped(embed_targets(all), seq![]);
    assert forall|x: Seq<char>| #[trigger] note.links.contains(x) <==> is_target_of(
        all,
        false,
        x,
    ) by {
        let t = targets(all);
        assert(note.links.contains(x) <==> t.contains(x));
        if t.contains(x) {
            let k = choose|k: int| 0 <= k < t.len() && t[k] == x;
            assert(all[k].target == x);
        }
        if is_target_of(all, false, x) {
            let k = choose|k: int| 0 <= k < all.len() && (#[trigger] all[k]).target == x;
            assert(t[k] == x);
        }
    }
    assert forall|x: Seq<char>| #[trigger] note.embeds.contains(x) <==> is_target_of(
        all,
        true,
        x,
    ) by {
        embeds_are_targets(all, x);
    }
}

} // verus!
