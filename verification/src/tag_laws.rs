//! Which tags a note has, and which texts a frontmatter field lists.
use vstd::prelude::*;

use crate::markup_laws::{fences_before, start_is_after};
use crate::outside::FieldText;
use crate::parse::{
    as_items, field_items, is_code_fence, is_heading, is_tag_char, kept_items, line_tags, parsed,
    tag_end, tag_end_bounds, tag_opens, tags_from, without_hashes,
};
use crate::text::{distinct, is_space, lines, split_at, trim, Class};

verus! {

/// Whether a character may stand right before a tag: it is no ASCII letter or
/// digit.
pub open spec fn may_precede(c: char) -> bool {
    !('a' <= c <= 'z') && !('A' <= c <= 'Z') && !('0' <= c <= '9')
}

/// Whether a character may be the first of a tag.
pub open spec fn may_begin(c: char) -> bool {
    'a' <= c <= 'z' || 'A' <= c <= 'Z' || c == '_' || c == '/'
}

/// Whether a character may stand in a tag.
pub open spec fn may_follow(c: char) -> bool {
    may_begin(c) || '0' <= c <= '9' || c == '-'
}

/// Whether the number sign of a tag stands at `i`.
pub open spec fn tag_at(line: Seq<char>, i: int) -> bool {
    &&& 0 <= i && i + 1 < line.len()
    &&& line[i] == '#' && may_begin(line[i + 1])
    &&& i == 0 || may_precede(line[i - 1])
}

/// Whether `t` is what stands from `i` on up to the first character that cannot
/// stand in a tag.
pub open spec fn is_run(line: Seq<char>, i: int, t: Seq<char>) -> bool {
    let e = i + t.len();
    &&& 0 <= i && e <= line.len() && line.subrange(i, e) == t
    &&& forall|k: int| 0 <= k < t.len() ==> may_follow(#[trigger] t[k])
    &&& e < line.len() ==> !may_follow(line[e])
}

/// How many tags begin before `i`.
pub open spec fn tags_before(line: Seq<char>, i: int) -> nat
    decreases i,
{
    if i <= 0 {
        0
    } else if tag_at(line, i - 1) {
        tags_before(line, i - 1) + 1
    } else {
        tags_before(line, i - 1)
    }
}

proof fn opening_is_tag(line: Seq<char>, i: int)
    ensures
        tag_opens(line, i) <==> tag_at(line, i),
{
}

proof fn none_between(line: Seq<char>, i: int, j: int)
    requires
        0 <= i <= j,
        forall|k: int| i <= k < j ==> !#[trigger] tag_at(line, k),
    ensures
        tags_before(line, i) == tags_before(line, j),
    decreases j - i,
{
    if i < j {
        assert(!tag_at(line, j - 1));
        none_between(line, i, j - 1);
    }
}

proof fn more_tags(line: Seq<char>, i: int, j: int)
    requires
        0 <= i <= j,
    ensures
        tags_before(line, i) <= tags_before(line, j),
    decreases j - i,
{
    if i < j {
        more_tags(line, i, j - 1);
    }
}

proof fn end_is_first(line: Seq<char>, i: int)
    requires
        0 <= i <= line.len(),
    ensures
        tag_end(line, i) < line.len() ==> !is_tag_char(line[tag_end(line, i)]),
    decreases line.len() - i,
{
    if i < line.len() && is_tag_char(line[i]) {
        end_is_first(line, i + 1);
    }
}

/// Whether the tags listed from `i` on hold the one at `p` in its place.
spec fn in_place(line: Seq<char>, i: int, p: int) -> bool {
    let k = tags_before(line, p) - tags_before(line, i);
    0 <= k < line_tags(line, i).len() && is_run(line, p + 1, line_tags(line, i)[k])
}

proof fn tags_in_place(line: Seq<char>, i: int)
    requires
        0 <= i <= line.len(),
    ensures
        line_tags(line, i).len() == tags_before(line, line.len() as int) - tags_before(line, i),
        forall|p: int| i <= p && #[trigger] tag_at(line, p) ==> in_place(line, i, p),
    decreases line.len() - i,
{
    if i < line.len() {
        opening_is_tag(line, i);
        if tag_opens(line, i) {
            let e = tag_end(line, i + 1);
            let t = line.subrange(i + 1, e);
            tag_end_bounds(line, i + 1);
            end_is_first(line, i + 1);
            tags_in_place(line, e);
            assert forall|k: int| i + 1 <= k < e implies !#[trigger] tag_at(line, k) by {
                assert(is_tag_char(line[k]));
            }
            none_between(line, i + 1, e);
            let all = line_tags(line, i);
            let rest = line_tags(line, e);
            assert(all == seq![t] + rest);
            assert forall|k: int| 0 <= k < t.len() implies may_follow(#[trigger] t[k]) by {
                assert(is_tag_char(line[i + 1 + k]));
            }
            assert(is_run(line, i + 1, t));
            assert forall|p: int| i <= p && #[trigger] tag_at(line, p) implies in_place(
                line,
                i,
                p,
            ) by {
                if p > i {
                    assert(p >= e);
                    assert(in_place(line, e, p));
                    let k = tags_before(line, p) - tags_before(line, e);
                    assert(all[k + 1] == rest[k]);
                } else {
                    assert(all[0] == t);
                }
            }
        } else {
            tags_in_place(line, i + 1);
            assert forall|p: int| i <= p && #[trigger] tag_at(line, p) implies in_place(
                line,
                i,
                p,
            ) by {
                assert(in_place(line, i + 1, p));
            }
        }
    }
}

/// The tags of a line are as many as the places where one begins: at a number
/// sign that no ASCII letter or digit stands right before, and that a letter, an
/// underscore or a slash follows. The one that begins at `p` comes after those
/// that begin before it, and runs up to the first character that cannot stand in
/// a tag.
pub proof fn a_tag_for_each_place(line: Seq<char>, p: int)
    ensures
        line_tags(line, 0).len() == tags_before(line, line.len() as int),
        tag_at(line, p) ==> tags_before(line, p) < line_tags(line, 0).len() && is_run(
            line,
            p + 1,
            line_tags(line, 0)[tags_before(line, p) as int],
        ),
{
    tags_in_place(line, 0);
    if tag_at(line, p) {
        assert(in_place(line, 0, p));
    }
}

/// Whether number signs, at least one, follow the white space at a line's start,
/// and a blank follows them.
pub open spec fn heading_marks(line: Seq<char>, i: int, j: int) -> bool {
    &&& 0 <= i < j < line.len()
    &&& forall|k: int| 0 <= k < i ==> is_space(#[trigger] line[k])
    &&& forall|k: int| i <= k < j ==> #[trigger] line[k] == '#'
    &&& line[j] == ' '
}

/// A heading is a line with number signs and a blank after white space.
pub proof fn headings_begin_with_marks(line: Seq<char>)
    ensures
        is_heading(line) <==> exists|i: int, j: int| heading_marks(line, i, j),
{
    reveal_strlit("#");
    reveal_strlit(" ");
    assert("#"@ =~= seq!['#']);
    assert(" "@ =~= seq![' ']);
    let i = start_is_after(line, Class::Space);
    let t = line.skip(i);
    let n = start_is_after(t, Class::Hash);
    let u = t.skip(n);
    if is_heading(line) {
        assert(t[0] == "#"@[0]);
        assert(u[0] == " "@[0]);
        assert(n > 0);
        assert forall|k: int| i <= k < i + n implies #[trigger] line[k] == '#' by {
            assert(Class::Hash.has(t[k - i]));
        }
        assert forall|k: int| 0 <= k < i implies is_space(#[trigger] line[k]) by {
            assert(Class::Space.has(line[k]));
        }
        assert(line[i + n] == u[0]);
        assert(heading_marks(line, i, i + n));
    }
    if exists|a: int, b: int| heading_marks(line, a, b) {
        let (a, b) = choose|a: int, b: int| heading_marks(line, a, b);
        if a < i {
            assert(Class::Space.has(line[a]));
        }
        if i < a {
            assert(is_space(line[i]));
        }
        assert(a == i);
        assert(line[a] == t[0]);
        if n < b - a {
            assert(t[n] == line[a + n]);
        }
        if b - a < n {
            assert(Class::Hash.has(t[b - a]));
            assert(t[b - a] == line[b]);
        }
        assert(n == b - a);
        assert(u[0] == line[b]);
        assert("#"@.is_prefix_of(t)) by {
            assert(t.take(1) =~= "#"@);
        }
        assert(" "@.is_prefix_of(u)) by {
            assert(u.take(1) =~= " "@);
        }
    }
}

proof fn one_more_line(all: Seq<Seq<char>>, line: Seq<char>, k: int, in_code: bool)
    requires
        0 <= k <= all.len(),
        in_code <==> fences_before(all, k) % 2 == 1,
    ensures
        tags_from(all.push(line), k, in_code) == tags_from(all, k, in_code) + if fences_before(
            all,
            all.len() as int,
        ) % 2 == 0 && !is_code_fence(line) && !is_heading(line) {
            line_tags(line, 0)
        } else {
            seq![]
        },
    decreases all.len() - k,
{
    let more = all.push(line);
    if k < all.len() {
        assert(more[k] == all[k]);
        let next = if is_code_fence(all[k]) {
            !in_code
        } else {
            in_code
        };
        one_more_line(all, line, k + 1, next);
        assert(tags_from(more, k, in_code) =~= tags_from(all, k, in_code) + if fences_before(
            all,
            all.len() as int,
        ) % 2 == 0 && !is_code_fence(line) && !is_heading(line) {
            line_tags(line, 0)
        } else {
            seq![]
        });
    } else {
        assert(more[k] == line);
        let next = if is_code_fence(line) {
            !in_code
        } else {
            in_code
        };
        assert(tags_from(more, k + 1, next) =~= seq![]);
        assert(line_tags(line, 0) + seq![] =~= line_tags(line, 0));
        assert(tags_from(all, k, in_code) + line_tags(line, 0) =~= line_tags(line, 0));
        assert(tags_from(all, k, in_code) + seq![] =~= seq![]);
    }
}

/// The inline tags of a text are those of its lines in order, but for headings
/// and for lines that belong to a code block: one that opens or closes it, and
/// one that an odd number of those precedes.
pub proof fn tags_come_line_by_line(all: Seq<Seq<char>>, line: Seq<char>)
    ensures
        tags_from(seq![], 0, false).len() == 0,
        tags_from(all.push(line), 0, false) == tags_from(all, 0, false) + if fences_before(
            all,
            all.len() as int,
        ) % 2 == 0 && !is_code_fence(line) && !is_heading(line) {
            line_tags(line, 0)
        } else {
            seq![]
        },
{
    one_more_line(all, line, 0, false);
}

/// A field lists the strings of a list, or the parts of a string between its
/// commas, in order: each trimmed, and only where something is left of it. A
/// field that is missing or neither of these lists nothing.
pub proof fn fields_list_their_items(
    items: Seq<Option<Seq<char>>>,
    item: Option<Seq<char>>,
    a: Seq<char>,
    b: Seq<char>,
)
    requires
        forall|k: int| 0 <= k < a.len() ==> #[trigger] a[k] != ',',
    ensures
        field_items(FieldText::Missing).len() == 0,
        field_items(FieldText::Other).len() == 0,
        field_items(FieldText::List(seq![])).len() == 0,
        field_items(FieldText::List(items.push(item))) == if item is Some && trim(item->0).len()
            > 0 {
            field_items(FieldText::List(items)).push(trim(item->0))
        } else {
            field_items(FieldText::List(items))
        },
        field_items(FieldText::Text(a)) == own_item(a),
        field_items(FieldText::Text(a.push(',') + b)) == own_item(a) + field_items(
            FieldText::Text(b),
        ),
{
    assert(items.push(item).drop_last() =~= items);
    crate::text_laws::split_at_each_separator(a, ',', b);
    let rest = as_items(split_at(b, ','));
    assert(as_items(split_at(a, ',')) =~= seq![Some(a)]);
    assert(as_items(split_at(a.push(',') + b, ',')) =~= seq![Some(a)] + rest);
    first_item(a, rest);
    first_item(a, seq![]);
    assert(seq![Some(a)] + Seq::<Option<Seq<char>>>::empty() =~= seq![Some(a)]);
    assert(own_item(a) + Seq::<Seq<char>>::empty() =~= own_item(a));
}

/// A text as the only item of a list: trimmed, and dropped where nothing is left.
pub open spec fn own_item(a: Seq<char>) -> Seq<Seq<char>> {
    if trim(a).len() > 0 {
        seq![trim(a)]
    } else {
        seq![]
    }
}

proof fn first_item(a: Seq<char>, rest: Seq<Option<Seq<char>>>)
    ensures
        kept_items(seq![Some(a)] + rest) == own_item(a) + kept_items(rest),
    decreases rest.len(),
{
    let all = seq![Some(a)] + rest;
    if rest.len() == 0 {
        assert(all =~= seq![Some(a)]);
        assert(all.drop_last() =~= seq![]);
        assert(kept_items(all.drop_last()) =~= seq![]);
        assert(own_item(a) + kept_items(rest) =~= own_item(a));
        assert(kept_items(all) =~= own_item(a));
    } else {
        assert(all.drop_last() =~= seq![Some(a)] + rest.drop_last());
        assert(all.last() == rest.last());
        first_item(a, rest.drop_last());
        assert(kept_items(all) =~= own_item(a) + kept_items(rest));
    }
}

/// A listed tag loses the number signs at its start, and is dropped where
/// nothing else is left of it.
pub proof fn listed_tags_lose_their_signs(v: Seq<Seq<char>>, t: Seq<char>, n: int)
    requires
        0 <= n <= t.len(),
        forall|k: int| 0 <= k < n ==> #[trigger] t[k] == '#',
        n < t.len() ==> t[n] != '#',
    ensures
        without_hashes(seq![]).len() == 0,
        without_hashes(v.push(t)) == if n < t.len() {
            without_hashes(v).push(t.skip(n))
        } else {
            without_hashes(v)
        },
{
    assert(v.push(t).drop_last() =~= v);
    let i = start_is_after(t, Class::Hash);
    if i < n {
        assert(t[i] == '#');
    }
    if n < i {
        assert(Class::Hash.has(t[n]));
    }
}

/// A note's tags are those that its frontmatter lists, then those in its body,
/// each once.
pub proof fn a_note_has_listed_and_inline_tags(
    path: Seq<char>,
    content: Seq<char>,
    field: FieldText,
)
    ensures
        ({
            let note = parsed(path, content, field);
            let inline = tags_from(lines(note.body), 0, false);
            let listed = without_hashes(field_items(field));
            &&& note.tags == distinct(listed + inline)
            &&& note.tags.no_duplicates()
            &&& forall|x: Seq<char>| #[trigger]
                note.tags.contains(x) <==> listed.contains(x) || inline.contains(x)
        }),
{
    let note = parsed(path, content, field);
    let inline = tags_from(lines(note.body), 0, false);
    let listed = without_hashes(field_items(field));
    let all = listed + inline;
    crate::text_laws::repeats_are_dropped(all, seq![]);
    assert forall|x: Seq<char>| #[trigger] note.tags.contains(x) <==> listed.contains(x)
        || inline.contains(x) by {
        if all.contains(x) {
            let k = choose|k: int| 0 <= k < all.len() && all[k] == x;
            if k < listed.len() {
                assert(listed[k] == x);
            } else {
                assert(inline[k - listed.len()] == x);
            }
        }
        if listed.contains(x) {
            let k = choose|k: int| 0 <= k < listed.len() && listed[k] == x;
            assert(all[k] == x);
        }
        if inline.contains(x) {
            let k = choose|k: int| 0 <= k < inline.len() && inline[k] == x;
            assert(all[listed.len() + k] == x);
        }
    }
}

} // verus!
