//! What parsing a note finds: where its frontmatter ends, what its title is, and
//! which links and tags it has.
use vstd::prelude::*;

use crate::parse::{
    fence_at, first_fence, frontmatter_and_body, h1_from, h1_value, is_code_fence, title_from,
    title_of, title_value,
};
use crate::paths::file_stem;
use crate::text::{is_space, lines, occurs_at, trim, trimmed, trimmed_start, Class};

verus! {

/// Whether a text begins with a line of three dashes.
pub open spec fn opens_frontmatter(s: Seq<char>) -> bool {
    s.len() >= 4 && s[0] == '-' && s[1] == '-' && s[2] == '-' && s[3] == '\n'
}

/// Whether a line of three dashes follows the character at `i - 1`.
pub open spec fn closes_at(rest: Seq<char>, i: int) -> bool {
    &&& 0 <= i && i + 4 <= rest.len()
    &&& rest[i] == '\n' && rest[i + 1] == '-' && rest[i + 2] == '-' && rest[i + 3] == '-'
    &&& i + 4 == rest.len() || rest[i + 4] == '\n'
}

proof fn fences_close(rest: Seq<char>, i: int)
    ensures
        fence_at(rest, i) <==> closes_at(rest, i),
{
    reveal_strlit("\n---");
    let f = "\n---"@;
    assert(f =~= seq!['\n', '-', '-', '-']);
    if occurs_at(rest, f, i) {
        assert(rest.subrange(i, i + 4)[0] == rest[i]);
        assert(rest.subrange(i, i + 4)[1] == rest[i + 1]);
        assert(rest.subrange(i, i + 4)[2] == rest[i + 2]);
        assert(rest.subrange(i, i + 4)[3] == rest[i + 3]);
    }
    if closes_at(rest, i) {
        assert(rest.subrange(i, i + 4) =~= f);
    }
}

proof fn first_fence_is_first(rest: Seq<char>, i: int)
    requires
        0 <= i,
    ensures
        match first_fence(rest, i) {
            Some(n) => i <= n && closes_at(rest, n) && forall|k: int|
                i <= k < n ==> !#[trigger] closes_at(rest, k),
            None => forall|k: int| i <= k ==> !#[trigger] closes_at(rest, k),
        },
    decreases rest.len() - i,
{
    if i < rest.len() {
        fences_close(rest, i);
        if !fence_at(rest, i) {
            first_fence_is_first(rest, i + 1);
        }
    }
}

/// The frontmatter of a text is what stands between a first line of three dashes
/// and the next such line: a text with both has frontmatter, which ends at the
/// earliest closing line, and the body is what follows that line. A text without
/// both is all body.
pub proof fn frontmatter_ends_at_the_first_fence(content: Seq<char>)
    ensures
        ({
            let rest = content.skip(4);
            let (fm, body) = frontmatter_and_body(content);
            &&& fm is Some <==> opens_frontmatter(content) && exists|i: int| closes_at(rest, i)
            &&& fm is None ==> body == content
            &&& fm is Some ==> {
                let n = fm->0.len() as int;
                &&& closes_at(rest, n)
                &&& forall|i: int| 0 <= i < n ==> !#[trigger] closes_at(rest, i)
                &&& fm->0 == rest.take(n)
                &&& body == if n + 4 == rest.len() {
                    seq![]
                } else {
                    rest.skip(n + 5)
                }
            }
        }),
{
    reveal_strlit("---\n");
    reveal_strlit("\n---");
    let open = "---\n"@;
    assert(open =~= seq!['-', '-', '-', '\n']);
    let rest = content.skip(4);
    if open.is_prefix_of(content) {
        assert(content[0] == open[0] && content[1] == open[1] && content[2] == open[2]
            && content[3] == open[3]);
        first_fence_is_first(rest, 0);
        if let Some(n) = first_fence(rest, 0) {
            let after = rest.skip(n + 4);
            if after.len() > 0 {
                assert(after.skip(1) =~= rest.skip(n + 5));
            } else {
                assert(after =~= seq![]);
            }
        }
    } else if opens_frontmatter(content) {
        assert(content.take(4) =~= open);
        assert(open.is_prefix_of(content));
    }
}

/// How many of the first `k` lines open or close a code block.
pub open spec fn fences_before(all: Seq<Seq<char>>, k: int) -> nat
    decreases k,
{
    if k <= 0 {
        0
    } else if is_code_fence(all[k - 1]) {
        fences_before(all, k - 1) + 1
    } else {
        fences_before(all, k - 1)
    }
}

/// Whether the line at `k` is neither in a code block nor opens or closes one.
pub open spec fn outside_code(all: Seq<Seq<char>>, k: int) -> bool {
    0 <= k < all.len() && fences_before(all, k) % 2 == 0 && !is_code_fence(all[k])
}

/// Whether `p` follows the first `i` characters of a line, which are white space.
pub open spec fn follows_blank(line: Seq<char>, p: Seq<char>, i: int) -> bool {
    &&& 0 <= i && i + p.len() <= line.len()
    &&& line.subrange(i, i + p.len()) == p
    &&& forall|k: int| 0 <= k < i ==> is_space(#[trigger] line[k])
}

/// What is trimmed at the start of a text is of the class, and what is left
/// begins with another character.
pub proof fn start_is_after(s: Seq<char>, class: Class) -> (i: int)
    ensures
        0 <= i <= s.len(),
        trimmed_start(s, class) == s.skip(i),
        forall|k: int| 0 <= k < i ==> class.has(#[trigger] s[k]),
        i < s.len() ==> !class.has(s[i]),
    decreases s.len(),
{
    if s.len() > 0 && class.has(s[0]) {
        let t = s.skip(1);
        let i = start_is_after(t, class);
        assert(t.skip(i) =~= s.skip(i + 1));
        assert forall|k: int| 0 <= k < i + 1 implies class.has(#[trigger] s[k]) by {
            if k > 0 {
                assert(t[k - 1] == s[k]);
            }
        }
        if i < t.len() {
            assert(t[i] == s[i + 1]);
        }
        i + 1
    } else {
        assert(s.skip(0) =~= s);
        0
    }
}

proof fn prefix_follows_blank(line: Seq<char>, p: Seq<char>) -> (i: int)
    requires
        p.len() > 0,
        !is_space(p[0]),
    ensures
        0 <= i <= line.len(),
        trimmed_start(line, Class::Space) == line.skip(i),
        p.is_prefix_of(line.skip(i)) <==> follows_blank(line, p, i),
        forall|j: int| #[trigger] follows_blank(line, p, j) ==> j == i,
{
    let i = start_is_after(line, Class::Space);
    assert forall|k: int| 0 <= k < i implies is_space(#[trigger] line[k]) by {
        assert(Class::Space.has(line[k]));
    }
    let t = line.skip(i);
    if p.is_prefix_of(t) {
        assert(line.subrange(i, i + p.len()) =~= p);
    }
    if follows_blank(line, p, i) {
        assert(t.take(p.len() as int) =~= p);
    }
    assert forall|j: int| #[trigger] follows_blank(line, p, j) implies j == i by {
        assert(line.subrange(j, j + p.len())[0] == line[j]);
        if i < j {
            assert(is_space(line[i]));
        } else if j < i {
            assert(is_space(line[j]));
        }
    }
    i
}

/// A line opens or closes a code block where, after white space, it begins with
/// three backticks or three tildes.
pub proof fn code_fences_are_three_marks(line: Seq<char>)
    ensures
        is_code_fence(line) <==> exists|i: int|
            follows_blank(line, seq!['`', '`', '`'], i) || follows_blank(
                line,
                seq!['~', '~', '~'],
                i,
            ),
{
    reveal_strlit("```");
    reveal_strlit("~~~");
    let (a, b) = (seq!['`', '`', '`'], seq!['~', '~', '~']);
    assert("```"@ =~= a);
    assert("~~~"@ =~= b);
    let i = prefix_follows_blank(line, a);
    let j = prefix_follows_blank(line, b);
    assert(line.skip(i) == line.skip(j));
    assert(i == j) by {
        assert(line.skip(i).len() == line.skip(j).len());
    }
}

/// A first-level heading is a line with a number sign and a blank after white
/// space, and text after them: the heading's title, trimmed.
pub proof fn first_level_headings_have_one_mark(line: Seq<char>)
    ensures
        match choose_heading(line) {
            Some(i) => h1_value(line) == trim(line.skip(i + 2)),
            None => h1_value(line).len() == 0,
        },
{
    reveal_strlit("# ");
    let p = seq!['#', ' '];
    assert("# "@ =~= p);
    let i = prefix_follows_blank(line, p);
    let t = line.skip(i);
    if follows_blank(line, p, i) {
        assert(exists|j: int| follows_blank(line, p, j));
        assert(choose_heading(line) == Some(i));
        assert(t.skip(2) =~= line.skip(i + 2));
    }
}

/// Where a line's number sign stands, if it is followed by a blank and preceded
/// by white space only.
pub open spec fn choose_heading(line: Seq<char>) -> Option<int> {
    if exists|i: int| follows_blank(line, seq!['#', ' '], i) {
        Some(choose|i: int| follows_blank(line, seq!['#', ' '], i))
    } else {
        None
    }
}

/// A line declares a title where, trimmed, it begins with `title:`: what follows,
/// trimmed, without the quotation marks around it, and trimmed again.
pub proof fn titles_are_declared_by_key(line: Seq<char>, value: Seq<char>)
    ensures
        trim(line) == seq!['t', 'i', 't', 'l', 'e', ':'] + value ==> title_value(line) == trim(
            trimmed(trim(value), Class::Quote),
        ),
        !seq!['t', 'i', 't', 'l', 'e', ':'].is_prefix_of(trim(line)) ==> title_value(line).len()
            == 0,
{
    reveal_strlit("title:");
    let key = seq!['t', 'i', 't', 'l', 'e', ':'];
    assert("title:"@ =~= key);
    assert((key + value).skip(6) =~= value);
    assert(key.is_prefix_of(key + value)) by {
        assert((key + value).take(6) =~= key);
    }
}

proof fn title_from_is_first(all: Seq<Seq<char>>, k: int)
    requires
        0 <= k,
    ensures
        match title_from(all, k) {
            Some(t) => exists|n: int|
                k <= n < all.len() && t == title_value(#[trigger] all[n]) && t.len() > 0
                    && forall|m: int|
                    k <= m < n ==> title_value(#[trigger] all[m]).len() == 0,
            None => forall|m: int| k <= m < all.len() ==> title_value(#[trigger] all[m]).len() == 0,
        },
    decreases all.len() - k,
{
    if k < all.len() {
        if title_value(all[k]).len() == 0 {
            title_from_is_first(all, k + 1);
            if let Some(t) = title_from(all, k + 1) {
                let n = choose|n: int|
                    k + 1 <= n < all.len() && t == title_value(#[trigger] all[n]) && t.len() > 0
                        && forall|m: int|
                        k + 1 <= m < n ==> title_value(#[trigger] all[m]).len() == 0;
                assert(k <= n < all.len() && t == title_value(all[n]));
            }
        } else {
            assert(title_from(all, k) == Some(title_value(all[k])));
        }
    }
}

/// Whether the line at `n` is the first from `k` on that holds a heading outside
/// of code blocks.
pub open spec fn first_heading(all: Seq<Seq<char>>, k: int, n: int) -> bool {
    &&& k <= n < all.len() && outside_code(all, n) && h1_value(all[n]).len() > 0
    &&& forall|m: int| k <= m < n && outside_code(all, m) ==> h1_value(#[trigger] all[m]).len() == 0
}

proof fn h1_from_is_first(all: Seq<Seq<char>>, k: int, in_code: bool)
    requires
        0 <= k,
        in_code <==> fences_before(all, k) % 2 == 1,
    ensures
        match h1_from(all, k, in_code) {
            Some(t) => exists|n: int| #[trigger]
                first_heading(all, k, n) && t == h1_value(all[n]),
            None => forall|m: int|
                k <= m < all.len() && outside_code(all, m) ==> h1_value(#[trigger] all[m]).len()
                    == 0,
        },
    decreases all.len() - k,
{
    if k < all.len() {
        let next = if is_code_fence(all[k]) {
            !in_code
        } else {
            in_code
        };
        if is_code_fence(all[k]) || in_code || h1_value(all[k]).len() == 0 {
            h1_from_is_first(all, k + 1, next);
            assert(h1_from(all, k, in_code) == h1_from(all, k + 1, next));
            if let Some(t) = h1_from(all, k + 1, next) {
                let n = choose|n: int| #[trigger]
                    first_heading(all, k + 1, n) && t == h1_value(all[n]);
                assert(first_heading(all, k, n));
            }
        } else {
            assert(first_heading(all, k, k));
        }
    }
}

/// Whether the line at `n` is the first that declares a title.
pub open spec fn first_declaration(all: Seq<Seq<char>>, n: int) -> bool {
    &&& 0 <= n < all.len() && title_value(all[n]).len() > 0
    &&& forall|m: int| 0 <= m < n ==> title_value(#[trigger] all[m]).len() == 0
}

/// Whether `t` is the title that the first line with one declares.
pub open spec fn is_declared(all: Seq<Seq<char>>, t: Seq<char>) -> bool {
    exists|n: int| #[trigger] first_declaration(all, n) && t == title_value(all[n])
}

/// Whether `t` is the first heading of the first level outside of code blocks.
pub open spec fn is_first_heading(all: Seq<Seq<char>>, t: Seq<char>) -> bool {
    exists|n: int| #[trigger] first_heading(all, 0, n) && t == h1_value(all[n])
}

/// The lines of a frontmatter, if there is one.
pub open spec fn frontmatter_lines(frontmatter: Option<Seq<char>>) -> Seq<Seq<char>> {
    match frontmatter {
        Some(s) => lines(s),
        None => seq![],
    }
}

/// A note's title is the one that the first line of its frontmatter with a title
/// declares; else that of the first heading of the first level outside of code
/// blocks; else its file stem; else `untitled`.
pub proof fn titles_come_from_the_first_source(
    path: Seq<char>,
    frontmatter: Option<Seq<char>>,
    body: Seq<char>,
)
    ensures
        ({
            let t = title_of(path, frontmatter, body);
            let fm = frontmatter_lines(frontmatter);
            let all = lines(body);
            if exists|n: int| first_declaration(fm, n) {
                is_declared(fm, t)
            } else if exists|n: int| first_heading(all, 0, n) {
                is_first_heading(all, t)
            } else if file_stem(path) is Some {
                t == file_stem(path)->0
            } else {
                t == "untitled"@
            }
        }),
{
    let t = title_of(path, frontmatter, body);
    let fm = frontmatter_lines(frontmatter);
    let all = lines(body);
    title_from_is_first(fm, 0);
    h1_from_is_first(all, 0, false);
    let declared = match frontmatter {
        Some(s) => title_from(lines(s), 0),
        None => None,
    };
    assert(declared == title_from(fm, 0));
    if let Some(v) = title_from(fm, 0) {
        assert(t == v);
        let n = choose|n: int|
            0 <= n < fm.len() && v == title_value(#[trigger] fm[n]) && v.len() > 0 && forall|m: int|
                0 <= m < n ==> title_value(#[trigger] fm[m]).len() == 0;
        assert(first_declaration(fm, n));
        assert(is_declared(fm, t));
    } else {
        assert forall|n: int| !#[trigger] first_declaration(fm, n) by {
            if first_declaration(fm, n) {
                assert(title_value(fm[n]).len() == 0);
            }
        }
        if let Some(v) = h1_from(all, 0, false) {
            assert(t == v);
            assert(is_first_heading(all, t));
        } else {
            assert forall|n: int| !#[trigger] first_heading(all, 0, n) by {
                if first_heading(all, 0, n) {
                    assert(h1_value(all[n]).len() == 0);
                }
            }
        }
    }
}

} // verus!
