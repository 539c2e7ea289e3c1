//! What splitting, joining and trimming texts come to.
use vstd::prelude::*;

use crate::text::{
    decimal, digit, distinct, index_or_end, is_space, join, lines, run_end, run_end_bounds,
    split_at, trimmed, trimmed_end, trimmed_start, words, words_from, Class,
};

verus! {

/// Where a run ends does not depend on what comes before it.
proof fn run_end_shift(s: Seq<char>, space: bool, i: int, j: int)
    requires
        0 <= i <= s.len(),
        0 <= j,
        i + j <= s.len(),
    ensures
        run_end(s, space, i + j) == i + run_end(s.skip(i), space, j),
    decreases s.len() - i - j,
{
    if i + j < s.len() && is_space(s[i + j]) == space {
        run_end_shift(s, space, i, j + 1);
    }
}

proof fn words_shift(s: Seq<char>, i: int, j: int)
    requires
        0 <= i <= s.len(),
        0 <= j,
        i + j <= s.len(),
    ensures
        words_from(s, i + j) == words_from(s.skip(i), j),
    decreases s.len() - i - j,
{
    let t = s.skip(i);
    let start = run_end(s, true, i + j);
    run_end_shift(s, true, i, j);
    run_end_bounds(s, true, i + j);
    if start < s.len() {
        let end = run_end(s, false, start);
        run_end_shift(s, false, i, start - i);
        run_end_bounds(s, false, start);
        crate::chunk_laws::word_is_not_empty(s, i + j);
        words_shift(s, i, end - i);
        assert(s.subrange(start, end) =~= t.subrange(start - i, end - i));
    }
}

/// White space at the start makes no word.
proof fn space_makes_no_word(s: Seq<char>)
    requires
        s.len() > 0,
        is_space(s[0]),
    ensures
        words(s) == words(s.skip(1)),
{
    words_shift(s, 1, 0);
    assert(run_end(s, true, 0) == run_end(s, true, 1));
}

/// A run that ends within a text ends there whatever follows; one that reaches
/// its end goes no further where something else follows.
proof fn run_end_within(a: Seq<char>, t: Seq<char>, space: bool, i: int)
    requires
        0 <= i <= a.len(),
        run_end(a, space, i) < a.len() || (t.len() > 0 && is_space(t[0]) != space),
    ensures
        run_end(a + t, space, i) == run_end(a, space, i),
    decreases a.len() - i,
{
    if i < a.len() && is_space(a[i]) == space {
        run_end_within(a, t, space, i + 1);
    }
}

/// White space parts words: the words of a text with a white space in it are
/// those before it and then those after it.
pub proof fn words_part_at_white_space(a: Seq<char>, c: char, b: Seq<char>)
    requires
        is_space(c),
    ensures
        words(a.push(c) + b) == words(a) + words(b),
    decreases a.len(),
{
    let s = a.push(c) + b;
    let tail = seq![c] + b;
    assert(s =~= a + tail);
    assert(tail.skip(1) =~= b);
    space_makes_no_word(tail);
    if a.len() == 0 {
        assert(s =~= tail);
        assert(words(a) =~= seq![]);
        assert(words(a) + words(b) =~= words(b));
    } else if is_space(a[0]) {
        space_makes_no_word(a);
        space_makes_no_word(s);
        assert(s.skip(1) =~= a.skip(1).push(c) + b);
        words_part_at_white_space(a.skip(1), c, b);
    } else {
        let end = run_end(a, false, 0);
        run_end_bounds(a, false, 0);
        run_end_within(a, tail, false, 0);
        assert(run_end(a, true, 0) == 0);
        assert(run_end(s, true, 0) == 0);
        crate::chunk_laws::word_is_not_empty(a, 0);
        assert(s.subrange(0, end) =~= a.subrange(0, end));
        words_shift(a, end, 0);
        words_shift(s, end, 0);
        assert(s.skip(end) =~= a.skip(end).push(c) + b);
        words_part_at_white_space(a.skip(end), c, b);
        assert(words(s) =~= words(a) + words(b));
    }
}

proof fn run_of_one_kind(s: Seq<char>, space: bool, i: int)
    requires
        0 <= i <= s.len(),
        forall|k: int| 0 <= k < s.len() ==> is_space(#[trigger] s[k]) == space,
    ensures
        run_end(s, space, i) == s.len(),
    decreases s.len() - i,
{
    if i < s.len() {
        run_of_one_kind(s, space, i + 1);
    }
}

/// A text without white space is one word; the empty text is none.
pub proof fn a_word_is_one_word(s: Seq<char>)
    requires
        forall|k: int| 0 <= k < s.len() ==> !is_space(#[trigger] s[k]),
    ensures
        s.len() > 0 ==> words(s) == seq![s],
        s.len() == 0 ==> words(s).len() == 0,
{
    if s.len() > 0 {
        run_of_one_kind(s, false, 0);
        assert(run_end(s, true, 0) == 0);
        assert(s.subrange(0, s.len() as int) =~= s);
        assert(words_from(s, s.len() as int) =~= seq![]);
        assert(words(s) =~= seq![s]);
    }
}

/// Parts are joined in order, with the separator between each two of them.
pub proof fn joined_in_order(a: Seq<Seq<char>>, b: Seq<Seq<char>>, sep: Seq<char>)
    ensures
        join(seq![], sep).len() == 0,
        b.len() == 1 ==> join(b, sep) == b[0],
        a.len() > 0 && b.len() > 0 ==> join(a + b, sep) == join(a, sep) + sep + join(b, sep),
    decreases b.len(),
{
    if a.len() > 0 && b.len() > 0 {
        assert((a + b).drop_last() =~= a + b.drop_last());
        assert((a + b).last() == b.last());
        if b.len() == 1 {
            assert(a + b.drop_last() =~= a);
        } else {
            joined_in_order(a, b.drop_last(), sep);
            assert(join(a + b, sep) =~= join(a, sep) + sep + join(b, sep));
        }
    }
}

/// Whether a text is a part of another between `i` and `j`, and all that stands
/// outside of it is of a class.
pub open spec fn is_core(t: Seq<char>, s: Seq<char>, class: Class, i: int, j: int) -> bool {
    &&& 0 <= i <= j <= s.len()
    &&& t == s.subrange(i, j)
    &&& forall|k: int| 0 <= k < i ==> class.has(#[trigger] s[k])
    &&& forall|k: int| j <= k < s.len() ==> class.has(#[trigger] s[k])
}

proof fn trimmed_start_core(s: Seq<char>, class: Class) -> (i: int)
    ensures
        is_core(trimmed_start(s, class), s, class, i, s.len() as int),
    decreases s.len(),
{
    if s.len() > 0 && class.has(s[0]) {
        let t = s.skip(1);
        let i = trimmed_start_core(t, class);
        assert(s.subrange(i + 1, s.len() as int) =~= t.subrange(i, t.len() as int));
        assert forall|k: int| 0 <= k < i + 1 implies class.has(#[trigger] s[k]) by {
            if k > 0 {
                assert(t[k - 1] == s[k]);
            }
        }
        i + 1
    } else {
        assert(s.subrange(0, s.len() as int) =~= s);
        0
    }
}

proof fn trimmed_end_core(s: Seq<char>, class: Class) -> (j: int)
    ensures
        is_core(trimmed_end(s, class), s, class, 0, j),
    decreases s.len(),
{
    if s.len() > 0 && class.has(s.last()) {
        let t = s.drop_last();
        let j = trimmed_end_core(t, class);
        assert(s.subrange(0, j) =~= t.subrange(0, j));
        assert forall|k: int| j <= k < s.len() implies class.has(#[trigger] s[k]) by {
            if k < t.len() {
                assert(t[k] == s[k]);
            }
        }
        j
    } else {
        assert(s.subrange(0, s.len() as int) =~= s);
        s.len() as int
    }
}

/// Trimming takes away only what is of the class, at the ends: what is left is
/// a part of the text, and all that stands before or after it is of the class.
pub proof fn trimming_keeps_the_core(s: Seq<char>, class: Class)
    ensures
        exists|i: int, j: int| #[trigger] is_core(trimmed(s, class), s, class, i, j),
{
    let t = trimmed_start(s, class);
    let i = trimmed_start_core(s, class);
    let j = trimmed_end_core(t, class);
    assert(trimmed(s, class) =~= s.subrange(i, i + j));
    assert forall|k: int| i + j <= k < s.len() implies class.has(#[trigger] s[k]) by {
        assert(t[k - i] == s[k]);
    }
    assert(is_core(trimmed(s, class), s, class, i, i + j));
}

proof fn index_within(a: Seq<char>, c: char, b: Seq<char>, i: int)
    requires
        0 <= i <= a.len(),
        forall|k: int| 0 <= k < a.len() ==> #[trigger] a[k] != c,
    ensures
        index_or_end(a, c, i) == a.len(),
        index_or_end(a.push(c) + b, c, i) == a.len(),
    decreases a.len() - i,
{
    let s = a.push(c) + b;
    if i < a.len() {
        assert(s[i] == a[i]);
        index_within(a, c, b, i + 1);
    } else {
        assert(s[i] == c);
    }
}

/// A text is split at each separator: up to the first one, and then the rest.
pub proof fn split_at_each_separator(a: Seq<char>, c: char, b: Seq<char>)
    requires
        forall|k: int| 0 <= k < a.len() ==> #[trigger] a[k] != c,
    ensures
        split_at(a, c) == seq![a],
        split_at(a.push(c) + b, c) == seq![a] + split_at(b, c),
{
    let s = a.push(c) + b;
    index_within(a, c, b, 0);
    assert(s.take(a.len() as int) =~= a);
    assert(s.skip((a.len() + 1) as int) =~= b);
}

/// A line ends at a line feed, which is not part of it, nor is a carriage return
/// before it; what follows the last line feed is a line unless it is empty.
pub proof fn lines_end_at_line_feeds(a: Seq<char>, b: Seq<char>)
    requires
        forall|k: int| 0 <= k < a.len() ==> #[trigger] a[k] != '\n',
    ensures
        a.len() == 0 ==> lines(a).len() == 0,
        a.len() > 0 ==> lines(a) == seq![a],
        a.len() > 0 && a.last() == '\r' ==> lines(a.push('\n') + b) == seq![a.drop_last()] + lines(
            b,
        ),
        a.len() == 0 || a.last() != '\r' ==> lines(a.push('\n') + b) == seq![a] + lines(b),
{
    let s = a.push('\n') + b;
    index_within(a, '\n', b, 0);
    assert(s.take(a.len() as int) =~= a);
    assert(s.skip((a.len() + 1) as int) =~= b);
}

/// Without its repeats, a list holds what it held, each once, in the order in
/// which they first came: one more item is added at the end if it is new.
pub proof fn repeats_are_dropped(v: Seq<Seq<char>>, x: Seq<char>)
    ensures
        distinct(seq![]).len() == 0,
        distinct(v.push(x)) == if v.contains(x) {
            distinct(v)
        } else {
            distinct(v).push(x)
        },
        forall|y: Seq<char>| #[trigger] distinct(v).contains(y) <==> v.contains(y),
        distinct(v).no_duplicates(),
{
    crate::text::distinct_facts(v);
    assert(v.push(x).drop_last() =~= v);
    assert(v.push(x).last() == x);
}

/// The number that some digits stand for.
pub open spec fn read_digits(s: Seq<char>) -> int
    decreases s.len(),
{
    if s.len() == 0 {
        0
    } else {
        10 * read_digits(s.drop_last()) + (s.last() as int - '0' as int)
    }
}

/// The digits of a number stand for it, are digits, and have no leading zero.
pub proof fn digits_stand_for_the_number(n: nat)
    ensures
        read_digits(decimal(n)) == n,
        decimal(n).len() > 0,
        n > 0 ==> decimal(n)[0] != '0',
        forall|k: int| 0 <= k < decimal(n).len() ==> '0' <= #[trigger] decimal(n)[k] <= '9',
    decreases n,
{
    if n < 10 {
        let d = seq![digit(n)];
        assert(decimal(n) == d);
        assert(d.drop_last() =~= seq![]);
        assert(read_digits(d.drop_last()) == 0);
    } else {
        digits_stand_for_the_number(n / 10);
        let head = decimal(n / 10);
        assert(head.push(digit(n % 10)).drop_last() =~= head);
    }
}

/// White space is the tabulator, the line feed and their kin, the blank, and the
/// spaces and separators of other scripts.
pub proof fn white_space_is_that_of_unicode(c: char)
    ensures
        is_space(c) <==> {
            ||| c == '\t' || c == '\n' || c == '\u{b}' || c == '\u{c}' || c == '\r' || c == ' '
            ||| c == '\u{85}' || c == '\u{a0}' || c == '\u{1680}'
            ||| c == '\u{2000}' || c == '\u{2001}' || c == '\u{2002}' || c == '\u{2003}'
            ||| c == '\u{2004}' || c == '\u{2005}' || c == '\u{2006}' || c == '\u{2007}'
            ||| c == '\u{2008}' || c == '\u{2009}' || c == '\u{200a}'
            ||| c == '\u{2028}' || c == '\u{2029}' || c == '\u{202f}' || c == '\u{205f}'
            ||| c == '\u{3000}'
        },
        Class::Space.has(c) <==> is_space(c),
        Class::Quote.has(c) <==> c == '"' || c == '\'',
        Class::Hash.has(c) <==> c == '#',
{
}

} // verus!
