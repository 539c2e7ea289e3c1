//! Text as sequences of characters: searching, trimming, splitting, joining.
//!
//! The executable functions work on `&[char]`; their contracts speak of
//! `Seq<char>`, which is also the view of `str` and `String`.
use vstd::prelude::*;
use vstd::slice::slice_subrange;

verus! {

/// Standard `String::push`: the string grows by one character at its end.
pub assume_specification[ String::push ](s: &mut String, c: char)
    ensures
        final(s)@ == old(s)@.push(c),
;

/// The texts held by a sequence of strings.
pub open spec fn texts(v: Seq<String>) -> Seq<Seq<char>> {
    Seq::new(v.len(), |i: int| v[i]@)
}

/// An optional string's text.
pub open spec fn opt_text(s: Option<String>) -> Option<Seq<char>> {
    match s {
        Some(t) => Some(t@),
        None => None,
    }
}

/// The characters of `s`, in order.
pub fn to_chars(s: &str) -> (r: Vec<char>)
    ensures
        r@ == s@,
{
    let mut r: Vec<char> = Vec::new();
    for c in it: s.chars()
        invariant
            r@ == it.seq().take(it.index() as int),
            it.seq() == s@,
    {
        r.push(c);
    }
    r
}

/// The string made of the characters of `s`.
pub fn to_text(s: &[char]) -> (r: String)
    ensures
        r@ == s@,
{
    let mut r: String = String::new();
    let mut i: usize = 0;
    while i < s.len()
        invariant
            i <= s.len(),
            r@ == s@.take(i as int),
        decreases s.len() - i,
    {
        r.push(s[i]);
        i += 1;
        assert(s@.take(i as int) =~= s@.take(i - 1).push(s@[i - 1]));
    }
    assert(s@.take(i as int) =~= s@);
    r
}

/// Whether two character slices hold the same characters.
pub fn same(a: &[char], b: &[char]) -> (r: bool)
    ensures
        r == (a@ == b@),
{
    if a.len() != b.len() {
        return false;
    }
    let mut i: usize = 0;
    while i < a.len()
        invariant
            i <= a.len(),
            a.len() == b.len(),
            forall|k: int| 0 <= k < i ==> a@[k] == b@[k],
        decreases a.len() - i,
    {
        if a[i] != b[i] {
            assert(a@[i as int] != b@[i as int]);
            return false;
        }
        i += 1;
    }
    assert(a@ =~= b@);
    true
}

/// Whether two string slices hold the same text.
pub fn same_text(a: &str, b: &str) -> (r: bool)
    ensures
        r == (a@ == b@),
{
    same(to_chars(a).as_slice(), to_chars(b).as_slice())
}

/// An owned copy of each string.
pub fn copy_texts(v: &[String]) -> (r: Vec<String>)
    ensures
        texts(r@) == texts(v@),
{
    let mut r: Vec<String> = Vec::new();
    let mut i: usize = 0;
    while i < v.len()
        invariant
            i <= v.len(),
            texts(r@) == texts(v@.take(i as int)),
        decreases v.len() - i,
    {
        r.push(v[i].clone());
        i += 1;
        assert(texts(v@.take(i as int)) =~= texts(v@.take(i - 1)).push(v@[i - 1]@));
        assert(texts(r@) =~= texts(v@.take(i as int)));
    }
    assert(v@.take(i as int) =~= v@);
    r
}

/// Whether `v` holds the text of `s`.
pub fn holds_text(v: &[String], s: &str) -> (r: bool)
    ensures
        r == texts(v@).contains(s@),
{
    let mut i: usize = 0;
    while i < v.len()
        invariant
            i <= v.len(),
            forall|k: int| 0 <= k < i ==> v@[k]@ != s@,
        decreases v.len() - i,
    {
        if same_text(v[i].as_str(), s) {
            assert(texts(v@)[i as int] == s@);
            return true;
        }
        i += 1;
    }
    assert forall|k: int| 0 <= k < texts(v@).len() implies texts(v@)[k] != s@ by {
        assert(v@[k]@ != s@);
    }
    false
}

/// Characters with the Unicode `White_Space` property.
pub open spec fn is_space(c: char) -> bool {
    let n = c as int;
    ||| 9 <= n <= 13
    ||| n == 32
    ||| n == 0x85
    ||| n == 0xA0
    ||| n == 0x1680
    ||| 0x2000 <= n <= 0x200A
    ||| n == 0x2028
    ||| n == 0x2029
    ||| n == 0x202F
    ||| n == 0x205F
    ||| n == 0x3000
}

/// The kinds of characters that are trimmed from the ends of a text.
#[derive(Clone, Copy)]
pub enum Class {
    /// White space.
    Space,
    /// Single and double quotation marks.
    Quote,
    /// The number sign.
    Hash,
}

impl Class {
    /// Whether `c` is of this class.
    pub open spec fn has(self, c: char) -> bool {
        match self {
            Class::Space => is_space(c),
            Class::Quote => c == '"' || c == '\'',
            Class::Hash => c == '#',
        }
    }

    /// Whether `c` is of this class.
    pub fn holds(self, c: char) -> (r: bool)
        ensures
            r == self.has(c),
    {
        match self {
            Class::Space => {
                let n: u32 = c as u32;
                (9 <= n && n <= 13) || n == 32 || n == 0x85 || n == 0xA0 || n == 0x1680 || (0x2000
                    <= n && n <= 0x200A) || n == 0x2028 || n == 0x2029 || n == 0x202F || n == 0x205F
                    || n == 0x3000
            },
            Class::Quote => c == '"' || c == '\'',
            Class::Hash => c == '#',
        }
    }
}

/// `s` without the characters of `class` at its start.
pub open spec fn trimmed_start(s: Seq<char>, class: Class) -> Seq<char>
    decreases s.len(),
{
    if s.len() > 0 && class.has(s[0]) {
        trimmed_start(s.skip(1), class)
    } else {
        s
    }
}

/// `s` without the characters of `class` at its end.
pub open spec fn trimmed_end(s: Seq<char>, class: Class) -> Seq<char>
    decreases s.len(),
{
    if s.len() > 0 && class.has(s.last()) {
        trimmed_end(s.drop_last(), class)
    } else {
        s
    }
}

/// `s` without the characters of `class` at either end.
pub open spec fn trimmed(s: Seq<char>, class: Class) -> Seq<char> {
    trimmed_end(trimmed_start(s, class), class)
}

/// `s` without the white space at either end.
pub open spec fn trim(s: Seq<char>) -> Seq<char> {
    trimmed(s, Class::Space)
}

/// Drops the characters of `class` at the start of `s`.
pub fn strip_start(s: &[char], class: Class) -> (r: &[char])
    ensures
        r@ == trimmed_start(s@, class),
{
    let mut i: usize = 0;
    assert(s@.skip(0) =~= s@);
    while i < s.len() && class.holds(s[i])
        invariant
            i <= s.len(),
            trimmed_start(s@, class) == trimmed_start(s@.skip(i as int), class),
        decreases s.len() - i,
    {
        assert(s@.skip(i as int).skip(1) =~= s@.skip(i + 1));
        i += 1;
    }
    let r = slice_subrange(s, i, s.len());
    assert(r@ =~= s@.skip(i as int));
    r
}

/// Drops the characters of `class` at the end of `s`.
pub fn strip_end(s: &[char], class: Class) -> (r: &[char])
    ensures
        r@ == trimmed_end(s@, class),
{
    let mut n: usize = s.len();
    assert(s@.take(n as int) =~= s@);
    while n > 0 && class.holds(s[n - 1])
        invariant
            n <= s.len(),
            trimmed_end(s@, class) == trimmed_end(s@.take(n as int), class),
        decreases n,
    {
        assert(s@.take(n as int).drop_last() =~= s@.take(n - 1));
        n -= 1;
    }
    let r = slice_subrange(s, 0, n);
    assert(r@ =~= s@.take(n as int));
    r
}

/// Drops the characters of `class` at both ends of `s`.
pub fn strip(s: &[char], class: Class) -> (r: &[char])
    ensures
        r@ == trimmed(s@, class),
{
    strip_end(strip_start(s, class), class)
}

/// Whether `p` stands in `s` at index `i`.
pub open spec fn occurs_at(s: Seq<char>, p: Seq<char>, i: int) -> bool {
    0 <= i && i + p.len() <= s.len() && s.subrange(i, i + p.len()) == p
}

/// The first index at or after `i` at which `p` stands in `s`.
pub open spec fn find_from(s: Seq<char>, p: Seq<char>, i: int) -> Option<int>
    decreases s.len() + 1 - i,
{
    if i < 0 || i + p.len() > s.len() {
        None
    } else if occurs_at(s, p, i) {
        Some(i)
    } else {
        find_from(s, p, i + 1)
    }
}

/// Whether `p` stands in `s` at index `i`.
pub fn stands_at(s: &[char], p: &str, i: usize) -> (r: bool)
    requires
        i <= s.len(),
    ensures
        r == occurs_at(s@, p@, i as int),
{
    let p = to_chars(p);
    if s.len() - i < p.len() {
        return false;
    }
    same(slice_subrange(s, i, i + p.len()), p.as_slice())
}

/// Whether `s` begins with `p`.
pub fn begins_with(s: &[char], p: &str) -> (r: bool)
    ensures
        r == p@.is_prefix_of(s@),
{
    let r = stands_at(s, p, 0);
    proof {
        if p@.is_prefix_of(s@) {
            assert(s@.subrange(0, p@.len() as int) =~= p@);
        }
        if occurs_at(s@, p@, 0) {
            assert(p@ =~= s@.take(p@.len() as int));
            assert(p@.is_prefix_of(s@));
        }
    }
    r
}

/// The part of `s` after the prefix `p`, if it has it.
pub fn after_prefix<'a>(s: &'a [char], p: &str) -> (r: Option<&'a [char]>)
    ensures
        r is Some <==> p@.is_prefix_of(s@),
        r is Some ==> r->0@ == s@.skip(p@.len() as int),
{
    if !begins_with(s, p) {
        return None;
    }
    let n: usize = to_chars(p).len();
    let r = slice_subrange(s, n, s.len());
    assert(r@ =~= s@.skip(n as int));
    Some(r)
}

/// The first index at or after `from` at which `p` stands in `s`.
pub fn find(s: &[char], p: &str, from: usize) -> (r: Option<usize>)
    requires
        from <= s.len(),
    ensures
        match r {
            Some(i) => find_from(s@, p@, from as int) == Some(i as int),
            None => find_from(s@, p@, from as int) is None,
        },
        r is Some ==> from <= r->0 && r->0 + p@.len() <= s@.len(),
{
    let n: usize = to_chars(p).len();
    let mut i: usize = from;
    while i <= s.len() && n <= s.len() - i
        invariant
            from <= i,
            i <= s.len() + 1,
            n == p@.len(),
            s.len() < usize::MAX || n > 0 || i <= s.len(),
            find_from(s@, p@, from as int) == find_from(s@, p@, i as int),
        decreases s.len() + 1 - i,
    {
        if stands_at(s, p, i) {
            return Some(i);
        }
        assert(n > 0) by {
            if n == 0 {
                assert(s@.subrange(i as int, i as int) =~= p@);
            }
        }
        i += 1;
    }
    None
}

/// The first index at or after `i` of a character equal to `c`, or the length.
pub open spec fn index_or_end(s: Seq<char>, c: char, i: int) -> int
    decreases s.len() - i,
{
    if i < 0 || i >= s.len() {
        s.len() as int
    } else if s[i] == c {
        i
    } else {
        index_or_end(s, c, i + 1)
    }
}

pub proof fn index_or_end_bounds(s: Seq<char>, c: char, i: int)
    requires
        0 <= i <= s.len(),
    ensures
        i <= index_or_end(s, c, i) <= s.len(),
        index_or_end(s, c, i) < s.len() ==> s[index_or_end(s, c, i)] == c,
        forall|k: int| i <= k < index_or_end(s, c, i) ==> s[k] != c,
    decreases s.len() - i,
{
    if i < s.len() && s[i] != c {
        index_or_end_bounds(s, c, i + 1);
    }
}

/// The first index at or after `from` of a character equal to `c`, or the length.
pub fn find_char(s: &[char], c: char, from: usize) -> (r: usize)
    requires
        from <= s.len(),
    ensures
        r == index_or_end(s@, c, from as int),
        from <= r <= s.len(),
        r < s.len() ==> s@[r as int] == c,
{
    let mut i: usize = from;
    while i < s.len() && s[i] != c
        invariant
            from <= i <= s.len(),
            index_or_end(s@, c, from as int) == index_or_end(s@, c, i as int),
        decreases s.len() - i,
    {
        i += 1;
    }
    i
}

/// The part of `s` before the first `c`, or all of it.
pub open spec fn before(s: Seq<char>, c: char) -> Seq<char> {
    s.take(index_or_end(s, c, 0))
}

/// The part of `s` before the first `c`, or all of it.
pub fn up_to(s: &[char], c: char) -> (r: &[char])
    ensures
        r@ == before(s@, c),
{
    let n = find_char(s, c, 0);
    let r = slice_subrange(s, 0, n);
    assert(r@ =~= s@.take(n as int));
    r
}

/// The pieces of `s` between the occurrences of `c`: one more than those.
pub open spec fn split_at(s: Seq<char>, c: char) -> Seq<Seq<char>>
    decreases s.len(),
    via split_at_decreases
{
    let n = index_or_end(s, c, 0);
    if n >= s.len() {
        seq![s]
    } else {
        seq![s.take(n)] + split_at(s.skip(n + 1), c)
    }
}

#[via_fn]
proof fn split_at_decreases(s: Seq<char>, c: char) {
    index_or_end_bounds(s, c, 0);
}

/// A line without the carriage return that ends it.
pub open spec fn without_return(s: Seq<char>) -> Seq<char> {
    if s.len() > 0 && s.last() == '\r' {
        s.drop_last()
    } else {
        s
    }
}

/// The lines of `s`: a line ends at `\n` or `\r\n`, or at the end of the text;
/// nothing after the last line ending makes no line.
pub open spec fn lines(s: Seq<char>) -> Seq<Seq<char>>
    decreases s.len(),
    via lines_decreases
{
    let n = index_or_end(s, '\n', 0);
    if s.len() == 0 {
        seq![]
    } else if n >= s.len() {
        seq![s]
    } else {
        seq![without_return(s.take(n))] + lines(s.skip(n + 1))
    }
}

#[via_fn]
proof fn lines_decreases(s: Seq<char>) {
    index_or_end_bounds(s, '\n', 0);
}

/// The text of each slice.
pub open spec fn slices(v: Seq<&[char]>) -> Seq<Seq<char>> {
    Seq::new(v.len(), |i: int| v[i]@)
}

/// Splits `s` into its lines.
pub fn split_lines(s: &[char]) -> (r: Vec<&[char]>)
    ensures
        slices(r@) == lines(s@),
{
    let mut r: Vec<&[char]> = Vec::new();
    let mut i: usize = 0;
    assert(s@.skip(0) =~= s@);
    assert(slices(r@) + lines(s@) =~= lines(s@));
    while i < s.len()
        invariant
            i <= s.len(),
            lines(s@) == slices(r@) + lines(s@.skip(i as int)),
        decreases s.len() - i,
    {
        let rest = slice_subrange(s, i, s.len());
        assert(rest@ =~= s@.skip(i as int));
        let ghost before_push = slices(r@);
        let n = find_char(rest, '\n', 0);
        if n == rest.len() {
            r.push(rest);
            assert(slices(r@) =~= before_push.push(rest@));
            assert(lines(s@.skip(i as int)) =~= seq![rest@]);
            assert(slices(r@) =~= before_push + seq![rest@]);
            i = s.len();
            assert(lines(s@.skip(i as int)) =~= seq![]);
        } else {
            let line = slice_subrange(rest, 0, n);
            assert(line@ =~= rest@.take(n as int));
            let line = if n > 0 && line[n - 1] == '\r' {
                slice_subrange(line, 0, n - 1)
            } else {
                line
            };
            assert(line@ =~= without_return(rest@.take(n as int)));
            r.push(line);
            assert(slices(r@) =~= before_push.push(line@));
            assert(rest@.skip(n + 1) =~= s@.skip(i + n + 1));
            assert(lines(rest@) == seq![line@] + lines(s@.skip(i + n + 1)));
            assert(before_push + (seq![line@] + lines(s@.skip(i + n + 1))) =~= slices(r@) + lines(
                s@.skip(i + n + 1),
            ));
            i = i + n + 1;
        }
    }
    assert(lines(s@.skip(i as int)) =~= seq![]);
    assert(slices(r@) + seq![] =~= slices(r@));
    r
}

/// Splits `s` at every `c`.
pub fn split_char(s: &[char], c: char) -> (r: Vec<&[char]>)
    ensures
        slices(r@) == split_at(s@, c),
{
    let mut r: Vec<&[char]> = Vec::new();
    let mut i: usize = 0;
    assert(s@.skip(0) =~= s@);
    assert(slices(r@) + split_at(s@, c) =~= split_at(s@, c));
    loop
        invariant
            i <= s.len(),
            split_at(s@, c) == slices(r@) + split_at(s@.skip(i as int), c),
        decreases s.len() - i,
    {
        let rest = slice_subrange(s, i, s.len());
        assert(rest@ =~= s@.skip(i as int));
        let ghost before_push = slices(r@);
        let n = find_char(rest, c, 0);
        if n == rest.len() {
            r.push(rest);
            assert(slices(r@) =~= before_push + seq![rest@]);
            return r;
        }
        let piece = slice_subrange(rest, 0, n);
        assert(piece@ =~= rest@.take(n as int));
        r.push(piece);
        assert(rest@.skip(n + 1) =~= s@.skip(i + n + 1));
        assert(before_push + (seq![piece@] + split_at(s@.skip(i + n + 1), c)) =~= slices(r@)
            + split_at(s@.skip(i + n + 1), c));
        i = i + n + 1;
    }
}

/// The first index at or after `i` that does (`space`) or does not hold white
/// space, or the length.
pub open spec fn run_end(s: Seq<char>, space: bool, i: int) -> int
    decreases s.len() - i,
{
    if i < 0 || i >= s.len() {
        s.len() as int
    } else if is_space(s[i]) == space {
        run_end(s, space, i + 1)
    } else {
        i
    }
}

pub proof fn run_end_bounds(s: Seq<char>, space: bool, i: int)
    requires
        0 <= i <= s.len(),
    ensures
        i <= run_end(s, space, i) <= s.len(),
        i < s.len() && is_space(s[i]) == space ==> i < run_end(s, space, i),
        forall|k: int| i <= k < run_end(s, space, i) ==> is_space(s[k]) == space,
    decreases s.len() - i,
{
    if i < s.len() && is_space(s[i]) == space {
        run_end_bounds(s, space, i + 1);
    }
}

/// The maximal runs of characters other than white space, in order.
pub open spec fn words(s: Seq<char>) -> Seq<Seq<char>> {
    words_from(s, 0)
}

/// The words of `s` that begin at or after index `i`.
pub open spec fn words_from(s: Seq<char>, i: int) -> Seq<Seq<char>>
    decreases s.len() - i,
    when 0 <= i <= s.len()
    via words_from_decreases
{
    let start = run_end(s, true, i);
    let end = run_end(s, false, start);
    if start >= s.len() {
        seq![]
    } else {
        seq![s.subrange(start, end)] + words_from(s, end)
    }
}

#[via_fn]
proof fn words_from_decreases(s: Seq<char>, i: int) {
    run_end_bounds(s, true, i);
    let start = run_end(s, true, i);
    run_end_bounds(s, false, start);
    run_end_stops(s, true, i);
}

pub proof fn run_end_stops(s: Seq<char>, space: bool, i: int)
    requires
        0 <= i <= s.len(),
    ensures
        run_end(s, space, i) < s.len() ==> is_space(s[run_end(s, space, i)]) != space,
    decreases s.len() - i,
{
    if i < s.len() && is_space(s[i]) == space {
        run_end_stops(s, space, i + 1);
    }
}

/// Skips characters that are (`space`) or are not white space.
fn skip_run(s: &[char], space: bool, from: usize) -> (r: usize)
    requires
        from <= s.len(),
    ensures
        r == run_end(s@, space, from as int),
        from <= r <= s.len(),
{
    let mut i: usize = from;
    while i < s.len() && Class::Space.holds(s[i]) == space
        invariant
            from <= i <= s.len(),
            run_end(s@, space, from as int) == run_end(s@, space, i as int),
        decreases s.len() - i,
    {
        i += 1;
    }
    i
}

/// Splits `s` into its words.
pub fn split_words(s: &[char]) -> (r: Vec<&[char]>)
    ensures
        slices(r@) == words(s@),
{
    let mut r: Vec<&[char]> = Vec::new();
    let mut i: usize = 0;
    assert(slices(r@) + words(s@) =~= words(s@));
    loop
        invariant
            i <= s.len(),
            words(s@) == slices(r@) + words_from(s@, i as int),
        decreases s.len() - i,
    {
        let ghost before_push = slices(r@);
        let start = skip_run(s, true, i);
        if start == s.len() {
            assert(words_from(s@, i as int) =~= seq![]);
            assert(slices(r@) + seq![] =~= slices(r@));
            return r;
        }
        let end = skip_run(s, false, start);
        proof {
            run_end_stops(s@, true, i as int);
            run_end_bounds(s@, false, start as int);
        }
        let word = slice_subrange(s, start, end);
        r.push(word);
        assert(before_push + (seq![word@] + words_from(s@, end as int)) =~= slices(r@) + words_from(
            s@,
            end as int,
        ));
        i = end;
    }
}

/// The parts, with `sep` between each two of them.
pub open spec fn join(parts: Seq<Seq<char>>, sep: Seq<char>) -> Seq<char>
    decreases parts.len(),
{
    if parts.len() == 0 {
        seq![]
    } else if parts.len() == 1 {
        parts[0]
    } else {
        join(parts.drop_last(), sep) + sep + parts.last()
    }
}

/// Appends `s` to `out`.
pub fn push_chars(out: &mut String, s: &[char])
    ensures
        final(out)@ == old(out)@ + s@,
{
    let mut i: usize = 0;
    assert(out@ =~= old(out)@ + s@.take(0));
    while i < s.len()
        invariant
            i <= s.len(),
            out@ == old(out)@ + s@.take(i as int),
        decreases s.len() - i,
    {
        out.push(s[i]);
        i += 1;
        assert(out@ =~= old(out)@ + s@.take(i as int));
    }
    assert(s@.take(i as int) =~= s@);
}

/// Appends `s` to `out`.
pub fn push_text(out: &mut String, s: &str)
    ensures
        final(out)@ == old(out)@ + s@,
{
    push_chars(out, to_chars(s).as_slice());
}

/// Joins slices with `sep` between each two of them.
pub fn join_slices(parts: &[&[char]], sep: &str) -> (r: String)
    ensures
        r@ == join(slices(parts@), sep@),
{
    let mut r: String = String::new();
    let mut i: usize = 0;
    while i < parts.len()
        invariant
            i <= parts.len(),
            r@ == join(slices(parts@).take(i as int), sep@),
        decreases parts.len() - i,
    {
        if i > 0 {
            push_text(&mut r, sep);
        }
        push_chars(&mut r, parts[i]);
        i += 1;
        assert(slices(parts@).take(i as int).drop_last() =~= slices(parts@).take(i - 1));
        assert(slices(parts@).take(i as int).last() == parts@[i - 1]@);
        assert(r@ =~= join(slices(parts@).take(i as int), sep@));
    }
    assert(slices(parts@).take(i as int) =~= slices(parts@));
    r
}

/// Joins strings with `sep` between each two of them.
pub fn join_texts(parts: &[String], sep: &str) -> (r: String)
    ensures
        r@ == join(texts(parts@), sep@),
{
    let mut r: String = String::new();
    let mut i: usize = 0;
    while i < parts.len()
        invariant
            i <= parts.len(),
            r@ == join(texts(parts@).take(i as int), sep@),
        decreases parts.len() - i,
    {
        if i > 0 {
            push_text(&mut r, sep);
        }
        push_text(&mut r, parts[i].as_str());
        i += 1;
        assert(texts(parts@).take(i as int).drop_last() =~= texts(parts@).take(i - 1));
        assert(texts(parts@).take(i as int).last() == parts@[i - 1]@);
        assert(r@ =~= join(texts(parts@).take(i as int), sep@));
    }
    assert(texts(parts@).take(i as int) =~= texts(parts@));
    r
}

/// The lower-case form of an ASCII letter; other characters stay.
pub open spec fn ascii_lower(c: char) -> int {
    if 'A' <= c <= 'Z' {
        c as int + 32
    } else {
        c as int
    }
}

/// Whether two texts agree up to the case of ASCII letters.
pub open spec fn same_ignoring_case(a: Seq<char>, b: Seq<char>) -> bool {
    &&& a.len() == b.len()
    &&& forall|i: int| 0 <= i < a.len() ==> ascii_lower(#[trigger] a[i]) == ascii_lower(b[i])
}

fn lower(c: char) -> (r: u32)
    ensures
        r == ascii_lower(c),
{
    if 'A' <= c && c <= 'Z' {
        c as u32 + 32
    } else {
        c as u32
    }
}

/// Whether two texts agree up to the case of ASCII letters.
pub fn same_caseless(a: &[char], b: &[char]) -> (r: bool)
    ensures
        r == same_ignoring_case(a@, b@),
{
    if a.len() != b.len() {
        return false;
    }
    let mut i: usize = 0;
    while i < a.len()
        invariant
            i <= a.len(),
            a.len() == b.len(),
            forall|k: int| 0 <= k < i ==> ascii_lower(#[trigger] a@[k]) == ascii_lower(b@[k]),
        decreases a.len() - i,
    {
        if lower(a[i]) != lower(b[i]) {
            assert(ascii_lower(a@[i as int]) != ascii_lower(b@[i as int]));
            return false;
        }
        i += 1;
    }
    true
}

/// The decimal digits of `n`, without leading zeros.
pub open spec fn decimal(n: nat) -> Seq<char>
    decreases n,
{
    if n < 10 {
        seq![digit(n)]
    } else {
        decimal(n / 10).push(digit(n % 10))
    }
}

/// The digit for a number below ten.
pub open spec fn digit(n: nat) -> char {
    (48 + n) as char
}

/// The decimal digits of `n`, without leading zeros.
pub fn number(n: u64) -> (r: String)
    ensures
        r@ == decimal(n as nat),
    decreases n,
{
    let d: u8 = 48 + (n % 10) as u8;
    let mut r: String = if n < 10 {
        String::new()
    } else {
        number(n / 10)
    };
    r.push(d as char);
    proof {
        assert(d as char == digit(n as nat % 10));
        if n < 10 {
            assert(r@ =~= decimal(n as nat));
        }
    }
    r
}

/// The first occurrence of each element, in order.
pub open spec fn distinct(v: Seq<Seq<char>>) -> Seq<Seq<char>>
    decreases v.len(),
{
    if v.len() == 0 {
        seq![]
    } else {
        add_new(distinct(v.drop_last()), v.last())
    }
}

/// `v`, with `x` added at its end unless it is there already.
pub open spec fn add_new(v: Seq<Seq<char>>, x: Seq<char>) -> Seq<Seq<char>> {
    if v.contains(x) {
        v
    } else {
        v.push(x)
    }
}

pub proof fn distinct_facts(v: Seq<Seq<char>>)
    ensures
        distinct(v).no_duplicates(),
        forall|x: Seq<char>| distinct(v).contains(x) <==> v.contains(x),
    decreases v.len(),
{
    if v.len() > 0 {
        let w = v.drop_last();
        distinct_facts(w);
        let d = distinct(w);
        assert forall|x: Seq<char>| distinct(v).contains(x) <==> v.contains(x) by {
            assert(v =~= w.push(v.last()));
            if v.contains(x) {
                let i = choose|i: int| 0 <= i < v.len() && v[i] == x;
                if i < w.len() {
                    assert(w[i] == x);
                    assert(w.contains(x));
                    assert(d.contains(x));
                    let k = choose|k: int| 0 <= k < d.len() && d[k] == x;
                    assert(distinct(v)[k] == x);
                } else if !d.contains(x) {
                    assert(distinct(v)[d.len() as int] == x);
                }
            }
            if distinct(v).contains(x) {
                let k = choose|k: int| 0 <= k < distinct(v).len() && distinct(v)[k] == x;
                if k < d.len() {
                    assert(d[k] == x);
                    assert(w.contains(x));
                    let i = choose|i: int| 0 <= i < w.len() && w[i] == x;
                    assert(v[i] == x);
                } else {
                    assert(v[v.len() - 1] == x);
                }
            }
        }
    }
}

/// Adds `x` to `v` unless it is there already.
pub fn push_new(v: &mut Vec<String>, x: &[char])
    ensures
        texts(final(v)@) == add_new(texts(old(v)@), x@),
{
    let s = to_text(x);
    if !holds_text(v.as_slice(), s.as_str()) {
        v.push(s);
        assert(texts(v@) =~= texts(old(v)@).push(x@));
    }
}

/// The error that a step came back with.
pub open spec fn error_of<T>(r: Result<T, String>) -> Option<Seq<char>> {
    match r {
        Ok(_) => None,
        Err(e) => Some(e@),
    }
}

} // verus!
