//! Paths as texts whose components are separated by `/`. No other separator and
//! no drive prefix is known, so that these functions agree with `std::path` on
//! systems whose paths are written like this, and not on Windows.
//!
//! Empty components and `.` components (but for a leading `.`) carry no
//! meaning, so that `a//b`, `a/./b` and `a/b/` name the same thing.
use vstd::prelude::*;
use vstd::slice::slice_subrange;

use crate::text::{
    find_char, index_or_end, index_or_end_bounds, push_text, slices, split_at, split_char,
    to_chars, to_text,
};

verus! {

/// Whether a component of a path carries no meaning.
pub open spec fn is_void(c: Seq<char>) -> bool {
    c.len() == 0 || c == seq!['.']
}

/// The last of `parts[..n]` that carries a meaning.
pub open spec fn last_part(parts: Seq<Seq<char>>, n: int) -> Option<Seq<char>>
    decreases n,
{
    if n <= 0 {
        None
    } else if is_void(parts[n - 1]) {
        last_part(parts, n - 1)
    } else {
        Some(parts[n - 1])
    }
}

/// The final component of a path, unless there is none or it is `..`.
pub open spec fn file_name(p: Seq<char>) -> Option<Seq<char>> {
    let parts = split_at(p, '/');
    match last_part(parts, parts.len() as int) {
        Some(c) => if c == seq!['.', '.'] {
            None
        } else {
            Some(c)
        },
        None => None,
    }
}

/// The index of the last `c` in `s[..n]`, or `-1`.
pub open spec fn last_index(s: Seq<char>, c: char, n: int) -> int
    decreases n,
{
    if n <= 0 {
        -1
    } else if s[n - 1] == c {
        n - 1
    } else {
        last_index(s, c, n - 1)
    }
}

/// A file name up to its last dot; all of it where no dot follows its first
/// character.
pub open spec fn stem_of(name: Seq<char>) -> Seq<char> {
    let d = last_index(name, '.', name.len() as int);
    if d <= 0 {
        name
    } else {
        name.take(d)
    }
}

/// What follows the last dot of a file name, where a dot follows its first
/// character.
pub open spec fn extension_of(name: Seq<char>) -> Option<Seq<char>> {
    let d = last_index(name, '.', name.len() as int);
    if d <= 0 {
        None
    } else {
        Some(name.skip(d + 1))
    }
}

/// The stem of a path's file name.
pub open spec fn file_stem(p: Seq<char>) -> Option<Seq<char>> {
    match file_name(p) {
        Some(name) => Some(stem_of(name)),
        None => None,
    }
}

/// The extension of a path's file name.
pub open spec fn extension(p: Seq<char>) -> Option<Seq<char>> {
    match file_name(p) {
        Some(name) => extension_of(name),
        None => None,
    }
}

/// Whether a path begins at the root.
pub open spec fn is_absolute(p: Seq<char>) -> bool {
    p.len() > 0 && p[0] == '/'
}

/// `rel` as seen from `base`: `rel` itself where it begins with `/`.
pub open spec fn join_path(base: Seq<char>, rel: Seq<char>) -> Seq<char> {
    if is_absolute(rel) {
        rel
    } else if base.len() == 0 || base.last() == '/' {
        base + rel
    } else {
        base.push('/') + rel
    }
}

/// Where the components of a path begin: after a leading `/` or `.`.
pub open spec fn body_start(p: Seq<char>) -> int {
    if p.len() == 0 {
        0
    } else if p[0] == '/' {
        1
    } else if p[0] == '.' && (p.len() == 1 || p[1] == '/') {
        1
    } else {
        0
    }
}

/// Where the last component of `p[start..]` begins, counting the `/` before it
/// as its own.
pub open spec fn part_start(p: Seq<char>, start: int) -> int {
    let i = last_index(p, '/', p.len() as int);
    if i < start {
        start
    } else {
        i
    }
}

/// The last component of `p[start..]`, without the `/` before it.
pub open spec fn part_at(p: Seq<char>, start: int) -> Seq<char> {
    let i = last_index(p, '/', p.len() as int);
    if i < start {
        p.skip(start)
    } else {
        p.skip(i + 1)
    }
}

pub proof fn last_index_bounds(s: Seq<char>, c: char, n: int)
    requires
        n <= s.len(),
    ensures
        -1 <= last_index(s, c, n),
        n >= 0 ==> last_index(s, c, n) < n,
        last_index(s, c, n) >= 0 ==> s[last_index(s, c, n)] == c,
    decreases n,
{
    if n > 0 && s[n - 1] != c {
        last_index_bounds(s, c, n - 1);
    }
}

/// `p` without the components after `start` that carry no meaning, at its end.
pub open spec fn drop_void_end(p: Seq<char>, start: int) -> Seq<char>
    decreases p.len(),
    when 0 <= start
    via drop_void_end_decreases
{
    if p.len() > start && is_void(part_at(p, start)) {
        drop_void_end(p.take(part_start(p, start)), start)
    } else {
        p
    }
}

#[via_fn]
proof fn drop_void_end_decreases(p: Seq<char>, start: int) {
    last_index_bounds(p, '/', p.len() as int);
}

/// A path without its final component; `None` where it has none.
pub open spec fn parent(p: Seq<char>) -> Option<Seq<char>> {
    let start = body_start(p);
    let q = drop_void_end(p, start);
    if q.len() > start {
        Some(drop_void_end(q.take(part_start(q, start)), start))
    } else if p.len() > 0 && p[0] == '.' {
        Some(seq![])
    } else {
        None
    }
}

/// `p` without the components that carry no meaning, at its start.
pub open spec fn drop_void_start(p: Seq<char>) -> Seq<char>
    decreases p.len(),
    via drop_void_start_decreases
{
    let n = index_or_end(p, '/', 0);
    if p.len() > 0 && is_void(p.take(n)) {
        if n < p.len() {
            drop_void_start(p.skip(n + 1))
        } else {
            seq![]
        }
    } else {
        p
    }
}

#[via_fn]
proof fn drop_void_start_decreases(p: Seq<char>) {
    index_or_end_bounds(p, '/', 0);
}

/// What follows a first component `~`, where there is one.
pub open spec fn after_tilde(p: Seq<char>) -> Option<Seq<char>> {
    if p.len() > 0 && p[0] == '~' && (p.len() == 1 || p[1] == '/') {
        Some(drop_void_end(drop_void_start(p.skip(1)), 0))
    } else {
        None
    }
}

/// `p` with a first component `~` replaced by the home directory.
pub open spec fn expanded(p: Seq<char>, home: Option<Seq<char>>) -> Seq<char> {
    match (after_tilde(p), home) {
        (Some(rest), Some(dir)) => join_path(dir, rest),
        _ => p,
    }
}

fn void_part(c: &[char]) -> (r: bool)
    ensures
        r == is_void(c@),
{
    if c.len() == 0 {
        return true;
    }
    let r = c.len() == 1 && c[0] == '.';
    assert(r ==> c@ =~= seq!['.']);
    r
}

fn rfind_char(s: &[char], c: char) -> (r: Option<usize>)
    ensures
        match r {
            Some(i) => i == last_index(s@, c, s@.len() as int) && i < s.len(),
            None => last_index(s@, c, s@.len() as int) == -1,
        },
{
    let mut n: usize = s.len();
    while n > 0
        invariant
            n <= s.len(),
            last_index(s@, c, s@.len() as int) == last_index(s@, c, n as int),
        decreases n,
    {
        if s[n - 1] == c {
            return Some(n - 1);
        }
        n -= 1;
    }
    None
}

/// The final component of a path, as characters.
fn name_part(p: &[char]) -> (r: Option<&[char]>)
    ensures
        r is Some <==> file_name(p@) is Some,
        r is Some ==> Some(r->0@) == file_name(p@),
{
    let parts = split_char(p, '/');
    let mut n: usize = parts.len();
    while n > 0
        invariant
            n <= parts.len(),
            slices(parts@) == split_at(p@, '/'),
            last_part(split_at(p@, '/'), parts@.len() as int) == last_part(
                split_at(p@, '/'),
                n as int,
            ),
        decreases n,
    {
        let c = parts[n - 1];
        assert(split_at(p@, '/')[n - 1] == c@);
        if !void_part(c) {
            if c.len() == 2 && c[0] == '.' && c[1] == '.' {
                assert(c@ =~= seq!['.', '.']);
                return None;
            }
            return Some(c);
        }
        n -= 1;
    }
    None
}

/// The final component of a path, unless there is none or it is `..`.
pub fn name_of_path(path: &str) -> (r: Option<String>)
    ensures
        r is Some <==> file_name(path@) is Some,
        r is Some ==> Some(r->0@) == file_name(path@),
{
    match name_part(to_chars(path).as_slice()) {
        Some(c) => Some(to_text(c)),
        None => None,
    }
}

/// The file name of a path up to its last dot.
pub fn stem_of_path(path: &str) -> (r: Option<String>)
    ensures
        r is Some <==> file_stem(path@) is Some,
        r is Some ==> Some(r->0@) == file_stem(path@),
{
    match name_part(to_chars(path).as_slice()) {
        Some(c) => match rfind_char(c, '.') {
            Some(d) if d > 0 => {
                let s = slice_subrange(c, 0, d);
                assert(s@ =~= c@.take(d as int));
                Some(to_text(s))
            },
            _ => Some(to_text(c)),
        },
        None => None,
    }
}

/// What follows the last dot of a path's file name.
pub fn extension_of_path(path: &str) -> (r: Option<String>)
    ensures
        r is Some <==> extension(path@) is Some,
        r is Some ==> Some(r->0@) == extension(path@),
{
    match name_part(to_chars(path).as_slice()) {
        Some(c) => match rfind_char(c, '.') {
            Some(d) if d > 0 => {
                let s = slice_subrange(c, d + 1, c.len());
                assert(s@ =~= c@.skip(d + 1));
                Some(to_text(s))
            },
            _ => None,
        },
        None => None,
    }
}

/// `rel` as seen from `base`.
pub fn join_paths(base: &str, rel: &str) -> (r: String)
    ensures
        r@ == join_path(base@, rel@),
{
    let b = to_chars(base);
    let t = to_chars(rel);
    if t.len() > 0 && t[0] == '/' {
        return to_text(t.as_slice());
    }
    let mut r = to_text(b.as_slice());
    if b.len() > 0 && b[b.len() - 1] != '/' {
        r.push('/');
    }
    push_text(&mut r, rel);
    r
}

fn strip_void_end(p: &[char], start: usize) -> (r: &[char])
    ensures
        r@ == drop_void_end(p@, start as int),
{
    let mut n: usize = p.len();
    assert(p@.take(n as int) =~= p@);
    loop
        invariant
            n <= p.len(),
            drop_void_end(p@, start as int) == drop_void_end(p@.take(n as int), start as int),
        decreases n,
    {
        let q = slice_subrange(p, 0, n);
        assert(q@ =~= p@.take(n as int));
        if n <= start {
            return q;
        }
        let (from, part) = last_component(q, start);
        if !void_part(part) {
            return q;
        }
        assert(q@.take(from as int) =~= p@.take(from as int));
        n = from;
    }
}

/// Where the last component of `q` after `start` begins, and that component.
fn last_component(q: &[char], start: usize) -> (r: (usize, &[char]))
    requires
        start < q.len(),
    ensures
        r.0 == part_start(q@, start as int),
        r.0 < q.len(),
        r.1@ == part_at(q@, start as int),
{
    match rfind_char(q, '/') {
        Some(i) if i >= start => {
            let part = slice_subrange(q, i + 1, q.len());
            assert(part@ =~= q@.skip(i + 1));
            (i, part)
        },
        _ => {
            let part = slice_subrange(q, start, q.len());
            assert(part@ =~= q@.skip(start as int));
            (start, part)
        },
    }
}

/// A path without its final component; `None` where it has none.
pub fn parent_of_path(path: &str) -> (r: Option<String>)
    ensures
        r is Some <==> parent(path@) is Some,
        r is Some ==> Some(r->0@) == parent(path@),
{
    let p = to_chars(path);
    let start: usize = if p.len() > 0 && (p[0] == '/' || (p[0] == '.' && (p.len() == 1 || p[1]
        == '/'))) {
        1
    } else {
        0
    };
    let q = strip_void_end(p.as_slice(), start);
    if q.len() > start {
        let (from, part) = last_component(q, start);
        let up = slice_subrange(q, 0, from);
        assert(up@ =~= q@.take(from as int));
        return Some(to_text(strip_void_end(up, start)));
    }
    if p.len() > 0 && p[0] == '.' {
        return Some(String::new());
    }
    None
}

fn strip_void_start(p: &[char]) -> (r: &[char])
    ensures
        r@ == drop_void_start(p@),
{
    let mut i: usize = 0;
    assert(p@.skip(0) =~= p@);
    loop
        invariant
            i <= p.len(),
            drop_void_start(p@) == drop_void_start(p@.skip(i as int)),
        decreases p.len() - i,
    {
        let rest = slice_subrange(p, i, p.len());
        assert(rest@ =~= p@.skip(i as int));
        if rest.len() == 0 {
            return rest;
        }
        let n = find_char(rest, '/', 0);
        let part = slice_subrange(rest, 0, n);
        assert(part@ =~= rest@.take(n as int));
        if !void_part(part) {
            return rest;
        }
        if n == rest.len() {
            let none = slice_subrange(p, p.len(), p.len());
            assert(none@ =~= seq![]);
            return none;
        }
        assert(rest@.skip(n + 1) =~= p@.skip(i + n + 1));
        i = i + n + 1;
    }
}

/// Replaces a first component `~` of `path` by `home`, where that is known.
pub fn expand_home(path: &str, home: Option<String>) -> (r: String)
    ensures
        r@ == expanded(path@, crate::text::opt_text(home)),
{
    let p = to_chars(path);
    if p.len() > 0 && p[0] == '~' && (p.len() == 1 || p[1] == '/') {
        if let Some(dir) = home {
            let s = slice_subrange(p.as_slice(), 1, p.len());
            assert(s@ =~= p@.skip(1));
            let rest = to_text(strip_void_end(strip_void_start(s), 0));
            return join_paths(dir.as_str(), rest.as_str());
        }
    }
    to_text(p.as_slice())
}

} // verus!
