//! How paths are taken apart and put together.
use vstd::prelude::*;

use crate::paths::{
    extension, extension_of, file_name, file_stem, is_absolute, is_void, join_path, last_index,
    last_part, stem_of,
};
use crate::query_laws::{case_is_ignored, same_letters};
use crate::text::{index_or_end, index_or_end_bounds, split_at};
use crate::text_laws::split_at_each_separator;
use crate::walk::{found_entry, kind_of_path, DocKind};

verus! {

proof fn splits_at_the_last(a: Seq<char>, c: char, b: Seq<char>)
    requires
        forall|k: int| 0 <= k < b.len() ==> #[trigger] b[k] != c,
    ensures
        split_at(a.push(c) + b, c) == split_at(a, c).push(b),
    decreases a.len(),
{
    let n = index_or_end(a, c, 0);
    index_or_end_bounds(a, c, 0);
    let first = a.take(n);
    assert forall|k: int| 0 <= k < first.len() implies #[trigger] first[k] != c by {
        assert(a[k] != c);
    }
    split_at_each_separator(b, c, seq![]);
    if n >= a.len() {
        assert(first =~= a);
        split_at_each_separator(a, c, b);
        assert(split_at(a, c).push(b) =~= seq![a] + seq![b]);
    } else {
        let rest = a.skip(n + 1);
        splits_at_the_last(rest, c, b);
        assert(a =~= first.push(c) + rest);
        split_at_each_separator(first, c, rest);
        split_at_each_separator(first, c, rest.push(c) + b);
        assert(a.push(c) + b =~= first.push(c) + (rest.push(c) + b));
        assert(split_at(a, c).push(b) =~= seq![first] + split_at(rest, c).push(b));
    }
}

proof fn last_of_more(parts: Seq<Seq<char>>, more: Seq<char>, n: int)
    requires
        n <= parts.len(),
    ensures
        last_part(parts.push(more), n) == last_part(parts, n),
    decreases n,
{
    if n > 0 {
        assert(parts.push(more)[n - 1] == parts[n - 1]);
        last_of_more(parts, more, n - 1);
    }
}

/// A component is void where it is empty or a single dot.
pub open spec fn says_nothing(name: Seq<char>) -> bool {
    name.len() == 0 || name.len() == 1 && name[0] == '.'
}

/// The file name of a path is what follows its last slash, or all of it without
/// one. An empty component or a single dot is passed over; two dots are no name.
pub proof fn a_file_name_follows_the_last_slash(dir: Seq<char>, name: Seq<char>)
    requires
        forall|k: int| 0 <= k < name.len() ==> #[trigger] name[k] != '/',
    ensures
        ({
            let own = if name == seq!['.', '.'] {
                None
            } else {
                Some(name)
            };
            &&& file_name(name) == if says_nothing(name) {
                None
            } else {
                own
            }
            &&& file_name(dir.push('/') + name) == if says_nothing(name) {
                file_name(dir)
            } else {
                own
            }
        }),
{
    split_at_each_separator(name, '/', seq![]);
    splits_at_the_last(dir, '/', name);
    let parts = split_at(dir, '/');
    let more = parts.push(name);
    last_of_more(parts, name, parts.len() as int);
    assert(says_nothing(name) <==> is_void(name)) by {
        if name.len() == 1 && name[0] == '.' {
            assert(name =~= seq!['.']);
        }
    }
    assert(more[more.len() - 1] == name);
    let one = seq![name];
    assert(one[0] == name);
    assert(last_part(one, 0) is None);
}

proof fn no_dot_before(s: Seq<char>, c: char, n: int)
    requires
        0 <= n <= s.len(),
    ensures
        -1 <= last_index(s, c, n) < n || n == 0 && last_index(s, c, n) == -1,
        last_index(s, c, n) >= 0 ==> s[last_index(s, c, n)] == c,
        forall|k: int| last_index(s, c, n) < k < n ==> #[trigger] s[k] != c,
    decreases n,
{
    if n > 0 && s[n - 1] != c {
        no_dot_before(s, c, n - 1);
    }
}

/// A file name is parted at its last dot, unless that is its first character:
/// into the stem before it and the extension after it. Without such a dot the
/// stem is the whole name, and there is no extension.
pub proof fn names_part_at_the_last_dot(stem: Seq<char>, ext: Seq<char>, name: Seq<char>)
    requires
        stem.len() > 0,
        forall|k: int| 0 <= k < ext.len() ==> #[trigger] ext[k] != '.',
        forall|k: int| 1 <= k < name.len() ==> #[trigger] name[k] != '.',
    ensures
        stem_of(stem.push('.') + ext) == stem,
        extension_of(stem.push('.') + ext) == Some(ext),
        stem_of(name) == name,
        extension_of(name) is None,
{
    let s = stem.push('.') + ext;
    no_dot_before(s, '.', s.len() as int);
    no_dot_before(name, '.', name.len() as int);
    let d = last_index(s, '.', s.len() as int);
    assert(s[stem.len() as int] == '.');
    if d > stem.len() {
        assert(s[d] == ext[d - stem.len() - 1]);
    }
    assert(d == stem.len());
    assert(s.take(d) =~= stem);
    assert(s.skip(d + 1) =~= ext);
}

/// The stem and the extension of a path are those of its file name.
pub proof fn stem_and_extension_are_of_the_name(p: Seq<char>)
    ensures
        file_stem(p) is Some <==> file_name(p) is Some,
        file_name(p) is Some ==> file_stem(p) == Some(stem_of(file_name(p)->0)),
        file_name(p) is Some ==> extension(p) == extension_of(file_name(p)->0),
        file_name(p) is None ==> extension(p) is None,
{
}

/// Joining appends the relative path to the base, with one slash between them
/// unless the base is empty or ends in one. A path that begins with a slash
/// stands for itself.
pub proof fn joined_paths_are_parted_by_a_slash(base: Seq<char>, rel: Seq<char>)
    ensures
        ({
            let p = join_path(base, rel);
            if rel.len() > 0 && rel[0] == '/' {
                p == rel
            } else {
                let n = p.len() - rel.len();
                &&& 0 <= n && p.skip(n) == rel
                &&& p.take(base.len() as int) == base
                &&& if base.len() == 0 || base.last() == '/' {
                    n == base.len()
                } else {
                    n == base.len() + 1 && p[n - 1] == '/'
                }
            }
        }),
{
    let p = join_path(base, rel);
    if !is_absolute(rel) {
        let n = p.len() - rel.len();
        assert(p.skip(n) =~= rel);
        assert(p.take(base.len() as int) =~= base);
    }
}

/// A file is markdown where its extension is `md`, an image where it is `png`,
/// in any case, and not indexed otherwise.
pub proof fn kinds_go_by_the_extension(path: Seq<char>)
    ensures
        ({
            let e = extension(path);
            let md = e is Some && same_letters(e->0, seq!['m', 'd']);
            let png = e is Some && same_letters(e->0, seq!['p', 'n', 'g']);
            &&& kind_of_path(path) == Some(DocKind::Markdown) <==> md
            &&& kind_of_path(path) == Some(DocKind::Image) <==> png
            &&& kind_of_path(path) is None <==> !md && !png
        }),
{
    reveal_strlit("md");
    reveal_strlit("png");
    assert("md"@ =~= seq!['m', 'd']);
    assert("png"@ =~= seq!['p', 'n', 'g']);
    if let Some(e) = extension(path) {
        case_is_ignored(e, "md"@);
        case_is_ignored(e, "png"@);
    }
}

/// A walk finds each file of a kind that is indexed, under its path, and nothing
/// else.
pub proof fn walks_find_files_of_a_kind(path: Seq<char>, is_file: bool)
    ensures
        found_entry(path, is_file) is Some <==> is_file && kind_of_path(path) is Some,
        found_entry(path, is_file) is Some ==> {
            let f = found_entry(path, is_file)->0;
            f.path == path && Some(f.kind) == kind_of_path(path)
        },
{
}

} // verus!
