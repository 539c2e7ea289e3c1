//! What queries leave out, and what they ask for.
use vstd::prelude::*;

use crate::outside::yaml_field;
use crate::parse::field_items;
use crate::paths::file_stem;
use crate::query::{
    aliases_of, excluded_from, first_unsupported, is_linked, is_target, linked_paths, named_space,
    names_a_target, related_found, related_step, related_steps, search_step, search_steps,
    spaces_for, tag_filter, Related, RelatedWanted, Search, Wanted,
};
use crate::store::{space_name, FilterText, MetaText, Space, StoreCall, StoreModel};
use crate::text::same_ignoring_case;

verus! {

/// Whether two characters are equal, or the two cases of one ASCII letter.
pub open spec fn same_letter(a: char, b: char) -> bool {
    ||| a == b
    ||| 'A' <= a <= 'Z' && b as int == a as int + 32
    ||| 'A' <= b <= 'Z' && a as int == b as int + 32
}

/// Whether two texts are equal in any case of their ASCII letters.
pub open spec fn same_letters(a: Seq<char>, b: Seq<char>) -> bool {
    a.len() == b.len() && forall|i: int| 0 <= i < a.len() ==> same_letter(#[trigger] a[i], b[i])
}

/// Texts agree in any case where each two of their characters do.
pub proof fn case_is_ignored(a: Seq<char>, b: Seq<char>)
    ensures
        same_ignoring_case(a, b) <==> same_letters(a, b),
{
    if same_ignoring_case(a, b) {
        assert forall|i: int| 0 <= i < a.len() implies same_letter(#[trigger] a[i], b[i]) by {}
    }
}

/// Whether a link's target names a document: by its file stem, or by one of the
/// `aliases` of its frontmatter, in any case.
pub open spec fn names(target: Seq<char>, m: MetaText) -> bool {
    ||| file_stem(m.path) is Some && same_letters(target, file_stem(m.path)->0)
    ||| m.frontmatter is Some && exists|k: int|
        0 <= k < field_items(yaml_field(m.frontmatter->0, "aliases"@)).len() && same_letters(
            target,
            #[trigger] field_items(yaml_field(m.frontmatter->0, "aliases"@))[k],
        )
}

/// Whether one of some link targets names a document.
pub open spec fn names_it(targets: Seq<Seq<char>>, m: MetaText) -> bool {
    exists|i: int| 0 <= i < targets.len() && names(#[trigger] targets[i], m)
}

proof fn linked_is_named(targets: Seq<Seq<char>>, m: MetaText)
    ensures
        is_linked(targets, m.path, aliases_of(m.frontmatter)) <==> names_it(targets, m),
{
    let aliases = aliases_of(m.frontmatter);
    assert forall|i: int, name: Seq<char>| 0 <= i < targets.len() implies same_ignoring_case(
        #[trigger] targets[i],
        name,
    ) == #[trigger] same_letters(targets[i], name) by {
        case_is_ignored(targets[i], name);
    }
    if is_linked(targets, m.path, aliases) {
        if file_stem(m.path) is Some && is_target(targets, file_stem(m.path)->0) {
            let i = choose|i: int|
                0 <= i < targets.len() && same_ignoring_case(
                    #[trigger] targets[i],
                    file_stem(m.path)->0,
                );
            assert(same_letters(targets[i], file_stem(m.path)->0));
            assert(names(targets[i], m));
        } else {
            let k = choose|k: int| 0 <= k < aliases.len() && is_target(targets, #[trigger] aliases[k]);
            let i = choose|i: int|
                0 <= i < targets.len() && same_ignoring_case(#[trigger] targets[i], aliases[k]);
            assert(same_letters(targets[i], aliases[k]));
            assert(names(targets[i], m));
        }
    }
    if names_it(targets, m) {
        let i = choose|i: int| 0 <= i < targets.len() && names(#[trigger] targets[i], m);
        if file_stem(m.path) is Some && same_letters(targets[i], file_stem(m.path)->0) {
            assert(same_ignoring_case(targets[i], file_stem(m.path)->0));
            assert(is_target(targets, file_stem(m.path)->0));
        } else {
            let k = choose|k: int|
                0 <= k < aliases.len() && same_letters(targets[i], #[trigger] aliases[k]);
            assert(same_ignoring_case(targets[i], aliases[k]));
            assert(is_target(targets, aliases[k]));
            assert(names_a_target(targets, aliases));
        }
    }
}

/// Whether `x` is the path of one of some documents that link targets name.
pub open spec fn is_named(targets: Seq<Seq<char>>, metas: Seq<MetaText>, x: Seq<char>) -> bool {
    exists|m: int|
        0 <= m < metas.len() && (#[trigger] metas[m]).path == x && names_it(targets, metas[m])
}

/// Resolving link targets finds each document that one of them names, by its
/// file stem or an alias in any case, and no other.
pub proof fn links_find_what_they_name(
    targets: Seq<Seq<char>>,
    metas: Seq<MetaText>,
    x: Seq<char>,
)
    ensures
        linked_paths(targets, metas).contains(x) <==> is_named(targets, metas, x),
    decreases metas.len(),
{
    let found = linked_paths(targets, metas);
    if metas.len() > 0 {
        let rest = metas.drop_last();
        let last = metas.last();
        let before = linked_paths(targets, rest);
        links_find_what_they_name(targets, rest, x);
        linked_is_named(targets, last);
        if found.contains(x) {
            let i = choose|i: int| 0 <= i < found.len() && found[i] == x;
            if i < before.len() {
                assert(before[i] == x);
                assert(before.contains(x));
                let m = choose|m: int|
                    0 <= m < rest.len() && (#[trigger] rest[m]).path == x && names_it(
                        targets,
                        rest[m],
                    );
                assert(metas[m] == rest[m]);
            } else {
                assert(metas[metas.len() - 1].path == x);
            }
            assert(is_named(targets, metas, x));
        }
        if is_named(targets, metas, x) {
            let m = choose|m: int|
                0 <= m < metas.len() && (#[trigger] metas[m]).path == x && names_it(
                    targets,
                    metas[m],
                );
            if m < rest.len() {
                assert(rest[m] == metas[m]);
                assert(is_named(targets, rest, x));
                let i = choose|i: int| 0 <= i < before.len() && before[i] == x;
                assert(found[i] == x);
            } else {
                assert(found[before.len() as int] == x);
            }
        }
    }
}

/// Whether the paths `out` are a document's own and, where `targets` are its
/// links, those of all stored documents that they name.
pub open spec fn leaves_out(
    out: Seq<Seq<char>>,
    path: Seq<char>,
    targets: Seq<Seq<char>>,
    metas: Seq<MetaText>,
) -> bool {
    forall|x: Seq<char>|
        #![trigger out.contains(x)]
        out.contains(x) <==> x == path || is_named(targets, metas, x)
}

/// A search for related documents leaves out the document itself. With
/// `include_linked` it leaves out nothing else, and asks the store nothing.
/// Without, it asks for the document's link targets, all of them, and leaves
/// out each stored document that one of them names by its file stem or an alias
/// in any case, and no other; where a question fails, it fails likewise.
pub proof fn linked_documents_are_left_out(
    store: StoreModel,
    path: Seq<char>,
    include_linked: bool,
)
    ensures
        ({
            let (after, r) = excluded_from(store, path, include_linked);
            let ask = store.calls.push(StoreCall::LinkedTargets { path });
            let links = (store.lists)(ask);
            let all = (store.documents)(ask.push(StoreCall::AllDocumentMeta));
            if include_linked {
                &&& after == store
                &&& r == Ok::<Seq<Seq<char>>, Seq<char>>(seq![path])
            } else if links is Err {
                &&& after.calls == ask
                &&& r == Err::<Seq<Seq<char>>, Seq<char>>(links->Err_0)
            } else if links->Ok_0.len() == 0 {
                &&& after.calls == ask
                &&& r is Ok && leaves_out(r->Ok_0, path, seq![], seq![])
            } else if all is Err {
                r == Err::<Seq<Seq<char>>, Seq<char>>(all->Err_0)
            } else {
                &&& after.calls == ask.push(StoreCall::AllDocumentMeta)
                &&& r is Ok && leaves_out(r->Ok_0, path, links->Ok_0, all->Ok_0)
            }
        }),
{
    let (after, r) = excluded_from(store, path, include_linked);
    let ask = store.calls.push(StoreCall::LinkedTargets { path });
    let links = (store.lists)(ask);
    let all = (store.documents)(ask.push(StoreCall::AllDocumentMeta));
    if !include_linked && links is Ok && links->Ok_0.len() == 0 {
        let out = r->Ok_0;
        assert forall|x: Seq<char>| #![trigger out.contains(x)] out.contains(x) <==> x == path
            || is_named(seq![], seq![], x) by {
            assert(out[0] == path);
        }
    } else if !include_linked && links is Ok && all is Ok {
        let out = r->Ok_0;
        let (targets, metas) = (links->Ok_0, all->Ok_0);
        let linked = linked_paths(targets, metas);
        assert forall|x: Seq<char>| #![trigger out.contains(x)] out.contains(x) <==> x == path
            || is_named(targets, metas, x) by {
            links_find_what_they_name(targets, metas, x);
            assert(out[0] == path);
            if out.contains(x) {
                let i = choose|i: int| 0 <= i < out.len() && out[i] == x;
                if i > 0 {
                    assert(linked[i - 1] == x);
                }
            }
            if linked.contains(x) {
                let i = choose|i: int| 0 <= i < linked.len() && linked[i] == x;
                assert(out[i + 1] == x);
            }
        }
    }
}

/// Whether a name is that of a space.
pub open spec fn is_space_name(name: Seq<char>) -> bool {
    name == "text"@ || name == "image"@
}

proof fn first_is_first(names: Seq<Seq<char>>, i: nat)
    ensures
        match first_unsupported(names, i) {
            Some(x) => exists|k: int| #[trigger] is_first_other(names, i, k) && names[k] == x,
            None => forall|k: int| i <= k < names.len() ==> is_space_name(#[trigger] names[k]),
        },
    decreases names.len() - i,
{
    if i < names.len() {
        if named_space(names[i as int]) is None {
            assert(is_first_other(names, i, i as int));
        } else {
            first_is_first(names, i + 1);
            if let Some(x) = first_unsupported(names, i + 1) {
                let k = choose|k: int| #[trigger] is_first_other(names, i + 1, k) && names[k] == x;
                assert(is_first_other(names, i, k));
            }
        }
    }
}

/// Whether the name at `k` is the first, from `i` on, that is of no space.
pub open spec fn is_first_other(names: Seq<Seq<char>>, i: nat, k: int) -> bool {
    &&& i <= k < names.len() && !is_space_name(names[k])
    &&& forall|j: int| i <= j < k ==> is_space_name(#[trigger] names[j])
}

/// Whether `e` is the message for the first of some names that is of no space.
pub open spec fn is_refusal(names: Seq<Seq<char>>, e: Seq<char>) -> bool {
    exists|k: int| #[trigger]
        is_first_other(names, 0, k) && e == "unsupported space '"@ + names[k]
            + "' — only text, image are indexed"@
}

/// A query without spaces is for the text space, and for the image space where
/// that is enabled. One with spaces is for these, all of them, in their order; it
/// is refused for the first name that is of no space.
pub proof fn a_query_is_for_what_was_asked(image_enabled: bool, requested: Seq<Seq<char>>)
    ensures
        ({
            let r = spaces_for(image_enabled, requested);
            if requested.len() == 0 {
                &&& r is Ok
                &&& r->Ok_0.len() == if image_enabled {
                    2nat
                } else {
                    1nat
                }
                &&& r->Ok_0[0] == "text"@
                &&& image_enabled ==> r->Ok_0[1] == "image"@
            } else if forall|k: int|
                0 <= k < requested.len() ==> is_space_name(#[trigger] requested[k]) {
                r == Ok::<Seq<Seq<char>>, Seq<char>>(requested)
            } else {
                r is Err && is_refusal(requested, r->Err_0)
            }
        }),
{
    first_is_first(requested, 0);
    if requested.len() > 0 {
        if let Some(x) = first_unsupported(requested, 0) {
            let k = choose|k: int| #[trigger] is_first_other(requested, 0, k) && requested[k] == x;
            assert(!is_space_name(requested[k]));
            assert(is_refusal(requested, spaces_for(image_enabled, requested)->Err_0));
        }
    }
}

proof fn one_more_search(
    s: Search,
    names: Seq<Seq<char>>,
    name: Seq<char>,
    i: nat,
    wanted: Wanted,
)
    requires
        i <= names.len(),
    ensures
        ({
            let b = search_steps(s, names, i, wanted);
            search_steps(s, names.push(name), i, wanted) == if b.failed is Some {
                b
            } else {
                search_step(b, name, wanted)
            }
        }),
    decreases names.len() - i,
{
    let more = names.push(name);
    if s.failed is None {
        if i < names.len() {
            assert(more[i as int] == names[i as int]);
            one_more_search(search_step(s, names[i as int], wanted), names, name, i + 1, wanted);
        } else {
            assert(more[i as int] == name);
            let t = search_step(s, name, wanted);
            assert(search_steps(t, more, i + 1, wanted) == t);
        }
    }
}

/// The spaces of a search are searched one after the other, each of them unless
/// one before it failed.
pub proof fn spaces_are_searched_in_order(
    s: Search,
    names: Seq<Seq<char>>,
    name: Seq<char>,
    wanted: Wanted,
)
    ensures
        search_steps(s, seq![], 0, wanted) == s,
        ({
            let b = search_steps(s, names, 0, wanted);
            search_steps(s, names.push(name), 0, wanted) == if b.failed is Some {
                b
            } else {
                search_step(b, name, wanted)
            }
        }),
{
    one_more_search(s, names, name, 0, wanted);
}

/// A space is searched with the vector of the query: its embedder, that for texts
/// or that for texts about images, is given the query alone, and the store is
/// asked once, in that space, with the first vector answered and the limit and
/// the filter wanted. The hits of the space follow those found before. Where the
/// embedder is missing or fails, or answers no vector, the store is not asked.
pub proof fn a_space_is_searched_by_the_query(s: Search, space: Space, wanted: Wanted)
    requires
        s.failed is None,
    ensures
        ({
            let name = match space {
                Space::Text => "text"@,
                Space::Image => "image"@,
            };
            let r = search_step(s, name, wanted);
            let (mine, mine_after, other, other_after) = match space {
                Space::Text => (s.text, r.text, s.image_text, r.image_text),
                Space::Image => (s.image_text, r.image_text, s.text, r.text),
            };
            &&& other_after == other
            &&& mine is None ==> {
                &&& r.failed is Some && mine_after is None
                &&& r.store == s.store && r.found == s.found
            }
            &&& mine is Some ==> {
                let asked = mine->0.calls.push(seq![wanted.query]);
                let answer = (mine->0.answers)(asked);
                &&& mine_after is Some && mine_after->0.calls == asked
                &&& answer is Err ==> {
                    &&& r.failed == Some(answer->Err_0)
                    &&& r.store == s.store && r.found == s.found
                }
                &&& answer is Ok && answer->Ok_0.len() == 0 ==> {
                    &&& r.failed is Some
                    &&& r.store == s.store && r.found == s.found
                }
                &&& answer is Ok && answer->Ok_0.len() > 0 ==> {
                    let calls = s.store.calls.push(
                        StoreCall::SearchSpace {
                            space,
                            query: answer->Ok_0[0],
                            limit: wanted.limit,
                            filter: wanted.filter,
                        },
                    );
                    let hits = (s.store.hits)(calls);
                    &&& r.store.calls == calls
                    &&& hits is Err ==> r.failed == Some(hits->Err_0) && r.found == s.found
                    &&& hits is Ok ==> r.failed is None && r.found == s.found.push(hits->Ok_0)
                }
            }
        }),
{
    reveal_strlit("text");
    reveal_strlit("image");
    assert("text"@.len() != "image"@.len());
}

proof fn one_more_related(
    s: Related,
    names: Seq<Seq<char>>,
    name: Seq<char>,
    i: nat,
    wanted: RelatedWanted,
)
    requires
        i <= names.len(),
    ensures
        ({
            let b = related_steps(s, names, i, wanted);
            related_steps(s, names.push(name), i, wanted) == if b.failed is Some {
                b
            } else {
                related_step(b, name, wanted)
            }
        }),
    decreases names.len() - i,
{
    let more = names.push(name);
    if s.failed is None {
        if i < names.len() {
            assert(more[i as int] == names[i as int]);
            one_more_related(related_step(s, names[i as int], wanted), names, name, i + 1, wanted);
        } else {
            assert(more[i as int] == name);
            let t = related_step(s, name, wanted);
            assert(related_steps(t, more, i + 1, wanted) == t);
        }
    }
}

/// The spaces of a search for related documents are searched one after the
/// other, each of them unless one before it failed.
pub proof fn related_spaces_are_searched_in_order(
    s: Related,
    names: Seq<Seq<char>>,
    name: Seq<char>,
    wanted: RelatedWanted,
)
    ensures
        related_steps(s, seq![], 0, wanted) == s,
        ({
            let b = related_steps(s, names, 0, wanted);
            related_steps(s, names.push(name), 0, wanted) == if b.failed is Some {
                b
            } else {
                related_step(b, name, wanted)
            }
        }),
{
    one_more_related(s, names, name, 0, wanted);
}

/// Related documents of a space are sought with all vectors that the document
/// has in it, with the paths to leave out, the limit and the filter wanted; the
/// hits of the space follow those found before. A space in which the document has
/// no vector is passed over, with nothing found and no failure.
pub proof fn a_space_is_searched_by_all_own_vectors(
    s: Related,
    space: Space,
    wanted: RelatedWanted,
)
    requires
        s.failed is None,
    ensures
        ({
            let name = match space {
                Space::Text => "text"@,
                Space::Image => "image"@,
            };
            let r = related_step(s, name, wanted);
            let first = s.store.calls.push(StoreCall::ChunkVectors { path: wanted.path, space });
            let own = (s.store.vectors)(first);
            &&& own is Err ==> {
                &&& r.store.calls == first && r.found == s.found
                &&& r.failed == Some(own->Err_0)
            }
            &&& own is Ok && own->Ok_0.len() == 0 ==> {
                &&& r.store.calls == first && r.found == s.found
                &&& r.failed is None
            }
            &&& own is Ok && own->Ok_0.len() > 0 ==> {
                let calls = first.push(
                    StoreCall::RelatedSpace {
                        space,
                        queries: own->Ok_0,
                        exclude: wanted.exclude,
                        limit: wanted.limit,
                        filter: wanted.filter,
                    },
                );
                let hits = (s.store.hits)(calls);
                &&& r.store.calls == calls
                &&& hits is Err ==> r.failed == Some(hits->Err_0) && r.found == s.found
                &&& hits is Ok ==> r.failed is None && r.found == s.found.push(hits->Ok_0)
            }
        }),
{
    reveal_strlit("text");
    reveal_strlit("image");
    assert("text"@.len() != "image"@.len());
}

/// Tags filter by all of them; no tags do not filter. Roots do not filter.
pub proof fn tags_filter_as_given(tags: Seq<Seq<char>>)
    ensures
        tag_filter(tags).from is None,
        tags.len() == 0 ==> tag_filter(tags).tags is None,
        tags.len() > 0 ==> tag_filter(tags).tags == Some(tags),
{
}

/// Only what is indexed has related documents: the store is asked for the
/// document's hash first, and where that fails or there is none, for nothing
/// more. What is sought then leaves out what [`linked_documents_are_left_out`]
/// says, in each space that the query is for, under all tags given; it fails
/// where it fails in a space, and where the document has no vector in any.
pub proof fn related_is_sought_around_an_indexed_document(
    store: StoreModel,
    image_enabled: bool,
    path: Seq<char>,
    requested: Seq<Seq<char>>,
    include_linked: bool,
    tags: Seq<Seq<char>>,
    limit: usize,
)
    ensures
        ({
            let r = related_found(
                store,
                image_enabled,
                path,
                requested,
                include_linked,
                tags,
                limit,
            );
            let looked = store.after(StoreCall::DocumentHash { path });
            let hash = (store.hashes)(looked.calls);
            let names = spaces_for(image_enabled, requested);
            let (ready, exclude) = excluded_from(looked, path, include_linked);
            if !(hash is Ok && hash->Ok_0 is Some && names is Ok) {
                &&& r.store == looked && r.found.len() == 0
                &&& r.failed is Some
                &&& hash is Err ==> r.failed == Some(hash->Err_0)
                &&& hash is Ok && hash->Ok_0 is Some ==> r.failed == Some(names->Err_0)
            } else if exclude is Err {
                &&& r.store == ready && r.found.len() == 0
                &&& r.failed == Some(exclude->Err_0)
            } else {
                let done = related_steps(
                    Related { store: ready, found: seq![], failed: None },
                    names->Ok_0,
                    0,
                    RelatedWanted {
                        path,
                        exclude: exclude->Ok_0,
                        limit,
                        filter: FilterText {
                            from: None,
                            tags: if tags.len() > 0 {
                                Some(tags)
                            } else {
                                None
                            },
                        },
                    },
                );
                &&& r.store == done.store && r.found == done.found
                &&& done.failed is Some ==> r.failed == done.failed
                &&& done.failed is None ==> (r.failed is None <==> done.found.len() > 0)
            }
        }),
{
}

/// Each space is found under the name that it is stored under, and no other
/// name is that of a space.
pub proof fn spaces_are_known_by_name(space: Space, name: Seq<char>)
    ensures
        named_space(space_name(space)) == Some(space),
        named_space(name) is Some ==> space_name(named_space(name)->0) == name,
        space_name(Space::Text) == "text"@ && space_name(Space::Image) == "image"@,
{
    reveal_strlit("text");
    reveal_strlit("image");
    assert("text"@.len() != "image"@.len());
}

} // verus!
