//! What the store's statements hold, and which candidates are left to rank.
use vstd::prelude::*;

use crate::search::{blob_of, four_bytes, number_of_bytes, vector_of};
use crate::sqlite::{
    bare, candidates_params, candidates_sql, count_of, count_of_sum, one_placeholder_per_value,
    passing, placeholders, plan_of, question_marks, search_k, searchable, IndexPlan,
    SpaceCandidateText, CANDIDATES_SQL,
};
use crate::store::{FilterText, Space};

verus! {

/// Whether a filter names some values to choose from.
pub open spec fn chooses(v: Option<Seq<Seq<char>>>) -> bool {
    v is Some && v->0.len() > 0
}

/// Whether a candidate is of a root that the filter names, where it names any,
/// and one of the tagged documents, where it names tags.
pub open spec fn is_admitted(
    c: SpaceCandidateText,
    filter: FilterText,
    tagged: Seq<Seq<char>>,
) -> bool {
    &&& chooses(filter.from) ==> exists|k: int|
        0 <= k < filter.from->0.len() && #[trigger] filter.from->0[k] == c.candidate.source_root
    &&& chooses(filter.tags) ==> exists|k: int|
        0 <= k < tagged.len() && #[trigger] tagged[k] == c.candidate.path
}

/// A filter keeps each candidate that it admits, in order, and drops the others:
/// one of a root it names, where it names any, and of a document with one of its
/// tags, where it names any. One that names nothing keeps all.
pub proof fn filters_keep_what_they_admit(
    all: Seq<SpaceCandidateText>,
    c: SpaceCandidateText,
    filter: FilterText,
    tagged: Seq<Seq<char>>,
)
    ensures
        passing(seq![], filter, tagged).len() == 0,
        passing(all.push(c), filter, tagged) == if is_admitted(c, filter, tagged) {
            passing(all, filter, tagged).push(c)
        } else {
            passing(all, filter, tagged)
        },
{
    assert(all.push(c).drop_last() =~= all);
    assert(all.push(c).last() == c);
}

/// A search of the text space ranks every candidate; one of the image space only
/// those that are images themselves.
pub proof fn searches_rank_what_they_are_for(
    all: Seq<SpaceCandidateText>,
    c: SpaceCandidateText,
)
    ensures
        searchable(Space::Text, seq![]).len() == 0,
        searchable(Space::Image, seq![]).len() == 0,
        searchable(Space::Text, all.push(c)) == searchable(Space::Text, all).push(c.candidate),
        searchable(Space::Image, all.push(c)) == if c.modality == "image"@ {
            searchable(Space::Image, all).push(c.candidate)
        } else {
            searchable(Space::Image, all)
        },
{
    assert(all.push(c).drop_last() =~= all);
    assert(all.push(c).last() == c);
}

/// Documents related to another are ranked by every candidate.
pub proof fn related_ranks_every_candidate(all: Seq<SpaceCandidateText>)
    ensures
        bare(all).len() == all.len(),
        forall|k: int| 0 <= k < all.len() ==> #[trigger] bare(all)[k] == all[k].candidate,
{
}

/// A search asks an index for as many neighbors as it shows, and for five times
/// as many where some may be dropped: under a filter, and in the image space.
pub proof fn searches_ask_for_enough(space: Space, limit: nat, filter: FilterText)
    ensures
        search_k(space, limit, filter) >= limit,
        search_k(Space::Image, limit, filter) == 5 * limit,
        filter.from is None && filter.tags is None ==> search_k(Space::Text, limit, filter)
            == limit,
        filter.from is Some || filter.tags is Some ==> search_k(space, limit, filter) == 5 * limit,
{
}

/// A stored vector holds four bytes for each of its numbers, the least
/// significant first.
pub proof fn vectors_are_stored_little_endian(v: Seq<u32>, i: int)
    requires
        0 <= i < v.len(),
    ensures
        blob_of(v).len() == 4 * v.len(),
        v[i] == blob_of(v)[4 * i] + 0x100 * blob_of(v)[4 * i + 1] + 0x1_0000 * blob_of(v)[4 * i
            + 2] + 0x100_0000 * blob_of(v)[4 * i + 3],
{
    four_bytes(v, i);
    number_of_bytes(v[i]);
}

/// A stored vector is read as one number for each four of its bytes, the least
/// significant first; what is left over is ignored.
pub proof fn vectors_are_read_little_endian(bytes: Seq<u8>, i: int)
    requires
        0 <= i,
        4 * i + 3 < bytes.len(),
    ensures
        4 * vector_of(bytes).len() <= bytes.len() < 4 * vector_of(bytes).len() + 4,
        vector_of(bytes)[i] == bytes[4 * i] + 0x100 * bytes[4 * i + 1] + 0x1_0000 * bytes[4 * i + 2]
            + 0x100_0000 * bytes[4 * i + 3],
{
}

/// Placeholders are question marks with a comma between each two.
pub proof fn placeholders_alternate(n: nat)
    ensures
        placeholders(0).len() == 0,
        n > 0 ==> placeholders(n).len() == 2 * n - 1,
        forall|i: int|
            0 <= i < placeholders(n).len() ==> #[trigger] placeholders(n)[i] == if i % 2 == 0 {
                '?'
            } else {
                ','
            },
    decreases n,
{
    reveal_strlit("?");
    reveal_strlit(",");
    assert("?"@ =~= seq!['?']);
    assert(","@ =~= seq![',']);
    if n == 1 {
        assert(question_marks(1) =~= seq!["?"@]);
        assert(placeholders(1) =~= seq!['?']);
    } else if n > 1 {
        let m = (n - 1) as nat;
        placeholders_alternate(m);
        assert(question_marks(n).drop_last() =~= question_marks(m));
        assert(placeholders(n) =~= placeholders(m) + seq![',', '?']);
    }
}

/// The values of a filter that names some; none where it names none.
pub open spec fn chosen(v: Option<Seq<Seq<char>>>) -> Seq<Seq<char>> {
    if chooses(v) {
        v->0
    } else {
        seq![]
    }
}

/// The query for a space's candidates has one more place for each root and each
/// tag that the filter names, and is given the space, then the roots, then the
/// tags, each in its order. Both must hold of what it selects. Without a filter it
/// is the plain query.
pub proof fn each_filter_value_is_bound(space: Seq<char>, filter: FilterText)
    ensures
        ({
            let given = candidates_params(space, filter);
            let (roots, tags) = (chosen(filter.from), chosen(filter.tags));
            &&& count_of(candidates_sql(filter), '?') == count_of(CANDIDATES_SQL@, '?')
                + roots.len() + tags.len()
            &&& given.len() == 1 + roots.len() + tags.len()
            &&& given[0] == space
            &&& given.subrange(1, 1 + roots.len() as int) == roots
            &&& given.skip(1 + roots.len() as int) == tags
            &&& roots.len() == 0 && tags.len() == 0 ==> candidates_sql(filter) == CANDIDATES_SQL@
            &&& candidates_sql(filter) == CANDIDATES_SQL@ + (if roots.len() > 0 {
                " AND d.source_root IN ("@ + placeholders(roots.len()) + ")"@
            } else {
                seq![]
            }) + (if tags.len() > 0 {
                " AND d.id IN (SELECT doc_id FROM tags WHERE tag IN ("@ + placeholders(tags.len())
                    + "))"@
            } else {
                seq![]
            })
        }),
{
    let given = candidates_params(space, filter);
    let (roots, tags) = (chosen(filter.from), chosen(filter.tags));
    assert(given.subrange(1, 1 + roots.len() as int) =~= roots);
    assert(given.skip(1 + roots.len() as int) =~= tags);
    no_marks();
    let a = if roots.len() > 0 {
        " AND d.source_root IN ("@ + placeholders(roots.len()) + ")"@
    } else {
        seq![]
    };
    let b = if tags.len() > 0 {
        " AND d.id IN (SELECT doc_id FROM tags WHERE tag IN ("@ + placeholders(tags.len()) + "))"@
    } else {
        seq![]
    };
    counted(" AND d.source_root IN ("@, roots.len(), ")"@);
    counted(" AND d.id IN (SELECT doc_id FROM tags WHERE tag IN ("@, tags.len(), "))"@);
    assert(candidates_sql(filter) == CANDIDATES_SQL@ + a + b);
    count_of_sum(CANDIDATES_SQL@ + a, b, '?');
    count_of_sum(CANDIDATES_SQL@, a, '?');
    if roots.len() == 0 && tags.len() == 0 {
        assert(CANDIDATES_SQL@ + a + b =~= CANDIDATES_SQL@);
    }
}

proof fn no_marks()
    ensures
        count_of(" AND d.source_root IN ("@, '?') == 0,
        count_of(")"@, '?') == 0,
        count_of(" AND d.id IN (SELECT doc_id FROM tags WHERE tag IN ("@, '?') == 0,
        count_of("))"@, '?') == 0,
{
    reveal_strlit(" AND d.source_root IN (");
    reveal_strlit(")");
    reveal_strlit(" AND d.id IN (SELECT doc_id FROM tags WHERE tag IN (");
    reveal_strlit("))");
    none_of(" AND d.source_root IN ("@, '?');
    none_of(")"@, '?');
    none_of(" AND d.id IN (SELECT doc_id FROM tags WHERE tag IN ("@, '?');
    none_of("))"@, '?');
}

proof fn counted(before: Seq<char>, n: nat, behind: Seq<char>)
    requires
        count_of(before, '?') == 0,
        count_of(behind, '?') == 0,
    ensures
        count_of(before + placeholders(n) + behind, '?') == n,
{
    one_placeholder_per_value(n);
    count_of_sum(before + placeholders(n), behind, '?');
    count_of_sum(before, placeholders(n), '?');
}

proof fn none_of(s: Seq<char>, c: char)
    requires
        forall|k: int| 0 <= k < s.len() ==> #[trigger] s[k] != c,
    ensures
        count_of(s, c) == 0,
    decreases s.len(),
{
    if s.len() > 0 {
        assert(s.last() == s[s.len() - 1]);
        assert forall|k: int| 0 <= k < s.len() - 1 implies #[trigger] s.drop_last()[k] != c by {
            assert(s[k] != c);
        }
        none_of(s.drop_last(), c);
    }
}

/// An index is rebuilt where there are vectors, of the dimension of the first,
/// and removed where there are none.
pub proof fn an_index_holds_vectors_or_is_gone(rows: Seq<Seq<u32>>)
    ensures
        plan_of(rows) == IndexPlan::Remove <==> rows.len() == 0,
        rows.len() > 0 ==> plan_of(rows) == (IndexPlan::Build {
            dimensions: rows[0].len() as usize,
        }),
{
}

} // verus!
