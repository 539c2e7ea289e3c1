//! What commands show, which vaults they forget, and where files lie.
use vstd::prelude::*;

use crate::commands::{
    error_lines_of, integer_text, label_of, lines_of_hit, other_vaults, padded, shows_root,
    snippet_of, status_of, vault_lines,
};
use crate::config::{db_dir_of, source_of, ChunkConfig};
use crate::index::{outcome, run_options};
use crate::models::{image_model, text_model, ImageModel, TextModel};
use crate::paths::{
    body_start, drop_void_end, drop_void_start, expanded, file_name, is_void, join_path,
    last_index, parent, part_at,
};
use crate::paths_laws::says_nothing;
use crate::pipeline::{ErrorText, ReportText, Work};
use crate::search::HitText;
use crate::store::Stats;
use crate::text::{decimal, index_or_end, index_or_end_bounds, opt_text};
use crate::workspace::{local_db_path, Workspace};

verus! {

proof fn one_more_vault(
    vaults: Seq<Seq<char>>,
    canons: Seq<Option<String>>,
    vault: Seq<char>,
    form: Option<String>,
    canon: Seq<char>,
    i: nat,
)
    requires
        vaults.len() == canons.len(),
        i <= vaults.len(),
    ensures
        other_vaults(vaults.push(vault), canons.push(form), canon, i) == other_vaults(
            vaults,
            canons,
            canon,
            i,
        ) + if opt_text(form) == Some(canon) {
            seq![]
        } else {
            seq![vault]
        },
    decreases vaults.len() - i,
{
    let (vs, cs) = (vaults.push(vault), canons.push(form));
    let own = if opt_text(form) == Some(canon) {
        seq![]
    } else {
        seq![vault]
    };
    if i < vaults.len() {
        assert(vs[i as int] == vaults[i as int] && cs[i as int] == canons[i as int]);
        one_more_vault(vaults, canons, vault, form, canon, i + 1);
        assert(other_vaults(vs, cs, canon, i) =~= other_vaults(vaults, canons, canon, i) + own);
    } else {
        assert(vs[i as int] == vault && cs[i as int] == form);
        assert(other_vaults(vs, cs, canon, i + 1) =~= seq![]);
        assert(other_vaults(vs, cs, canon, i) =~= own);
        assert(other_vaults(vaults, canons, canon, i) + own =~= own);
    }
}

/// Forgetting drops each registered vault whose canonical form is the one to
/// forget, and keeps every other, as it is written and in order.
pub proof fn only_the_vault_is_forgotten(
    vaults: Seq<Seq<char>>,
    canons: Seq<Option<String>>,
    vault: Seq<char>,
    form: Option<String>,
    canon: Seq<char>,
)
    requires
        vaults.len() == canons.len(),
    ensures
        other_vaults(seq![], seq![], canon, 0).len() == 0,
        form is Some && form->0@ == canon ==> other_vaults(
            vaults.push(vault),
            canons.push(form),
            canon,
            0,
        ) == other_vaults(vaults, canons, canon, 0),
        form is None || form->0@ != canon ==> other_vaults(
            vaults.push(vault),
            canons.push(form),
            canon,
            0,
        ) == other_vaults(vaults, canons, canon, 0).push(vault),
{
    one_more_vault(vaults, canons, vault, form, canon, 0);
    let rest = other_vaults(vaults, canons, canon, 0);
    assert(rest + Seq::<Seq<char>>::empty() =~= rest);
    assert(rest + seq![vault] =~= rest.push(vault));
}

/// A padded text ends in the text, after blanks only, and is as long as asked
/// unless the text itself is longer.
pub proof fn padding_is_blank(s: Seq<char>, width: nat)
    ensures
        ({
            let p = padded(s, width);
            let n = p.len() - s.len();
            &&& p.len() == if s.len() < width {
                width
            } else {
                s.len()
            }
            &&& p.skip(n) == s
            &&& forall|k: int| 0 <= k < n ==> #[trigger] p[k] == ' '
        }),
{
    let p = padded(s, width);
    assert(p.skip(p.len() - s.len()) =~= s);
}

/// A number below zero is shown as its amount after a minus sign, and any other
/// as it is.
pub proof fn signs_are_shown(n: nat)
    ensures
        integer_text(n as int) == decimal(n),
        n > 0 ==> integer_text(-n).len() == decimal(n).len() + 1,
        n > 0 ==> integer_text(-n)[0] == '-',
        n > 0 ==> integer_text(-n).skip(1) == decimal(n),
{
    reveal_strlit("-");
    assert("-"@ =~= seq!['-']);
    if n > 0 {
        assert(integer_text(-n).skip(1) =~= decimal(n));
    }
}

/// A snippet is the start of a text: all of it, or its first 280 characters
/// where it has more.
pub proof fn snippets_are_the_start(text: Seq<char>)
    ensures
        snippet_of(text).is_prefix_of(text),
        snippet_of(text).len() <= 280,
        snippet_of(text).len() == text.len() || snippet_of(text).len() == 280,
{
    assert(text.take(text.len() as int) =~= text);
}

/// A vault is labelled by its last component, or in full where it has none.
pub proof fn vaults_are_labelled_by_name(root: Seq<char>)
    ensures
        file_name(root) is Some ==> label_of(root) == file_name(root)->0,
        file_name(root) is None ==> label_of(root) == root,
{
}

/// A hit is shown with its number, counted from one, its score, its vault where
/// wanted, its title and its path. Its headings follow on a line of their own
/// where it has any; in full it shows its size too, or else the start of its text
/// where it has any.
pub proof fn hits_are_shown(
    i: nat,
    hit: HitText,
    score: Seq<char>,
    show_root: bool,
    full: bool,
)
    ensures
        ({
            let r = lines_of_hit(i, hit, score, show_root, full);
            let sized = hit.width is Some && hit.height is Some;
            let headed = hit.heading_path.len() > 0;
            let detailed = full && (sized || hit.text.len() > 0);
            let vault = if show_root {
                "["@ + label_of(hit.source_root) + "] "@
            } else {
                seq![]
            };
            &&& r.len() == 1 + (if headed {
                1nat
            } else {
                0nat
            }) + (if detailed {
                1nat
            } else {
                0nat
            })
            &&& r[0] == padded(decimal(i + 1), 2) + ". ["@ + score + "] "@ + vault + hit.title
                + "  ("@ + hit.path + ")"@
            &&& headed ==> r[1] == "      § "@ + hit.heading_path
            &&& detailed && sized ==> r.last() == "      "@ + integer_text(hit.width->0 as int)
                + "x"@ + integer_text(hit.height->0 as int)
            &&& detailed && !sized ==> r.last() == "      "@ + snippet_of(hit.text)
        }),
{
}

/// Each error is listed with its file and message, in order, under a line that
/// says how many there are; without errors nothing is listed.
pub proof fn each_error_is_listed(errors: Seq<ErrorText>)
    ensures
        ({
            let r = error_lines_of(errors);
            &&& errors.len() == 0 ==> r.len() == 0
            &&& errors.len() > 0 ==> {
                &&& r.len() == errors.len() + 1
                &&& r[0] == decimal(errors.len()) + " file(s) failed to index:"@
                &&& forall|k: int|
                    0 <= k < errors.len() ==> #[trigger] r[k + 1] == "  "@ + errors[k].path
                        + " — "@ + errors[k].message
            }
        }),
{
}

/// Each vault is listed with the number of its documents, in order, where there
/// are several; a single one is not listed.
pub proof fn each_of_several_vaults_is_listed(counts: Seq<(Seq<char>, i64)>)
    ensures
        ({
            let r = vault_lines(counts);
            &&& counts.len() <= 1 ==> r.len() == 0
            &&& counts.len() > 1 ==> {
                &&& r.len() == counts.len() + 1
                &&& forall|k: int|
                    0 <= k < counts.len() ==> #[trigger] r[k + 1] == "  "@ + padded(
                        integer_text(counts[k].1 as int),
                        6,
                    ) + "  "@ + counts[k].0
            }
        }),
{
}

/// A config is read from the path given, whether or not the default file is
/// there, and from that file only where no path is given.
pub proof fn a_given_config_comes_first(path: Seq<char>, default_exists: bool)
    ensures
        source_of(Some(path), default_exists) == Some(path),
        source_of(None, true) == Some("gnosis.toml"@),
        source_of(None, false) is None,
{
}

/// A run comes back with its report where nothing stopped it, and with the error
/// that did otherwise.
pub proof fn a_run_reports_or_fails(w: Work)
    ensures
        w.failed is None ==> outcome(w) == Ok::<ReportText, Seq<char>>(w.pass.report),
        w.failed is Some ==> outcome(w) == Err::<ReportText, Seq<char>>(w.failed->0),
{
}

/// A run proceeds as it is asked; a batch holds as many as asked, but one at
/// least.
pub proof fn a_run_proceeds_as_asked(
    chunk_cfg: ChunkConfig,
    force: bool,
    fail_fast: bool,
    image_batch_size: usize,
)
    ensures
        ({
            let o = run_options(chunk_cfg, force, fail_fast, image_batch_size);
            &&& o.max_tokens == chunk_cfg.max_tokens && o.overlap == chunk_cfg.overlap
            &&& o.force == force && o.fail_fast == fail_fast
            &&& o.batch >= 1
            &&& image_batch_size >= 1 ==> o.batch == image_batch_size
            &&& image_batch_size == 0 ==> o.batch == 1
        }),
{
}

/// Whether a path ends in a component that says something.
pub open spec fn ends_well(p: Seq<char>) -> bool {
    &&& p.len() > 0 && p.last() != '/'
    &&& !(p.len() > 1 && p.last() == '.' && p[p.len() - 2] == '/')
}

/// Whether a path begins with a component that says something.
pub open spec fn begins_well(p: Seq<char>) -> bool {
    &&& p.len() > 0 && p[0] != '/'
    &&& !(p[0] == '.' && (p.len() == 1 || p[1] == '/'))
}

proof fn last_slash(dir: Seq<char>, name: Seq<char>, n: int)
    requires
        forall|k: int| 0 <= k < name.len() ==> #[trigger] name[k] != '/',
        dir.len() < n <= dir.len() + 1 + name.len(),
    ensures
        last_index(dir.push('/') + name, '/', n) == dir.len(),
    decreases n,
{
    let p = dir.push('/') + name;
    if n == dir.len() + 1 {
        assert(p[n - 1] == '/');
    } else {
        assert(p[n - 1] == name[n - 2 - dir.len()]);
        last_slash(dir, name, n - 1);
    }
}

proof fn last_is_last(s: Seq<char>, c: char, n: int)
    requires
        0 <= n <= s.len(),
    ensures
        -1 <= last_index(s, c, n) < n || n == 0,
        n == 0 ==> last_index(s, c, n) == -1,
        last_index(s, c, n) >= 0 ==> s[last_index(s, c, n)] == c,
        forall|k: int| last_index(s, c, n) < k < n ==> #[trigger] s[k] != c,
    decreases n,
{
    if n > 0 && s[n - 1] != c {
        last_is_last(s, c, n - 1);
    }
}

proof fn nothing_to_drop(p: Seq<char>, start: int)
    requires
        0 <= start <= p.len(),
        ends_well(p),
        start == 0 ==> p != seq!['.'],
        start == 1 ==> p[0] == '/' || p[0] == '.' && (p.len() == 1 || p[1] == '/'),
        start <= 1,
    ensures
        drop_void_end(p, start) == p,
{
    last_is_last(p, '/', p.len() as int);
    let i = last_index(p, '/', p.len() as int);
    let part = part_at(p, start);
    if p.len() > start && is_void(part) {
        if part.len() > 0 {
            assert(part[0] == p.last());
            if i < start {
                assert(part =~= p.skip(start));
                if start == 0 {
                    assert(p =~= seq!['.']);
                } else {
                    assert(p.len() == 2);
                }
            } else {
                assert(part =~= p.skip(i + 1));
                assert(p.len() == i + 2);
            }
        }
    }
}

/// The parent of a path is what stands before its last component: a directory
/// that ends in a component itself, the root, or nothing for a single component.
pub proof fn the_parent_comes_before_the_name(dir: Seq<char>, name: Seq<char>)
    requires
        forall|k: int| 0 <= k < name.len() ==> #[trigger] name[k] != '/',
        !says_nothing(name),
        ends_well(dir),
    ensures
        parent(dir.push('/') + name) == Some(dir),
        parent(seq!['/'] + name) == Some(seq!['/']),
        parent(name) == Some(Seq::<char>::empty()),
{
    assert(!is_void(name));
    let p = dir.push('/') + name;
    let start = body_start(p);
    last_slash(dir, name, p.len() as int);
    assert(p[0] == dir[0]);
    assert(p.skip(dir.len() as int + 1) =~= name);
    assert(part_at(p, start) == name);
    assert(drop_void_end(p, start) == p);
    assert(p.take(dir.len() as int) =~= dir);
    if dir.len() > 1 {
        assert(p[1] == dir[1]);
    } else {
        assert(p[1] == '/');
    }
    if start == 0 && dir.len() == 1 {
        assert(dir[0] != '.');
    }
    nothing_to_drop(dir, start);
    let none = Seq::<char>::empty();
    let q = seq!['/'] + name;
    assert(q =~= none.push('/') + name);
    last_slash(none, name, q.len() as int);
    assert(q.skip(1) =~= name);
    assert(part_at(q, 1) == name);
    assert(drop_void_end(q, 1) == q);
    assert(q.take(1) =~= seq!['/']);
    assert(drop_void_end(seq!['/'], 1) == seq!['/']);
    last_is_last(name, '/', name.len() as int);
    let first = body_start(name);
    assert(first == 0) by {
        assert(name[0] != '/');
        if name.len() > 1 {
            assert(name[1] != '/');
        }
    }
    assert(last_index(name, '/', name.len() as int) == -1) by {
        let i = last_index(name, '/', name.len() as int);
        if i >= 0 {
            assert(name[i] != '/');
        }
    }
    assert(name.skip(0) =~= name);
    assert(part_at(name, 0) == name);
    assert(drop_void_end(name, 0) == name);
    assert(name.take(0) =~= none);
    assert(drop_void_end(none, 0) == none);
}

/// A first component `~` is replaced by the home directory, where one is known;
/// what follows is kept. Any other path is left as it is.
pub proof fn a_tilde_is_the_home_directory(rest: Seq<char>, home: Seq<char>, p: Seq<char>)
    requires
        begins_well(rest) && ends_well(rest),
        p.len() > 0 && p[0] == '~' ==> p.len() > 1 && p[1] != '/',
    ensures
        expanded(seq!['~', '/'] + rest, Some(home)) == join_path(home, rest),
        expanded(seq!['~'], Some(home)) == join_path(home, seq![]),
        expanded(seq!['~', '/'] + rest, None) == seq!['~', '/'] + rest,
        expanded(p, Some(home)) == p,
        expanded(p, None) == p,
{
    let t = seq!['~', '/'] + rest;
    let u = t.skip(1);
    assert(u[0] == '/');
    assert(index_or_end(u, '/', 0) == 0);
    assert(u.take(0) =~= seq![]);
    assert(u.skip(1) =~= rest);
    index_or_end_bounds(rest, '/', 0);
    let n = index_or_end(rest, '/', 0);
    assert(!is_void(rest.take(n))) by {
        if n == 0 {
            assert(rest[0] == '/');
        }
        if rest.take(n) == seq!['.'] {
            assert(rest.take(n).len() == 1);
            assert(rest.take(n)[0] == rest[0]);
            assert(n < rest.len() ==> rest[n] == '/');
        }
    }
    assert(drop_void_start(rest) == rest);
    assert(drop_void_start(u) == rest);
    if rest == seq!['.'] {
        assert(rest[0] == '.');
    }
    nothing_to_drop(rest, 0);
    let one = seq!['~'];
    let none = Seq::<char>::empty();
    assert(one.skip(1) =~= none);
    assert(drop_void_start(none) == none);
    assert(drop_void_end(none, 0) == none);
}

/// The database directory lies in the vault, and that in the working directory;
/// a local database lies in that directory beside the config.
pub proof fn databases_lie_beside_their_config(
    vault: Seq<char>,
    db_dir: Seq<char>,
    cwd: Seq<char>,
    dir: Seq<char>,
    name: Seq<char>,
)
    requires
        forall|k: int| 0 <= k < name.len() ==> #[trigger] name[k] != '/',
        !says_nothing(name),
        ends_well(dir),
    ensures
        db_dir_of(vault, db_dir, cwd) == join_path(cwd, join_path(vault, db_dir)),
        local_db_path(dir.push('/') + name, db_dir) == join_path(
            join_path(dir, db_dir),
            "gnosis.db"@,
        ),
        local_db_path(name, db_dir) == join_path(db_dir, "gnosis.db"@),
{
    the_parent_comes_before_the_name(dir, name);
}

/// The state of an index is shown line by line: its mode, its files, its model,
/// how many documents and chunks of each kind it holds and when it was last
/// written, and the vaults after that.
pub proof fn the_state_is_shown_in_full(
    ws: Workspace,
    stats: Stats,
    model: Seq<char>,
    counts: Seq<(Seq<char>, i64)>,
)
    ensures
        ({
            let r = status_of(ws, stats, model, counts);
            &&& r.len() == 7 + vault_lines(counts).len() && r.skip(7) == vault_lines(counts)
            &&& r[0] == "mode:       "@ + if ws.global {
                "global"@
            } else {
                "local"@
            }
            &&& r[1] == "config:     "@ + ws.config_path@
            &&& r[2] == "database:   "@ + ws.db_path@
            &&& r[3] == "text model: "@ + model
            &&& r[4] == "documents:  "@ + integer_text(stats.documents as int)
            &&& r[5] == "chunks:     "@ + (integer_text(stats.chunks_text as int) + " text, "@
                + integer_text(stats.chunks_image as int) + " image"@)
            &&& stats.indexed_at is None ==> r[6] == "last index: never"@
            &&& stats.indexed_at is Some ==> r[6] == "last index: "@ + (integer_text(
                stats.indexed_at->0 as int,
            ) + " (unix)"@)
        }),
{
    assert(status_of(ws, stats, model, counts).skip(7) =~= vault_lines(counts));
}

/// Results show their vault in global mode, and where there is more than one.
pub proof fn vaults_are_shown_where_there_are_several(ws: Workspace)
    ensures
        shows_root(ws) <==> ws.global || ws.config.vaults@.len() >= 2,
{
}

/// Each text model is known by its own name, with its dimension: two of them
/// hold 384 numbers and two 768. The image model holds 512. No other name is
/// known.
pub proof fn models_are_known_by_name(name: Seq<char>)
    ensures
        text_model("bge-small-en-v1.5"@) == Some((TextModel::BgeSmallEnV15, 384usize)),
        text_model("bge-base-en-v1.5"@) == Some((TextModel::BgeBaseEnV15, 768usize)),
        text_model("all-MiniLM-L6-v2"@) == Some((TextModel::AllMiniLmL6V2, 384usize)),
        text_model("nomic-embed-text-v1.5"@) == Some((TextModel::NomicEmbedTextV15, 768usize)),
        text_model(name) is Some ==> name == "bge-small-en-v1.5"@ || name == "bge-base-en-v1.5"@
            || name == "all-MiniLM-L6-v2"@ || name == "nomic-embed-text-v1.5"@,
        image_model("clip-vit-b-32"@) == Some((ImageModel::ClipVitB32, 512usize)),
        image_model(name) is Some ==> name == "clip-vit-b-32"@,
{
    reveal_strlit("bge-small-en-v1.5");
    reveal_strlit("bge-base-en-v1.5");
    reveal_strlit("all-MiniLM-L6-v2");
    reveal_strlit("nomic-embed-text-v1.5");
    assert("bge-small-en-v1.5"@.len() == 17 && "bge-base-en-v1.5"@.len() == 16);
    assert("all-MiniLM-L6-v2"@.len() == 16 && "nomic-embed-text-v1.5"@.len() == 21);
    assert("bge-base-en-v1.5"@[0] == 'b' && "all-MiniLM-L6-v2"@[0] == 'a');
}

} // verus!
