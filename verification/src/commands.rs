//! The commands' inputs, what they decide, and the lines they print.
use vstd::prelude::*;
use vstd::slice::slice_subrange;

use crate::config::{is_default, Config};
use crate::index::{error_texts, IndexError, IndexReport};
use crate::paths::{file_name, name_of_path};
use crate::pipeline::ErrorText;
use crate::search::{Hit, HitText};
use crate::store::{count_texts, FilterText, Stats, TextQuery};
use crate::text::{decimal, number, opt_text, push_text, same_text, texts, to_chars};
use crate::workspace::Workspace;

verus! {

/// Remove a vault from the index and delete its documents.
#[derive(Debug)]
pub struct ForgetArgs {
    /// The vault path to forget.
    pub path: String,
}

/// Build or incrementally update the index.
#[derive(Debug)]
pub struct IndexArgs {
    /// Vault path to index. Locally this overrides the configured vaults for
    /// this run; globally it registers (and indexes) the vault.
    pub path: Option<String>,
    /// Stop immediately on the first file that fails to index (e.g. a corrupt
    /// image), instead of skipping it and reporting it at the end.
    pub fail_fast: bool,
}

/// Write a default config file.
#[derive(Debug)]
pub struct InitArgs {
    /// Overwrite an existing config file.
    pub force: bool,
}

/// Force a full re-embed and rebuild of the index.
#[derive(Debug)]
pub struct RebuildArgs {
    /// Stop immediately on the first file that fails to index.
    pub fail_fast: bool,
}

/// List notes related to a given file.
#[derive(Debug)]
pub struct RelatedArgs {
    /// The file to find related items for.
    pub file: String,
    /// Restrict to these vector spaces (e.g. text,image). Defaults to all
    /// available: cross-modal by default.
    pub spaces: Vec<String>,
    /// Maximum number of results.
    pub limit: usize,
    /// Include items already linked from the source (Obsidian vaults).
    pub include_linked: bool,
    /// Restrict to documents having any of these tags.
    pub tag: Vec<String>,
    /// Emit results as JSON.
    pub json: bool,
}

/// Semantic search over the indexed content.
#[derive(Debug)]
pub struct SearchArgs {
    /// The natural-language query.
    pub query: String,
    /// Restrict to these vector spaces (e.g. text,image). Defaults to all.
    pub spaces: Vec<String>,
    /// Restrict to documents from these vault roots.
    pub from: Vec<String>,
    /// Restrict to documents having any of these tags.
    pub tag: Vec<String>,
    /// Maximum number of results.
    pub limit: usize,
    /// Print matching chunk text, not just paths.
    pub full: bool,
    /// Emit results as JSON.
    pub json: bool,
}

/// Show index statistics.
#[derive(Debug)]
pub struct StatusArgs {}

/// The decimal text of an integer.
pub open spec fn integer_text(n: int) -> Seq<char> {
    if n < 0 {
        "-"@ + decimal((-n) as nat)
    } else {
        decimal(n as nat)
    }
}

/// The decimal text of an integer.
fn integer(n: i64) -> (r: String)
    ensures
        r@ == integer_text(n as int),
{
    if n < 0 {
        let m: u64 = if n == i64::MIN {
            0x8000_0000_0000_0000
        } else {
            (-n) as u64
        };
        let mut s: String = "-".to_string();
        push_text(&mut s, number(m).as_str());
        s
    } else {
        number(n as u64)
    }
}

/// A text after as many spaces as it lacks to be `width` characters long.
pub open spec fn padded(s: Seq<char>, width: nat) -> Seq<char> {
    if s.len() >= width {
        s
    } else {
        Seq::new((width - s.len()) as nat, |i: int| ' ') + s
    }
}

/// A text after as many spaces as it lacks to be `width` characters long.
fn pad(s: &str, width: usize) -> (r: String)
    ensures
        r@ == padded(s@, width as nat),
{
    let n: usize = to_chars(s).len();
    let mut r: String = String::new();
    assert(r@ =~= seq![]);
    let mut k: usize = n;
    while k < width
        invariant
            n <= k,
            n < width ==> k <= width,
            n >= width ==> k == n,
            r@ == Seq::new((k - n) as nat, |i: int| ' '),
        decreases width - k,
    {
        r.push(' ');
        k += 1;
        assert(r@ =~= Seq::new((k - n) as nat, |i: int| ' '));
    }
    push_text(&mut r, s);
    assert(r@ =~= padded(s@, width as nat));
    r
}

/// Whether results show which vault they are from.
pub open spec fn shows_root(ws: Workspace) -> bool {
    ws.global || ws.config.vaults.len() > 1
}

/// Whether results show which vault they are from.
pub fn show_root(ws: &Workspace) -> (r: bool)
    ensures
        r == shows_root(*ws),
{
    ws.global || ws.config.vaults.len() > 1
}

/// A short label for a source vault: its final path component.
pub open spec fn label_of(root: Seq<char>) -> Seq<char> {
    match file_name(root) {
        Some(name) => name,
        None => root,
    }
}

/// Short label for a source vault: its final path component.
pub fn root_label(root: &str) -> (r: String)
    ensures
        r@ == label_of(root@),
{
    match name_of_path(root) {
        Some(name) => name,
        None => root.to_string(),
    }
}

/// The line that a hit is listed with.
pub open spec fn hit_line(i: nat, hit: HitText, score: Seq<char>, show_root: bool) -> Seq<char> {
    let tag = if show_root {
        "["@ + label_of(hit.source_root) + "] "@
    } else {
        seq![]
    };
    padded(decimal(i + 1), 2) + ". ["@ + score + "] "@ + tag + hit.title + "  ("@ + hit.path
        + ")"@
}

/// The first 280 characters of a chunk's text.
pub open spec fn snippet_of(text: Seq<char>) -> Seq<char> {
    if text.len() > 280 {
        text.take(280)
    } else {
        text
    }
}

/// The line that shows what matched: the dimensions of an image, or the start of
/// the chunk's text where it has one.
pub open spec fn detail_lines(hit: HitText) -> Seq<Seq<char>> {
    match (hit.width, hit.height) {
        (Some(w), Some(h)) => seq![
            "      "@ + integer_text(w as int) + "x"@ + integer_text(h as int),
        ],
        _ => if hit.text.len() == 0 {
            seq![]
        } else {
            seq!["      "@ + snippet_of(hit.text)]
        },
    }
}

/// The lines that hit `i`, counted from zero, is shown with.
pub open spec fn lines_of_hit(
    i: nat,
    hit: HitText,
    score: Seq<char>,
    show_root: bool,
    full: bool,
) -> Seq<Seq<char>> {
    let heading = if hit.heading_path.len() == 0 {
        seq![]
    } else {
        seq!["      § "@ + hit.heading_path]
    };
    let detail = if full {
        detail_lines(hit)
    } else {
        seq![]
    };
    seq![hit_line(i, hit, score, show_root)] + heading + detail
}

/// The lines that hit `i`, counted from zero, is shown with; `score` is its
/// score as text.
pub fn hit_lines(i: usize, hit: &Hit, score: &str, show_root: bool, full: bool) -> (r: Vec<String>)
    requires
        i < usize::MAX,
    ensures
        texts(r@) == lines_of_hit(i as nat, hit@, score@, show_root, full),
{
    let ghost h = hit@;
    let mut lines: Vec<String> = Vec::new();
    let mut line: String = pad(number((i + 1) as u64).as_str(), 2);
    push_text(&mut line, ". [");
    push_text(&mut line, score);
    push_text(&mut line, "] ");
    let ghost start = line@;
    if show_root {
        push_text(&mut line, "[");
        push_text(&mut line, root_label(hit.source_root.as_str()).as_str());
        push_text(&mut line, "] ");
        assert(line@ =~= start + ("["@ + label_of(h.source_root) + "] "@));
    } else {
        assert(line@ =~= start + Seq::<char>::empty());
    }
    push_text(&mut line, hit.title.as_str());
    push_text(&mut line, "  (");
    push_text(&mut line, hit.path.as_str());
    push_text(&mut line, ")");
    lines.push(line);
    assert(texts(lines@) =~= seq![hit_line(i as nat, h, score@, show_root)]);
    let ghost before = texts(lines@);
    if !hit.heading_path.as_str().is_empty() {
        let mut heading: String = "      § ".to_string();
        push_text(&mut heading, hit.heading_path.as_str());
        lines.push(heading);
        assert(texts(lines@) =~= before + seq![heading@]);
    } else {
        assert(texts(lines@) =~= before + Seq::<Seq<char>>::empty());
    }
    let ghost before = texts(lines@);
    if full {
        match (hit.width, hit.height) {
            (Some(w), Some(h)) => {
                let mut size: String = "      ".to_string();
                push_text(&mut size, integer(w).as_str());
                push_text(&mut size, "x");
                push_text(&mut size, integer(h).as_str());
                lines.push(size);
                assert(texts(lines@) =~= before + seq![size@]);
            },
            _ => {
                if !hit.text.as_str().is_empty() {
                    let chars = to_chars(hit.text.as_str());
                    let mut snippet: String = "      ".to_string();
                    if chars.len() > 280 {
                        let cut = slice_subrange(chars.as_slice(), 0, 280);
                        assert(cut@ =~= chars@.take(280));
                        crate::text::push_chars(&mut snippet, cut);
                    } else {
                        crate::text::push_chars(&mut snippet, chars.as_slice());
                    }
                    lines.push(snippet);
                    assert(texts(lines@) =~= before + seq![snippet@]);
                } else {
                    assert(texts(lines@) =~= before + Seq::<Seq<char>>::empty());
                }
            },
        }
    } else {
        assert(texts(lines@) =~= before + Seq::<Seq<char>>::empty());
    }
    lines
}

/// The line that sums an indexing run up.
pub fn index_summary(report: &IndexReport) -> (r: String)
    ensures
        r@ == "Done: "@ + decimal(report@.scanned as nat) + " scanned, "@ + decimal(
            report@.indexed as nat,
        ) + " (re)indexed, "@ + decimal(report@.skipped as nat) + " unchanged, "@ + decimal(
            report@.deleted as nat,
        ) + " removed, "@ + decimal(report@.chunks as nat) + " chunks."@,
{
    let mut s: String = "Done: ".to_string();
    push_text(&mut s, number(report.scanned as u64).as_str());
    push_text(&mut s, " scanned, ");
    push_text(&mut s, number(report.indexed as u64).as_str());
    push_text(&mut s, " (re)indexed, ");
    push_text(&mut s, number(report.skipped as u64).as_str());
    push_text(&mut s, " unchanged, ");
    push_text(&mut s, number(report.deleted as u64).as_str());
    push_text(&mut s, " removed, ");
    push_text(&mut s, number(report.chunks as u64).as_str());
    push_text(&mut s, " chunks.");
    s
}

/// The line that sums a rebuild up.
pub fn rebuild_summary(report: &IndexReport) -> (r: String)
    ensures
        r@ == "Done: "@ + decimal(report@.indexed as nat) + " indexed, "@ + decimal(
            report@.chunks as nat,
        ) + " chunks."@,
{
    let mut s: String = "Done: ".to_string();
    push_text(&mut s, number(report.indexed as u64).as_str());
    push_text(&mut s, " indexed, ");
    push_text(&mut s, number(report.chunks as u64).as_str());
    push_text(&mut s, " chunks.");
    s
}

/// The line for a file that failed to index.
pub open spec fn error_line(e: ErrorText) -> Seq<char> {
    "  "@ + e.path + " — "@ + e.message
}

/// The lines for the files that failed to index: none where there are none.
pub open spec fn error_lines_of(errors: Seq<ErrorText>) -> Seq<Seq<char>> {
    if errors.len() == 0 {
        seq![]
    } else {
        seq![decimal(errors.len()) + " file(s) failed to index:"@] + Seq::new(
            errors.len(),
            |i: int| error_line(errors[i]),
        )
    }
}

/// The lines for an indexing run's collected errors (files skipped rather than
/// aborting the run). None when there are none.
pub fn error_lines(errors: &[IndexError]) -> (r: Vec<String>)
    ensures
        texts(r@) == error_lines_of(error_texts(errors@)),
{
    let ghost all = error_texts(errors@);
    assert(all.len() == errors.len());
    let mut lines: Vec<String> = Vec::new();
    if errors.len() == 0 {
        assert(texts(lines@) =~= seq![]);
        return lines;
    }
    let mut head: String = number(errors.len() as u64);
    push_text(&mut head, " file(s) failed to index:");
    let ghost tail = Seq::new(all.len(), |i: int| error_line(all[i]));
    lines.push(head);
    let mut i: usize = 0;
    assert(texts(lines@) =~= seq![head@] + tail.take(0));
    while i < errors.len()
        invariant
            i <= errors.len(),
            all == error_texts(errors@),
            tail == Seq::new(all.len(), |i: int| error_line(all[i])),
            texts(lines@) == seq![head@] + tail.take(i as int),
        decreases errors.len() - i,
    {
        let ghost before = texts(lines@);
        let mut line: String = "  ".to_string();
        push_text(&mut line, errors[i].path.as_str());
        push_text(&mut line, " — ");
        push_text(&mut line, errors[i].message.as_str());
        assert(line@ == error_line(all[i as int]));
        lines.push(line);
        i += 1;
        assert(texts(lines@) =~= before.push(line@));
        assert(tail.take(i as int) =~= tail.take(i - 1).push(line@));
    }
    assert(tail.take(i as int) =~= tail);
    lines
}

/// The filter that a search applies: a list that is empty does not restrict.
pub fn query_filter<'a>(from: &'a [String], tags: &'a [String]) -> (r: TextQuery<'a>)
    ensures
        r@ == (FilterText {
            from: if from.len() == 0 {
                None
            } else {
                Some(texts(from@))
            },
            tags: if tags.len() == 0 {
                None
            } else {
                Some(texts(tags@))
            },
        }),
{
    TextQuery {
        from: if from.len() == 0 {
            None
        } else {
            Some(from)
        },
        tags: if tags.len() == 0 {
            None
        } else {
            Some(tags)
        },
    }
}

/// The message for a workspace without a database.
pub fn no_index(db_path: &str) -> (r: String)
    ensures
        r@ == "no index found at "@ + db_path@ + " — run `gnosis index`"@,
{
    let mut s: String = "no index found at ".to_string();
    push_text(&mut s, db_path);
    push_text(&mut s, " — run `gnosis index`");
    s
}

/// Whether one of some vaults, by their canonical forms, is `canon`; a vault
/// that cannot be resolved is none.
pub open spec fn is_registered(canons: Seq<Option<String>>, canon: Seq<char>) -> bool {
    exists|i: int| 0 <= i < canons.len() && opt_text(#[trigger] canons[i]) == Some(canon)
}

fn same_path(found: &Option<String>, canon: &str) -> (r: bool)
    ensures
        r == (opt_text(*found) == Some(canon@)),
{
    match found {
        Some(p) => same_text(p.as_str(), canon),
        None => false,
    }
}

fn registered(canons: &[Option<String>], canon: &str) -> (r: bool)
    ensures
        r == is_registered(canons@, canon@),
{
    let mut i: usize = 0;
    while i < canons.len()
        invariant
            i <= canons.len(),
            forall|k: int| 0 <= k < i ==> opt_text(#[trigger] canons@[k]) != Some(canon@),
        decreases canons.len() - i,
    {
        if same_path(&canons[i], canon) {
            assert(opt_text(canons@[i as int]) == Some(canon@));
            return true;
        }
        i += 1;
    }
    false
}

/// Determines which vault roots to index, registering a new one in global mode.
/// `canon` is what resolving `path` gave, and `canons` the canonical form of
/// each registered vault, `None` where it cannot be resolved; only global mode
/// with a path needs them. The flag says whether the config is to be saved.
pub fn resolve_roots(
    ws: &mut Workspace,
    path: Option<String>,
    canon: Result<String, String>,
    canons: &[Option<String>],
) -> (r: Result<(Vec<String>, bool), String>)
    ensures
        final(ws).config_path == old(ws).config_path,
        final(ws).db_path == old(ws).db_path,
        final(ws).global == old(ws).global,
        !old(ws).global ==> {
            &&& *final(ws) == *old(ws)
            &&& r is Ok
            &&& !r->Ok_0.1
            &&& path is Some ==> texts(r->Ok_0.0@) == seq![path->0@]
            &&& path is None ==> are_roots(*old(ws), r->Ok_0.0@)
        },
        old(ws).global && path is None ==> {
            &&& *final(ws) == *old(ws)
            &&& r is Ok <==> old(ws).config.vaults.len() > 0
            &&& r is Ok ==> !r->Ok_0.1 && are_roots(*old(ws), r->Ok_0.0@)
            &&& r is Err ==> r->Err_0@
                == "no vaults registered; run `gnosis -g index <path>` or add them to "@
                + old(ws).config_path@
        },
        old(ws).global && path is Some && canon is Err ==> {
            &&& *final(ws) == *old(ws)
            &&& r is Err
            &&& r->Err_0@ == canon->Err_0@
        },
        old(ws).global && path is Some && canon is Ok ==> {
            &&& r is Ok
            &&& texts(r->Ok_0.0@) == seq![canon->Ok_0@]
            &&& r->Ok_0.1 == !is_registered(canons@, canon->Ok_0@)
            &&& r->Ok_0.1 ==> final(ws).config == (Config {
                vaults: final(ws).config.vaults,
                ..old(ws).config
            }) && texts(final(ws).config.vaults@) == texts(old(ws).config.vaults@).push(
                canon->Ok_0@,
            )
            &&& !r->Ok_0.1 ==> *final(ws) == *old(ws)
        },
{
    if !ws.global {
        // Local: a positional path overrides the config vaults for this run.
        return match path {
            Some(p) => {
                let mut roots: Vec<String> = Vec::new();
                roots.push(p);
                assert(texts(roots@) =~= seq![path->0@]);
                Ok((roots, false))
            },
            None => Ok((ws.roots(), false)),
        };
    }
    match path {
        Some(_) => {
            let canon = match canon {
                Ok(c) => c,
                Err(e) => {
                    return Err(e);
                },
            };
            let known = registered(canons, canon.as_str());
            if !known {
                let ghost before = texts(ws.config.vaults@);
                ws.config.vaults.push(canon.clone());
                assert(texts(ws.config.vaults@) =~= before.push(canon@));
            }
            let mut roots: Vec<String> = Vec::new();
            roots.push(canon);
            assert(texts(roots@) =~= seq![canon@]);
            Ok((roots, !known))
        },
        None => {
            let roots = ws.roots();
            if roots.len() == 0 {
                let mut e: String =
                    "no vaults registered; run `gnosis -g index <path>` or add them to ".to_string();
                push_text(&mut e, ws.config_path.as_str());
                return Err(e);
            }
            Ok((roots, false))
        },
    }
}

/// Whether `roots` are a workspace's vaults with a leading `~` expanded.
pub open spec fn are_roots(ws: Workspace, roots: Seq<String>) -> bool {
    &&& roots.len() == ws.config.vaults.len()
    &&& forall|i: int|
        0 <= i < roots.len() ==> crate::workspace::is_expansion(
            ws.config.vaults@[i]@,
            (#[trigger] roots[i])@,
        )
}

/// The roots that a rebuild indexes: the vaults, of which there must be one.
pub fn rebuild_roots(ws: &Workspace) -> (r: Result<Vec<String>, String>)
    ensures
        r is Ok <==> ws.config.vaults.len() > 0,
        r is Ok ==> are_roots(*ws, r->Ok_0@),
        r is Err ==> r->Err_0@ == "no vaults registered to rebuild; add them to "@
            + ws.config_path@,
{
    let roots = ws.roots();
    if roots.len() == 0 {
        let mut e: String = "no vaults registered to rebuild; add them to ".to_string();
        push_text(&mut e, ws.config_path.as_str());
        return Err(e);
    }
    Ok(roots)
}

/// The vaults, from index `i` on, whose canonical form is not `canon`.
pub open spec fn other_vaults(
    vaults: Seq<Seq<char>>,
    canons: Seq<Option<String>>,
    canon: Seq<char>,
    i: nat,
) -> Seq<Seq<char>>
    decreases vaults.len() - i,
{
    if i >= vaults.len() {
        seq![]
    } else if opt_text(canons[i as int]) == Some(canon) {
        other_vaults(vaults, canons, canon, i + 1)
    } else {
        seq![vaults[i as int]] + other_vaults(vaults, canons, canon, i + 1)
    }
}

/// Drops a vault from the registered list, comparing canonical paths: `canons`
/// holds that of each registered vault, `None` where it cannot be resolved. How
/// many were dropped is returned.
pub fn forget_vault(ws: &mut Workspace, canons: &[Option<String>], canon: &str) -> (r: usize)
    requires
        canons.len() == old(ws).config.vaults.len(),
    ensures
        texts(final(ws).config.vaults@) == other_vaults(
            texts(old(ws).config.vaults@),
            canons@,
            canon@,
            0,
        ),
        r == old(ws).config.vaults.len() - final(ws).config.vaults.len(),
        *final(ws) == (Workspace {
            config: Config { vaults: final(ws).config.vaults, ..old(ws).config },
            ..*old(ws)
        }),
{
    let ghost all = texts(ws.config.vaults@);
    let before: usize = ws.config.vaults.len();
    let mut kept: Vec<String> = Vec::new();
    let mut i: usize = 0;
    assert(texts(kept@) + other_vaults(all, canons@, canon@, 0) =~= other_vaults(
        all,
        canons@,
        canon@,
        0,
    ));
    while i < ws.config.vaults.len()
        invariant
            i <= ws.config.vaults.len(),
            kept.len() <= i,
            *ws == *old(ws),
            all == texts(ws.config.vaults@),
            canons.len() == ws.config.vaults.len(),
            other_vaults(all, canons@, canon@, 0) == texts(kept@) + other_vaults(
                all,
                canons@,
                canon@,
                i as nat,
            ),
        decreases ws.config.vaults.len() - i,
    {
        let ghost so_far = texts(kept@);
        let ghost rest = other_vaults(all, canons@, canon@, (i + 1) as nat);
        if !same_path(&canons[i], canon) {
            kept.push(ws.config.vaults[i].clone());
            assert(texts(kept@) =~= so_far.push(all[i as int]));
            assert(so_far + (seq![all[i as int]] + rest) =~= texts(kept@) + rest);
        }
        i += 1;
    }
    assert(texts(kept@) + Seq::<Seq<char>>::empty() =~= texts(kept@));
    let dropped: usize = before - kept.len();
    ws.config.vaults = kept;
    dropped
}

/// The line that reports a forgotten vault.
pub fn forget_summary(canon: &str, removed_docs: usize, unregistered: usize) -> (r: String)
    ensures
        r@ == "Forgot "@ + canon@ + ": removed "@ + decimal(removed_docs as nat)
            + " document(s)"@ + (if unregistered > 0 {
            " and unregistered the vault"@
        } else {
            seq![]
        }) + "."@,
{
    let mut s: String = "Forgot ".to_string();
    push_text(&mut s, canon);
    push_text(&mut s, ": removed ");
    push_text(&mut s, number(removed_docs as u64).as_str());
    push_text(&mut s, " document(s)");
    let ghost before = s@;
    if unregistered > 0 {
        push_text(&mut s, " and unregistered the vault");
    } else {
        assert(s@ =~= before + Seq::<char>::empty());
    }
    push_text(&mut s, ".");
    s
}

/// The config that `init` writes: globally it starts with no vaults registered.
pub fn init_config(global: bool) -> (r: Config)
    ensures
        is_default(r),
        texts(r.vaults@) == (if global {
            Seq::<Seq<char>>::empty()
        } else {
            seq!["."@]
        }),
{
    let mut config = Config::default();
    if global {
        config.vaults = Vec::new();
        assert(texts(config.vaults@) =~= seq![]);
    }
    config
}

/// Whether `init` may write its file: not over an existing one, unless forced.
pub fn check_init(path: &str, exists: bool, args: &InitArgs) -> (r: Result<(), String>)
    ensures
        r is Err <==> exists && !args.force,
        r is Err ==> r->Err_0@ == path@ + " already exists; pass --force to overwrite"@,
{
    if exists && !args.force {
        let mut e: String = path.to_string();
        push_text(&mut e, " already exists; pass --force to overwrite");
        return Err(e);
    }
    Ok(())
}

/// A line made of a label and a text.
pub open spec fn labelled(label: Seq<char>, text: Seq<char>) -> Seq<char> {
    label + text
}

/// The lines for the documents of each vault: none unless there are several.
pub open spec fn vault_lines(counts: Seq<(Seq<char>, i64)>) -> Seq<Seq<char>> {
    if counts.len() <= 1 {
        seq![]
    } else {
        seq!["vaults:"@] + Seq::new(
            counts.len(),
            |i: int| "  "@ + padded(integer_text(counts[i].1 as int), 6) + "  "@ + counts[i].0,
        )
    }
}

/// The lines that show the state of an index.
pub open spec fn status_of(
    ws: Workspace,
    stats: Stats,
    text_model: Seq<char>,
    counts: Seq<(Seq<char>, i64)>,
) -> Seq<Seq<char>> {
    seq![
        labelled("mode:       "@, if ws.global {
            "global"@
        } else {
            "local"@
        }),
        labelled("config:     "@, ws.config_path@),
        labelled("database:   "@, ws.db_path@),
        labelled("text model: "@, text_model),
        labelled("documents:  "@, integer_text(stats.documents as int)),
        labelled(
            "chunks:     "@,
            integer_text(stats.chunks_text as int) + " text, "@ + integer_text(
                stats.chunks_image as int,
            ) + " image"@,
        ),
        match stats.indexed_at {
            Some(t) => labelled("last index: "@, integer_text(t as int) + " (unix)"@),
            None => "last index: never"@,
        },
    ] + vault_lines(counts)
}

fn label(name: &str, text: &str) -> (r: String)
    ensures
        r@ == labelled(name@, text@),
{
    let mut s: String = name.to_string();
    push_text(&mut s, text);
    s
}

/// The lines that show the state of an index. `text_model` is the model that the
/// index was built with, or else the configured one.
pub fn status_lines(
    ws: &Workspace,
    stats: &Stats,
    text_model: &str,
    counts: &[(String, i64)],
) -> (r: Vec<String>)
    ensures
        texts(r@) == status_of(*ws, *stats, text_model@, count_texts(counts@)),
{
    let mut lines: Vec<String> = Vec::new();
    lines.push(
        label(
            "mode:       ",
            if ws.global {
                "global"
            } else {
                "local"
            },
        ),
    );
    lines.push(label("config:     ", ws.config_path.as_str()));
    lines.push(label("database:   ", ws.db_path.as_str()));
    lines.push(label("text model: ", text_model));
    lines.push(label("documents:  ", integer(stats.documents).as_str()));
    let mut chunks: String = integer(stats.chunks_text);
    push_text(&mut chunks, " text, ");
    push_text(&mut chunks, integer(stats.chunks_image).as_str());
    push_text(&mut chunks, " image");
    lines.push(label("chunks:     ", chunks.as_str()));
    lines.push(
        match stats.indexed_at {
            Some(t) => {
                let mut at: String = integer(t);
                push_text(&mut at, " (unix)");
                label("last index: ", at.as_str())
            },
            None => "last index: never".to_string(),
        },
    );
    let ghost all = count_texts(counts@);
    let ghost none: Seq<(Seq<char>, i64)> = seq![];
    let ghost head = texts(lines@);
    assert(head + vault_lines(none) =~= head);
    assert(head =~= status_of(*ws, *stats, text_model@, none));
    if counts.len() > 1 {
        let ghost tail = Seq::new(
            all.len(),
            |i: int| "  "@ + padded(integer_text(all[i].1 as int), 6) + "  "@ + all[i].0,
        );
        lines.push("vaults:".to_string());
        let ghost start = texts(lines@);
        assert(start =~= head + seq!["vaults:"@]);
        let mut i: usize = 0;
        assert(texts(lines@) =~= start + tail.take(0));
        while i < counts.len()
            invariant
                i <= counts.len(),
                all == count_texts(counts@),
                tail == Seq::new(
                    all.len(),
                    |i: int| "  "@ + padded(integer_text(all[i].1 as int), 6) + "  "@ + all[i].0,
                ),
                texts(lines@) == start + tail.take(i as int),
            decreases counts.len() - i,
        {
            let ghost before = texts(lines@);
            let mut line: String = "  ".to_string();
            push_text(&mut line, pad(integer(counts[i].1).as_str(), 6).as_str());
            push_text(&mut line, "  ");
            push_text(&mut line, counts[i].0.as_str());
            assert(line@ == tail[i as int]);
            lines.push(line);
            i += 1;
            assert(texts(lines@) =~= before.push(line@));
            assert(tail.take(i as int) =~= tail.take(i - 1).push(line@));
        }
        assert(tail.take(i as int) =~= tail);
        assert(texts(lines@) =~= head + vault_lines(all));
    } else {
        assert(texts(lines@) =~= head + vault_lines(all));
    }
    assert(texts(lines@) =~= status_of(*ws, *stats, text_model@, all));
    lines
}

} // verus!
