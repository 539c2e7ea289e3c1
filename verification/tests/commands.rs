use gnosis::commands::{
    check_init, error_lines, forget_summary, forget_vault, hit_lines, index_summary, init_config,
    no_index, query_filter, rebuild_roots, rebuild_summary, resolve_roots, root_label, show_root,
    status_lines, InitArgs,
};
use gnosis::config::Config;
use gnosis::index::{IndexError, IndexReport};
use gnosis::search::Hit;
use gnosis::store::Stats;
use gnosis::workspace::Workspace;

fn strings(v: &[&str]) -> Vec<String> {
    v.iter().map(|s| s.to_string()).collect()
}

fn workspace(global: bool, vaults: &[&str]) -> Workspace {
    let mut config = Config::default();
    config.vaults = strings(vaults);
    Workspace {
        config,
        config_path: "/c/config.toml".to_string(),
        db_path: "/c/global.db".to_string(),
        global,
    }
}

fn hit() -> Hit {
    Hit {
        path: "/v/a.md".to_string(),
        title: "A".to_string(),
        source_root: "/home/me/notes".to_string(),
        heading_path: "H > I".to_string(),
        text: "x".repeat(300),
        score: 0,
        width: None,
        height: None,
    }
}

fn report() -> IndexReport {
    IndexReport { scanned: 10, indexed: 4, skipped: 5, deleted: 2, chunks: 33, errors: Vec::new() }
}

#[test]
fn hits_are_shown_with_their_vault_heading_and_text() {
    assert_eq!(
        hit_lines(0, &hit(), "0.123", false, false),
        vec![" 1. [0.123] A  (/v/a.md)", "      § H > I"]
    );
    let lines = hit_lines(11, &hit(), "1.000", true, true);
    assert_eq!(lines[0], "12. [1.000] [notes] A  (/v/a.md)");
    assert_eq!(lines[2], format!("      {}", "x".repeat(280)));
    let image = Hit {
        heading_path: String::new(),
        width: Some(800),
        height: Some(600),
        ..hit()
    };
    assert_eq!(
        hit_lines(99, &image, "s", false, true),
        vec!["100. [s] A  (/v/a.md)", "      800x600"]
    );
    let empty = Hit { heading_path: String::new(), text: String::new(), ..hit() };
    assert_eq!(hit_lines(0, &empty, "s", false, true).len(), 1);
    let half = Hit { width: Some(1), text: "é".to_string(), ..empty };
    assert_eq!(hit_lines(0, &half, "s", false, true)[1], "      é");
}

#[test]
fn vaults_are_labelled_by_their_last_component() {
    assert_eq!(root_label("/home/me/notes"), "notes");
    assert_eq!(root_label("/home/me/notes/"), "notes");
    assert_eq!(root_label("/"), "/");
    assert!(!show_root(&workspace(false, &["."])));
    assert!(show_root(&workspace(false, &["a", "b"])));
    assert!(show_root(&workspace(true, &[])));
}

#[test]
fn runs_are_summed_up() {
    assert_eq!(
        index_summary(&report()),
        "Done: 10 scanned, 4 (re)indexed, 5 unchanged, 2 removed, 33 chunks."
    );
    assert_eq!(rebuild_summary(&report()), "Done: 4 indexed, 33 chunks.");
}

#[test]
fn errors_are_listed_under_their_number() {
    assert!(error_lines(&[]).is_empty());
    let errors = vec![IndexError { path: "/v/b.png".to_string(), message: "bad".to_string() }];
    assert_eq!(error_lines(&errors), vec!["1 file(s) failed to index:", "  /v/b.png — bad"]);
}

#[test]
fn empty_lists_do_not_filter() {
    let roots = strings(&["/a"]);
    let filter = query_filter(&roots, &[]);
    assert_eq!(filter.from, Some(roots.as_slice()));
    assert_eq!(filter.tags, None);
    assert_eq!(query_filter(&[], &roots).tags, Some(roots.as_slice()));
}

#[test]
fn a_missing_database_is_named() {
    assert_eq!(no_index("/c/x.db"), "no index found at /c/x.db — run `gnosis index`");
}

#[test]
fn local_roots_are_the_path_or_the_vaults() {
    let mut ws = workspace(false, &["/a", "/b"]);
    let (roots, save) =
        resolve_roots(&mut ws, Some("here".to_string()), Err("unused".to_string()), &[]).unwrap();
    assert_eq!((roots, save), (strings(&["here"]), false));
    let (roots, save) = resolve_roots(&mut ws, None, Err("unused".to_string()), &[]).unwrap();
    assert_eq!((roots, save), (strings(&["/a", "/b"]), false));
}

#[test]
fn a_global_path_is_registered_once() {
    let mut ws = workspace(true, &["~/a"]);
    let canons = vec![Some("/home/me/a".to_string())];
    let path = Some("b".to_string());
    let (roots, save) = resolve_roots(&mut ws, path.clone(), Ok("/b".to_string()), &canons).unwrap();
    assert_eq!((roots, save), (strings(&["/b"]), true));
    assert_eq!(ws.config.vaults, strings(&["~/a", "/b"]));
    let canons = vec![None, Some("/b".to_string())];
    let (roots, save) = resolve_roots(&mut ws, path.clone(), Ok("/b".to_string()), &canons).unwrap();
    assert_eq!((roots, save), (strings(&["/b"]), false));
    assert_eq!(ws.config.vaults.len(), 2);
    let failed = resolve_roots(&mut ws, path, Err("resolving b".to_string()), &canons);
    assert_eq!(failed.unwrap_err(), "resolving b");
}

#[test]
fn global_mode_needs_a_vault() {
    let mut ws = workspace(true, &[]);
    let r = resolve_roots(&mut ws, None, Err("unused".to_string()), &[]);
    assert_eq!(
        r.unwrap_err(),
        "no vaults registered; run `gnosis -g index <path>` or add them to /c/config.toml"
    );
    assert_eq!(
        rebuild_roots(&ws).unwrap_err(),
        "no vaults registered to rebuild; add them to /c/config.toml"
    );
    assert_eq!(rebuild_roots(&workspace(true, &["/a"])).unwrap(), strings(&["/a"]));
}

#[test]
fn forgetting_drops_every_vault_that_resolves_to_the_path() {
    let mut ws = workspace(true, &["a", "/x", "gone", "b"]);
    let canons = vec![
        Some("/x".to_string()),
        Some("/x".to_string()),
        None,
        Some("/y".to_string()),
    ];
    assert_eq!(forget_vault(&mut ws, &canons, "/x"), 2);
    assert_eq!(ws.config.vaults, strings(&["gone", "b"]));
    assert_eq!(
        forget_summary("/x", 3, 2),
        "Forgot /x: removed 3 document(s) and unregistered the vault."
    );
    assert_eq!(forget_summary("/x", 0, 0), "Forgot /x: removed 0 document(s).");
}

#[test]
fn init_writes_no_vaults_globally_and_overwrites_only_if_forced() {
    assert!(init_config(true).vaults.is_empty());
    assert_eq!(init_config(false).vaults, strings(&["."]));
    assert!(check_init("p", true, &InitArgs { force: true }).is_ok());
    assert!(check_init("p", false, &InitArgs { force: false }).is_ok());
    assert_eq!(
        check_init("p", true, &InitArgs { force: false }).unwrap_err(),
        "p already exists; pass --force to overwrite"
    );
}

#[test]
fn status_shows_the_vaults_where_there_are_several() {
    let stats = Stats { documents: 12, chunks_text: 34, chunks_image: 5, indexed_at: Some(-7) };
    let counts = vec![("/a".to_string(), 9), ("/b".to_string(), 1234567)];
    assert_eq!(
        status_lines(&workspace(true, &[]), &stats, "m", &counts),
        vec![
            "mode:       global",
            "config:     /c/config.toml",
            "database:   /c/global.db",
            "text model: m",
            "documents:  12",
            "chunks:     34 text, 5 image",
            "last index: -7 (unix)",
            "vaults:",
            "       9  /a",
            "  1234567  /b",
        ]
    );
    let lines = status_lines(&workspace(false, &[]), &Stats::default(), "m", &counts[..1]);
    assert_eq!(lines.len(), 7);
    assert_eq!(lines[0], "mode:       local");
    assert_eq!(lines[6], "last index: never");
}
