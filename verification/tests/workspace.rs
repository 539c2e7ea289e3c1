use std::path::Path;

use gnosis::config::Config;
use gnosis::models::{
    resolve_clip_text_model, resolve_image_model, resolve_text_model, ImageModel, TextModel,
};
use gnosis::paths::{
    expand_home, extension_of_path, join_paths, name_of_path, parent_of_path, stem_of_path,
};
use gnosis::text::Class;
use gnosis::walk::{found_file, ignore_override, DocKind};
use gnosis::workspace::{expand_tilde, global_dir, global_dir_under, Workspace};

fn strings(v: &[&str]) -> Vec<String> {
    v.iter().map(|s| s.to_string()).collect()
}

const PATHS: [&str; 34] = [
    "", "/", ".", "..", "a", "a/", "a/b", "a//b", "/a", "/a/", "a/.", "a/..", "./a", "a/./b",
    "a.md", "a.b.md", ".hidden", ".hidden.md", "a.", "a/.md", "/x/y/z.tar.gz", "//a", "a///", "~",
    "~/x", "~x", "~/./x/", "é/ü.MD", "/a/./", "/./", "./", "a/b/.", "..b", "...",
];

#[test]
fn path_parts_agree_with_the_standard_library() {
    for p in PATHS {
        let path = Path::new(p);
        let name = path.file_name().map(|s| s.to_str().unwrap().to_string());
        let stem = path.file_stem().map(|s| s.to_str().unwrap().to_string());
        let extension = path.extension().map(|s| s.to_str().unwrap().to_string());
        assert_eq!(name_of_path(p), name, "name of {p:?}");
        assert_eq!(stem_of_path(p), stem, "stem of {p:?}");
        assert_eq!(extension_of_path(p), extension, "extension of {p:?}");
        let parent = path.parent().map(|d| d.to_str().unwrap().to_string());
        assert_eq!(parent_of_path(p), parent, "parent of {p:?}");
        for q in PATHS {
            assert_eq!(join_paths(p, q), path.join(q).to_str().unwrap(), "{p:?} joined with {q:?}");
        }
    }
}

#[test]
fn a_tilde_expands_as_stripping_the_prefix_does() {
    for p in PATHS {
        let want = match Path::new(p).strip_prefix("~") {
            Ok(rest) => Path::new("/home/me").join(rest).to_str().unwrap().to_string(),
            Err(_) => p.to_string(),
        };
        assert_eq!(expand_home(p, Some("/home/me".to_string())), want, "{p:?}");
        assert_eq!(expand_home(p, None), p);
    }
}

#[test]
fn white_space_is_what_the_standard_library_says() {
    for c in '\0'..=char::MAX {
        assert_eq!(Class::Space.holds(c), c.is_whitespace(), "{c:?}");
    }
}

#[test]
fn home_directories_come_from_the_system() {
    match dirs::home_dir() {
        Some(home) => {
            let home = home.to_string_lossy().into_owned();
            assert_eq!(global_dir().unwrap(), join_paths(&home, ".gnosis"));
            assert_eq!(expand_tilde("~/x"), join_paths(&home, "x"));
        }
        None => assert!(global_dir().is_err()),
    }
    assert_eq!(expand_tilde("/a"), "/a");
    assert_eq!(global_dir_under(Some("/h".to_string())).unwrap(), "/h/.gnosis");
    assert_eq!(global_dir_under(None).unwrap_err(), "could not determine home directory");
}

#[test]
fn config_paths_join() {
    let mut config = Config::default();
    let cwd = "/home/me";
    assert!(Path::new(&config.db_dir(cwd)).is_absolute());
    assert_eq!(Path::new(&config.db_dir(cwd)), Path::new("/home/me/.gnosis"));
    assert_eq!(Path::new(&config.db_path(cwd)), Path::new("/home/me/.gnosis/gnosis.db"));
    config.vault = "notes".to_string();
    assert_eq!(config.db_dir(cwd), "/home/me/notes/.gnosis");
    config.vault = "/v".to_string();
    assert_eq!(config.db_dir(cwd), "/v/.gnosis");
    assert_eq!(config.db_path(cwd), "/v/.gnosis/gnosis.db");
    config.db_dir = "/elsewhere".to_string();
    assert_eq!(config.db_path(cwd), "/elsewhere/gnosis.db");
    assert_eq!(config.ignore.globs, strings(&["node_modules/**", ".git/**", ".gnosis/**"]));
    assert_eq!((config.chunk.max_tokens, config.chunk.overlap), (384, 64));
    assert!(config.pdf.enabled && config.obsidian.auto);
}

#[test]
fn config_source_prefers_the_explicit_path() {
    assert_eq!(Config::source(Some("x".to_string()), true).as_deref(), Some("x"));
    assert_eq!(Config::source(None, true).as_deref(), Some("gnosis.toml"));
    assert_eq!(Config::source(None, false), None);
}

#[test]
fn local_workspaces_keep_the_database_beside_the_config() {
    let no_dir = || Err("unused".to_string());
    let ws = Workspace::resolve(false, None, no_dir(), Ok(None)).unwrap();
    assert_eq!(ws.config_path, "gnosis.toml");
    assert_eq!(ws.db_path, ".gnosis/gnosis.db");
    assert!(!ws.global);
    assert_eq!(ws.config.vaults, strings(&["."]));
    let mut config = Config::default();
    config.db_dir = "db".to_string();
    let ws =
        Workspace::resolve(false, Some("/v/my.toml".to_string()), no_dir(), Ok(Some(config))).unwrap();
    assert_eq!(ws.config_path, "/v/my.toml");
    assert_eq!(ws.db_path, "/v/db/gnosis.db");
    let bad = Workspace::resolve(false, None, no_dir(), Err("parsing config".to_string()));
    assert_eq!(bad.err().unwrap(), "parsing config");
}

#[test]
fn global_workspaces_live_in_the_global_directory() {
    let ws = Workspace::resolve(true, None, Ok("/h/.gnosis".to_string()), Ok(None)).unwrap();
    assert_eq!(ws.config_path, "/h/.gnosis/config.toml");
    assert_eq!(ws.db_path, "/h/.gnosis/global.db");
    assert!(ws.global && ws.config.vaults.is_empty());
    let bad = Workspace::resolve(true, None, Err("no home".to_string()), Err("load".to_string()));
    assert_eq!(bad.err().unwrap(), "no home");
}

#[test]
fn roots_are_expanded_vaults() {
    let mut ws = Workspace::resolve(true, None, Ok("/h".to_string()), Ok(None)).unwrap();
    ws.config.vaults = strings(&["/a", "~/b"]);
    assert_eq!(ws.roots(), vec!["/a".to_string(), expand_tilde("~/b")]);
}

#[test]
fn files_are_classified_by_extension() {
    assert_eq!(DocKind::from_path("/v/a.md"), Some(DocKind::Markdown));
    assert_eq!(DocKind::from_path("A.MD"), Some(DocKind::Markdown));
    assert_eq!(DocKind::from_path("photo.Png"), Some(DocKind::Image));
    assert_eq!(DocKind::from_path("a.txt"), None);
    assert_eq!(DocKind::from_path(".md"), None);
    assert_eq!(DocKind::from_path("md"), None);
    assert_eq!(DocKind::Markdown.as_str(), "markdown");
    assert_eq!(DocKind::Image.as_str(), "image");
}

#[test]
fn walks_keep_files_of_known_kinds() {
    assert_eq!(found_file("/v/a.md", true).map(|f| f.path).as_deref(), Some("/v/a.md"));
    assert!(found_file("/v/a.md", false).is_none());
    assert!(found_file("/v/a.txt", true).is_none());
    assert_eq!(ignore_override(".git/**"), "!.git/**");
}

#[test]
fn models_resolve_by_name() {
    assert_eq!(resolve_text_model("bge-small-en-v1.5"), Ok((TextModel::BgeSmallEnV15, 384)));
    assert_eq!(resolve_text_model("bge-base-en-v1.5"), Ok((TextModel::BgeBaseEnV15, 768)));
    assert_eq!(resolve_text_model("all-MiniLM-L6-v2"), Ok((TextModel::AllMiniLmL6V2, 384)));
    assert_eq!(resolve_text_model("nomic-embed-text-v1.5"), Ok((TextModel::NomicEmbedTextV15, 768)));
    assert_eq!(
        resolve_text_model("x").unwrap_err(),
        "unknown text model 'x' (try: bge-small-en-v1.5, bge-base-en-v1.5, all-MiniLM-L6-v2, nomic-embed-text-v1.5)"
    );
    assert_eq!(resolve_image_model("clip-vit-b-32"), Ok((ImageModel::ClipVitB32, 512)));
    assert_eq!(resolve_clip_text_model("clip-vit-b-32"), Ok((ImageModel::ClipVitB32, 512)));
    assert_eq!(
        resolve_clip_text_model("x").unwrap_err(),
        "unknown image model 'x' (try: clip-vit-b-32)"
    );
}
