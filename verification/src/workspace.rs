//! Where the index lives.
use vstd::prelude::*;

use crate::config::{is_default, Config, CONFIG_FILE};
use crate::outside::home_dir;
use crate::paths::{expand_home, expanded, join_path, join_paths, parent, parent_of_path};
use crate::text::{opt_text, texts};

verus! {

/// Directory name for the global index under the user's home directory.
pub const GLOBAL_DIR: &'static str = ".gnosis";

/// Resolves where the index lives (config and database). Local mode ties the
/// database to the config's directory; global mode uses a single central
/// location under the home directory.
pub struct Workspace {
    pub config: Config,
    /// Where the active config is (or would be) written.
    pub config_path: String,
    /// Database backing this workspace.
    pub db_path: String,
    pub global: bool,
}

/// Where a local workspace's config is.
pub open spec fn local_config_path(explicit: Option<Seq<char>>) -> Seq<char> {
    match explicit {
        Some(p) => p,
        None => CONFIG_FILE@,
    }
}

/// Where a local workspace's database is: in the config's directory.
pub open spec fn local_db_path(config_path: Seq<char>, db_dir: Seq<char>) -> Seq<char> {
    match parent(config_path) {
        Some(dir) => if dir.len() > 0 {
            join_path(join_path(dir, db_dir), "gnosis.db"@)
        } else {
            join_path(db_dir, "gnosis.db"@)
        },
        None => join_path(db_dir, "gnosis.db"@),
    }
}

/// The global directory under a home directory.
pub open spec fn global_dir_of(home: Option<Seq<char>>) -> Result<Seq<char>, Seq<char>> {
    match home {
        Some(dir) => Ok(join_path(dir, GLOBAL_DIR@)),
        None => Err("could not determine home directory"@),
    }
}

/// Whether `to` is `path` with a leading `~` expanded to some home directory,
/// or left where none is known.
pub open spec fn is_expansion(path: Seq<char>, to: Seq<char>) -> bool {
    exists|home: Option<Seq<char>>| to == #[trigger] expanded(path, home)
}

/// The global directory under `home`.
pub fn global_dir_under(home: Option<String>) -> (r: Result<String, String>)
    ensures
        crate::fs::path_result(r) == global_dir_of(opt_text(home)),
{
    match home {
        Some(dir) => Ok(join_paths(dir.as_str(), GLOBAL_DIR)),
        None => Err("could not determine home directory".to_string()),
    }
}

/// Path to the global directory (`~/.gnosis`), which is absolute where the home
/// directory is.
pub fn global_dir() -> (r: Result<String, String>)
    ensures
        exists|home: Option<Seq<char>>|
            crate::fs::path_result(r) == #[trigger] global_dir_of(home),
{
    let home = home_dir();
    let ghost found = opt_text(home);
    let r = global_dir_under(home);
    assert(crate::fs::path_result(r) == global_dir_of(found));
    r
}

/// Expands a leading `~` to the user's home directory.
pub fn expand_tilde(path: &str) -> (r: String)
    ensures
        is_expansion(path@, r@),
{
    let home = home_dir();
    let ghost found = opt_text(home);
    let r = expand_home(path, home);
    assert(r@ == expanded(path@, found));
    r
}

impl Workspace {
    /// Builds a workspace from the `--global` flag and an optional `--config`
    /// path. `dir` is the global directory, which local mode does not need.
    /// `loaded` is what loading the config gave, `None` where there is no file.
    pub fn resolve(
        global: bool,
        explicit_config: Option<String>,
        dir: Result<String, String>,
        loaded: Result<Option<Config>, String>,
    ) -> (r: Result<Workspace, String>)
        ensures
            global && dir is Err ==> r is Err && r->Err_0@ == dir->Err_0@,
            !(global && dir is Err) && loaded is Err ==> r is Err && r->Err_0@ == loaded->Err_0@,
            r is Ok <==> !(global && dir is Err) && loaded is Ok,
            r is Ok ==> r->Ok_0.global == global,
            r is Ok && loaded->Ok_0 is Some ==> r->Ok_0.config == loaded->Ok_0->0,
            r is Ok && loaded->Ok_0 is None ==> is_default(r->Ok_0.config) && texts(
                r->Ok_0.config.vaults@,
            ) == (if global {
                seq![]
            } else {
                seq!["."@]
            }),
            r is Ok && global ==> {
                &&& r->Ok_0.config_path@ == join_path(dir->Ok_0@, "config.toml"@)
                &&& r->Ok_0.db_path@ == join_path(dir->Ok_0@, "global.db"@)
            },
            r is Ok && !global ==> {
                &&& r->Ok_0.config_path@ == local_config_path(opt_text(explicit_config))
                &&& r->Ok_0.db_path@ == local_db_path(
                    r->Ok_0.config_path@,
                    r->Ok_0.config.db_dir@,
                )
            },
    {
        if global {
            match dir {
                Ok(dir) => Workspace::resolve_global(dir.as_str(), loaded),
                Err(e) => Err(e),
            }
        } else {
            Workspace::resolve_local(explicit_config, loaded)
        }
    }

    fn resolve_local(
        explicit_config: Option<String>,
        loaded: Result<Option<Config>, String>,
    ) -> (r: Result<Workspace, String>)
        ensures
            loaded is Err ==> r is Err && r->Err_0@ == loaded->Err_0@,
            loaded is Ok ==> {
                &&& r is Ok
                &&& !r->Ok_0.global
                &&& loaded->Ok_0 is Some ==> r->Ok_0.config == loaded->Ok_0->0
                &&& loaded->Ok_0 is None ==> is_default(r->Ok_0.config) && texts(
                    r->Ok_0.config.vaults@,
                ) == seq!["."@]
                &&& r->Ok_0.config_path@ == local_config_path(opt_text(explicit_config))
                &&& r->Ok_0.db_path@ == local_db_path(
                    r->Ok_0.config_path@,
                    r->Ok_0.config.db_dir@,
                )
            },
    {
        let config_path = match explicit_config {
            Some(p) => p,
            None => CONFIG_FILE.to_string(),
        };
        let config = match loaded {
            Ok(Some(c)) => c,
            Ok(None) => Config::default(),
            Err(e) => {
                return Err(e);
            },
        };
        // The database lives relative to the config's directory, so `index` and
        // `search` from the same place share one database.
        let db_path = match parent_of_path(config_path.as_str()) {
            Some(dir) => {
                if dir.as_str().is_empty() {
                    join_paths(config.db_dir.as_str(), "gnosis.db")
                } else {
                    join_paths(
                        join_paths(dir.as_str(), config.db_dir.as_str()).as_str(),
                        "gnosis.db",
                    )
                }
            },
            None => join_paths(config.db_dir.as_str(), "gnosis.db"),
        };
        Ok(Workspace { config, config_path, db_path, global: false })
    }

    fn resolve_global(dir: &str, loaded: Result<Option<Config>, String>) -> (r: Result<
        Workspace,
        String,
    >)
        ensures
            loaded is Err ==> r is Err && r->Err_0@ == loaded->Err_0@,
            loaded is Ok ==> {
                &&& r is Ok
                &&& r->Ok_0.global
                &&& loaded->Ok_0 is Some ==> r->Ok_0.config == loaded->Ok_0->0
                &&& loaded->Ok_0 is None ==> is_default(r->Ok_0.config) && texts(
                    r->Ok_0.config.vaults@,
                ) == Seq::<Seq<char>>::empty()
                &&& r->Ok_0.config_path@ == join_path(dir@, "config.toml"@)
                &&& r->Ok_0.db_path@ == join_path(dir@, "global.db"@)
            },
    {
        let config = match loaded {
            Ok(Some(c)) => c,
            Ok(None) => {
                let mut c = Config::default();
                c.vaults = Vec::new();
                assert(texts(c.vaults@) =~= seq![]);
                c
            },
            Err(e) => {
                return Err(e);
            },
        };
        Ok(
            Workspace {
                config,
                config_path: join_paths(dir, "config.toml"),
                db_path: join_paths(dir, "global.db"),
                global: true,
            },
        )
    }

    /// The vault roots for this workspace, tilde-expanded (canonicalization is
    /// left to the indexer so missing roots can be reported rather than fail).
    pub fn roots(&self) -> (r: Vec<String>)
        ensures
            r.len() == self.config.vaults.len(),
            forall|i: int|
                0 <= i < r.len() ==> is_expansion(self.config.vaults@[i]@, (#[trigger] r@[i])@),
    {
        let mut roots: Vec<String> = Vec::new();
        let mut i: usize = 0;
        while i < self.config.vaults.len()
            invariant
                i <= self.config.vaults.len(),
                roots.len() == i,
                forall|k: int|
                    0 <= k < i ==> is_expansion(
                        self.config.vaults@[k]@,
                        (#[trigger] roots@[k])@,
                    ),
            decreases self.config.vaults.len() - i,
        {
            roots.push(expand_tilde(self.config.vaults[i].as_str()));
            i += 1;
        }
        roots
    }
}

/// A path whose first component is not `~` is left as it is, wherever the home
/// directory is.
pub proof fn only_a_tilde_is_expanded(path: Seq<char>, to: Seq<char>)
    requires
        crate::paths::after_tilde(path) is None,
        is_expansion(path, to),
    ensures
        to == path,
{
}

} // verus!
