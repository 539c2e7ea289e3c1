//! Configuration.
use vstd::prelude::*;

use crate::embed::EmbedConfig;
use crate::paths::{is_absolute, join_path, join_paths};
use crate::text::{opt_text, texts};

verus! {

/// Default config file name, looked up relative to the current directory.
pub const CONFIG_FILE: &'static str = "gnosis.toml";

/// Top-level configuration.
#[derive(Debug, Clone)]
pub struct Config {
    /// Root directory of the knowledge base to index.
    pub vault: String,
    /// The vaults to index.
    pub vaults: Vec<String>,
    /// Directory (relative to `vault`) holding the database and ANN indexes.
    pub db_dir: String,
    pub embed: EmbedConfig,
    pub chunk: ChunkConfig,
    pub pdf: PdfConfig,
    pub ignore: IgnoreConfig,
    pub obsidian: ObsidianConfig,
}

/// How long chunks are, and by how many words they overlap.
#[derive(Debug, Clone)]
pub struct ChunkConfig {
    pub max_tokens: usize,
    pub overlap: usize,
}

/// Whether PDF files are indexed.
#[derive(Debug, Clone)]
pub struct PdfConfig {
    pub enabled: bool,
}

/// What is left out when a vault is walked.
#[derive(Debug, Clone)]
pub struct IgnoreConfig {
    pub globs: Vec<String>,
}

/// Support for Obsidian vaults.
#[derive(Debug, Clone)]
pub struct ObsidianConfig {
    /// Auto-detect Obsidian features (wikilinks, frontmatter) per file.
    pub auto: bool,
}

/// The globs that are ignored by default.
pub open spec fn default_globs() -> Seq<Seq<char>> {
    seq!["node_modules/**"@, ".git/**"@, ".gnosis/**"@]
}

/// Whether a config has the default values, but for its list of vaults.
pub open spec fn is_default(c: Config) -> bool {
    &&& c.vault@ == "."@
    &&& c.db_dir@ == ".gnosis"@
    &&& c.embed.text.model@ == "bge-small-en-v1.5"@
    &&& !c.embed.image.enabled
    &&& c.embed.image.model@ == "clip-vit-b-32"@
    &&& c.embed.image.batch_size == 32
    &&& c.chunk.max_tokens == 384
    &&& c.chunk.overlap == 64
    &&& c.pdf.enabled
    &&& texts(c.ignore.globs@) == default_globs()
    &&& c.obsidian.auto
}

impl Default for Config {
    fn default() -> (r: Config)
        ensures
            is_default(r),
            texts(r.vaults@) == seq!["."@],
    {
        let mut vaults: Vec<String> = Vec::new();
        vaults.push(".".to_string());
        assert(texts(vaults@) =~= seq!["."@]);
        Config {
            vault: ".".to_string(),
            vaults,
            db_dir: ".gnosis".to_string(),
            embed: EmbedConfig::default(),
            chunk: ChunkConfig::default(),
            pdf: PdfConfig::default(),
            ignore: IgnoreConfig::default(),
            obsidian: ObsidianConfig::default(),
        }
    }
}

impl Default for ChunkConfig {
    fn default() -> (r: ChunkConfig)
        ensures
            r.max_tokens == 384,
            r.overlap == 64,
    {
        ChunkConfig { max_tokens: 384, overlap: 64 }
    }
}

impl Default for PdfConfig {
    fn default() -> (r: PdfConfig)
        ensures
            r.enabled,
    {
        PdfConfig { enabled: true }
    }
}

impl Default for IgnoreConfig {
    fn default() -> (r: IgnoreConfig)
        ensures
            texts(r.globs@) == default_globs(),
    {
        let mut globs: Vec<String> = Vec::new();
        globs.push("node_modules/**".to_string());
        globs.push(".git/**".to_string());
        globs.push(".gnosis/**".to_string());
        assert(texts(globs@) =~= default_globs());
        IgnoreConfig { globs }
    }
}

impl Default for ObsidianConfig {
    fn default() -> (r: ObsidianConfig)
        ensures
            r.auto,
    {
        ObsidianConfig { auto: true }
    }
}

/// The file that a config is read from: an explicit one, or `gnosis.toml` where
/// that exists.
pub open spec fn source_of(explicit: Option<Seq<char>>, default_exists: bool) -> Option<Seq<char>> {
    match explicit {
        Some(p) => Some(p),
        None => if default_exists {
            Some(CONFIG_FILE@)
        } else {
            None
        },
    }
}

/// The database directory: relative to the vault, and that to the working
/// directory.
pub open spec fn db_dir_of(vault: Seq<char>, db_dir: Seq<char>, cwd: Seq<char>) -> Seq<char> {
    join_path(cwd, join_path(vault, db_dir))
}

impl Config {
    /// The file to load the config from: the explicit path, or `gnosis.toml` in
    /// the current directory where it exists. Without either the defaults hold.
    pub fn source(explicit: Option<String>, default_exists: bool) -> (r: Option<String>)
        ensures
            opt_text(r) == source_of(opt_text(explicit), default_exists),
    {
        match explicit {
            Some(p) => Some(p),
            None => {
                if default_exists {
                    Some(CONFIG_FILE.to_string())
                } else {
                    None
                }
            },
        }
    }

    /// Absolute path to the database and index directory, where `cwd` is the
    /// absolute path of the working directory.
    pub fn db_dir(&self, cwd: &str) -> (r: String)
        requires
            is_absolute(cwd@),
        ensures
            r@ == db_dir_of(self.vault@, self.db_dir@, cwd@),
            is_absolute(r@),
    {
        let dir = join_paths(self.vault.as_str(), self.db_dir.as_str());
        join_paths(cwd, dir.as_str())
    }

    /// Absolute path to the database file, where `cwd` is the absolute path of
    /// the working directory.
    pub fn db_path(&self, cwd: &str) -> (r: String)
        requires
            is_absolute(cwd@),
        ensures
            r@ == join_path(db_dir_of(self.vault@, self.db_dir@, cwd@), "gnosis.db"@),
            is_absolute(r@),
    {
        proof {
            reveal_strlit("gnosis.db");
        }
        join_paths(self.db_dir(cwd).as_str(), "gnosis.db")
    }
}

} // verus!
