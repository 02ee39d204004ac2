//! The index builder's commands, as plain values, and how a command becomes the work to do.

use vstd::prelude::*;
use crate::util::{join_path, joined};

verus! {

/// Where mods or language files come from.
#[derive(Debug, Clone, Copy, PartialEq, Eq, Structural)]
pub enum Platform {
    /// Modrinth mod platform.
    Modrinth,
    /// CurseForge mod platform (needs an API key).
    Curseforge,
    /// Minecraft's own language files.
    Minecraft,
}

/// `index`: build a search index from language files.
#[derive(Debug)]
pub struct IndexCommand {
    /// Directory to scan for language JSON files.
    pub scan_dir: String,
    /// Target language code (e.g. `zh_cn`).
    pub lang: String,
    /// Index root directory; the index is written to `{out}/{lang}`.
    pub out: String,
}

/// `create-mod-list`: fetch a list of popular mods.
#[derive(Debug)]
pub struct CreateModListCommand {
    /// Platform to fetch mods from.
    pub platform: Platform,
    /// Output path for the mod list JSON file.
    pub output: String,
    /// Maximum number of mods to include.
    pub count: usize,
}

/// `download`: fetch mod language files.
#[derive(Debug)]
pub struct DownloadCommand {
    /// Platform to download language files from.
    pub platform: Platform,
    /// Output directory for downloaded language files.
    pub output: String,
    /// Temporary directory for downloads.
    pub temp_path: Option<String>,
    /// Mod list JSON file (needed for Modrinth and CurseForge).
    pub list_file: Option<String>,
}

/// The builder's subcommands.
#[derive(Debug)]
pub enum Commands {
    Index(IndexCommand),
    CreateModList(CreateModListCommand),
    Download(DownloadCommand),
}

/// The builder's command line.
#[derive(Debug)]
pub struct Cli {
    pub command: Commands,
    /// Overrides where tokenizer dictionaries are stored.
    pub dict_path: Option<String>,
}

/// The builder's subcommand when it runs under the main tool.
#[derive(Debug)]
pub struct BuilderArgs {
    pub command: Commands,
}

/// Options for building a search index.
#[derive(Debug)]
pub struct IndexOptions {
    /// Directory containing mod folders with language files.
    pub scan_dir: String,
    /// Target language code.
    pub lang: String,
    /// Directory of the index to create.
    pub out: String,
    /// Where tokenizer dictionaries are looked up.
    pub dict_path: Option<String>,
}

/// The work a builder command asks for.
#[derive(Debug)]
pub enum BuilderAction {
    BuildIndex(IndexOptions),
    CreateModList(CreateModListCommand),
    Download(DownloadCommand),
}

/// `true` when `action` is the work that `command` asks for, with the dictionary location
/// given on the command line: `index` builds into `{out}/{lang}`, since `--out` is an index
/// root; the other commands go on as they are.
pub open spec fn is_action_for(command: Commands, dict_path: Option<String>, action: BuilderAction) -> bool {
    match command {
        Commands::Index(cmd) => match action {
            BuilderAction::BuildIndex(o) => {
                &&& o.scan_dir == cmd.scan_dir
                &&& o.lang == cmd.lang
                &&& o.out@ == joined(cmd.out@, cmd.lang@)
                &&& o.dict_path == dict_path
            },
            _ => false,
        },
        Commands::CreateModList(cmd) => action == BuilderAction::CreateModList(cmd),
        Commands::Download(cmd) => action == BuilderAction::Download(cmd),
    }
}

/// Turns a builder command into the work to do: `index` builds into `{out}/{lang}` with the
/// given dictionary location; the other commands go on as they are.
pub fn run(args: BuilderArgs, dict_path: Option<String>) -> (r: BuilderAction)
    ensures
        is_action_for(args.command, dict_path, r),
{
    match args.command {
        Commands::Index(cmd) => {
            let out = join_path(cmd.out.as_str(), cmd.lang.as_str());
            BuilderAction::BuildIndex(IndexOptions { scan_dir: cmd.scan_dir, lang: cmd.lang, out, dict_path })
        },
        Commands::CreateModList(cmd) => BuilderAction::CreateModList(cmd),
        Commands::Download(cmd) => BuilderAction::Download(cmd),
    }
}


/// `index` builds into `{out}/{lang}` (`--out` is an index root), keeping the scan directory,
/// the language and the dictionary location; the other commands are passed on unchanged.
pub proof fn lemma_index_output(cmd: IndexCommand, dict_path: Option<String>, action: BuilderAction)
    ensures
        is_action_for(Commands::Index(cmd), dict_path, action) ==> (action matches BuilderAction::BuildIndex(o)
            && o.out@ == joined(cmd.out@, cmd.lang@) && o.scan_dir == cmd.scan_dir && o.lang == cmd.lang
            && o.dict_path == dict_path),
{
}

} // verus!
