//! The `dict` command: which dictionaries to fetch, list, delete or clean.

use vstd::prelude::*;
use crate::dictionary::{current_version, dictionaries_to_download, DictionaryNameError};
use crate::text::{owned, views};
use crate::tokenizer::{is_dictionary, IPADIC, JIEBA, KO_DIC};

verus! {

/// `dict download [NAME]`.
#[derive(Debug)]
pub struct DictDownloadCommand {
    /// The dictionary to fetch; all of them when absent.
    pub name: Option<String>,
}

/// `dict delete NAME [--version V]`.
#[derive(Debug)]
pub struct DictDeleteCommand {
    pub name: String,
    /// The version to delete; the current `lindera` version when absent.
    pub version: Option<String>,
}

/// The `dict` subcommands.
#[derive(Debug)]
pub enum DictCommand {
    Download(DictDownloadCommand),
    Ls,
    Delete(DictDeleteCommand),
    Clean,
}

/// The work a `dict` command asks for.
#[derive(Debug)]
pub enum DictAction {
    /// Make sure each named dictionary is installed.
    Download(Vec<String>),
    /// List what is installed.
    List,
    /// Delete one installed dictionary version.
    Delete { name: String, version: String },
    /// Remove the versions other than the current one.
    Clean,
}

/// Turns a `dict` command into the work to do. `download` with a name refuses a name that is
/// not a known dictionary; without one it fetches every dictionary. `delete` without a
/// version deletes the current `lindera` version.
pub fn run(command: DictCommand) -> (r: Result<DictAction, DictionaryNameError>)
    ensures
        match command {
            DictCommand::Download(cmd) => match cmd.name {
                Some(n) => if is_dictionary(n@) {
                    r matches Ok(DictAction::Download(v)) && views(v@) == seq![n@]
                } else {
                    r matches Err(DictionaryNameError::UnknownDictionary(m)) && m@ == n@
                },
                None => r matches Ok(DictAction::Download(v)) && views(v@) == seq![IPADIC@, KO_DIC@, JIEBA@],
            },
            DictCommand::Ls => r matches Ok(DictAction::List),
            DictCommand::Delete(cmd) => r matches Ok(DictAction::Delete { name, version }) && name@ == cmd.name@
                && version@ == match cmd.version {
                    Some(v) => v@,
                    None => "6.2.0"@,
                },
            DictCommand::Clean => r matches Ok(DictAction::Clean),
        },
{
    match command {
        DictCommand::Download(cmd) => {
            let names = match &cmd.name {
                Some(n) => dictionaries_to_download(Some(n.as_str())),
                None => dictionaries_to_download(None),
            };
            match names {
                Ok(v) => Ok(DictAction::Download(v)),
                Err(e) => Err(e),
            }
        },
        DictCommand::Ls => Ok(DictAction::List),
        DictCommand::Delete(cmd) => {
            let version = match cmd.version {
                Some(v) => v,
                None => owned(current_version()),
            };
            Ok(DictAction::Delete { name: cmd.name, version })
        },
        DictCommand::Clean => Ok(DictAction::Clean),
    }
}

} // verus!
