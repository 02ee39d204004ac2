use packtrans_glossary::builder::{
    run as builder_run, BuilderAction, BuilderArgs, Commands, CreateModListCommand, DownloadCommand,
    IndexCommand, Platform,
};
use packtrans_glossary::dict::{run as dict_run, DictAction, DictCommand, DictDeleteCommand, DictDownloadCommand};
use packtrans_glossary::dictionary::DictionaryNameError;
use packtrans_glossary::download::{download, DownloadError, DownloadPlan};
use packtrans_glossary::server::bind_address;

#[test]
fn index_command_builds_into_lang_under_out() {
    let args = BuilderArgs {
        command: Commands::Index(IndexCommand {
            scan_dir: "res".to_string(),
            lang: "zh_cn".to_string(),
            out: "indexes".to_string(),
        }),
    };
    match builder_run(args, Some("dicts".to_string())) {
        BuilderAction::BuildIndex(o) => {
            assert_eq!(o.scan_dir, "res");
            assert_eq!(o.lang, "zh_cn");
            assert_eq!(o.out, "indexes/zh_cn");
            assert_eq!(o.dict_path.as_deref(), Some("dicts"));
        }
        other => panic!("unexpected action {other:?}"),
    }
}

#[test]
fn other_builder_commands_pass_through() {
    let args = BuilderArgs {
        command: Commands::CreateModList(CreateModListCommand {
            platform: Platform::Modrinth,
            output: "mods.json".to_string(),
            count: 5,
        }),
    };
    assert!(matches!(builder_run(args, None), BuilderAction::CreateModList(c) if c.count == 5));
}

#[test]
fn dict_download_checks_the_name() {
    let all = dict_run(DictCommand::Download(DictDownloadCommand { name: None })).unwrap();
    match all {
        DictAction::Download(names) => {
            assert_eq!(names, vec!["lindera-ipadic", "lindera-ko-dic", "lindera-jieba"])
        }
        other => panic!("unexpected {other:?}"),
    }
    let one = dict_run(DictCommand::Download(DictDownloadCommand {
        name: Some("lindera-jieba".to_string()),
    }))
    .unwrap();
    assert!(matches!(one, DictAction::Download(n) if n == vec!["lindera-jieba".to_string()]));
    let err = dict_run(DictCommand::Download(DictDownloadCommand { name: Some("nope".to_string()) }))
        .unwrap_err();
    assert!(matches!(err, DictionaryNameError::UnknownDictionary(_)));
    assert_eq!(
        err.message(),
        "unknown dictionary 'nope'. Available: lindera-ipadic, lindera-ko-dic, lindera-jieba"
    );
}

#[test]
fn dict_delete_defaults_to_current_version() {
    let a = dict_run(DictCommand::Delete(DictDeleteCommand { name: "lindera-ipadic".to_string(), version: None }))
        .unwrap();
    assert!(matches!(a, DictAction::Delete { ref name, ref version } if name == "lindera-ipadic" && version == "6.2.0"));
    let b = dict_run(DictCommand::Delete(DictDeleteCommand {
        name: "lindera-ipadic".to_string(),
        version: Some("1.0.0".to_string()),
    }))
    .unwrap();
    assert!(matches!(b, DictAction::Delete { ref version, .. } if version == "1.0.0"));
    assert!(matches!(dict_run(DictCommand::Ls).unwrap(), DictAction::List));
    assert!(matches!(dict_run(DictCommand::Clean).unwrap(), DictAction::Clean));
}

#[test]
fn download_needs_a_list_file_for_mod_platforms() {
    let cmd = DownloadCommand {
        platform: Platform::Curseforge,
        output: "res".to_string(),
        temp_path: None,
        list_file: None,
    };
    let err = download(cmd, "/tmp").unwrap_err();
    assert!(matches!(err, DownloadError::MissingListFile(_)));
    assert_eq!(err.message(), "--list-file is required for curseforge downloads");
    let cmd = DownloadCommand {
        platform: Platform::Modrinth,
        output: "res".to_string(),
        temp_path: None,
        list_file: None,
    };
    assert_eq!(download(cmd, "/tmp").unwrap_err().message(), "--list-file is required for modrinth downloads");
}

#[test]
fn download_resolves_the_temporary_directory() {
    let cmd = DownloadCommand {
        platform: Platform::Minecraft,
        output: "res".to_string(),
        temp_path: None,
        list_file: None,
    };
    match download(cmd, "/tmp").unwrap() {
        DownloadPlan::Minecraft { output, temp_path } => {
            assert_eq!(output, "res");
            assert_eq!(temp_path, "/tmp/packtrans-glossary");
        }
        other => panic!("unexpected {other:?}"),
    }
    let cmd = DownloadCommand {
        platform: Platform::Modrinth,
        output: "res".to_string(),
        temp_path: Some("work".to_string()),
        list_file: Some("mods.json".to_string()),
    };
    match download(cmd, "/tmp").unwrap() {
        DownloadPlan::Modrinth { list_file, temp_path, .. } => {
            assert_eq!(list_file, "mods.json");
            assert_eq!(temp_path, "work");
        }
        other => panic!("unexpected {other:?}"),
    }
}

#[test]
fn servers_bind_host_and_port() {
    assert_eq!(bind_address("127.0.0.1", 8080), "127.0.0.1:8080");
    assert_eq!(bind_address("0.0.0.0", 0), "0.0.0.0:0");
}
