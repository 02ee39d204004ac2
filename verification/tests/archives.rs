use std::io::{Cursor, Write};

use packtrans_glossary::archive::{
    dictionary_files_from_zip, dictionary_prefix_from_files, extract_zip_to_map, find_lang_prefix,
    files_under_prefix, index_files_from_zip, ArchiveError,
};
use packtrans_glossary::download::{minecraft_en_us, MinecraftError};
use packtrans_glossary::memory_index::{
    memory_index_files, normalize_index_entry_path, should_skip_index_entry, MemoryIndexError,
};
use zip::write::SimpleFileOptions;

fn zip_of(entries: &[(&str, &[u8])], dirs: &[&str]) -> Vec<u8> {
    let mut writer = zip::ZipWriter::new(Cursor::new(Vec::new()));
    for d in dirs {
        writer.add_directory(*d, SimpleFileOptions::default()).unwrap();
    }
    for (name, data) in entries {
        writer.start_file(*name, SimpleFileOptions::default()).unwrap();
        writer.write_all(data).unwrap();
    }
    writer.finish().unwrap().into_inner()
}

fn files(list: &[(&str, &[u8])]) -> Vec<(String, Vec<u8>)> {
    list.iter().map(|(p, d)| (p.to_string(), d.to_vec())).collect()
}

#[test]
fn extracts_files_in_archive_order_and_skips_directories() {
    let bytes = zip_of(&[("fr_fr/meta.json", b"{}"), ("fr_fr/a.idx", b"abc")], &["fr_fr/"]);
    let out = extract_zip_to_map(&bytes).unwrap();
    assert_eq!(
        out,
        vec![
            ("fr_fr/meta.json".to_string(), b"{}".to_vec()),
            ("fr_fr/a.idx".to_string(), b"abc".to_vec()),
        ]
    );
}

#[test]
fn refuses_bytes_that_are_not_a_zip() {
    let err = extract_zip_to_map(b"not a zip").unwrap_err();
    assert!(matches!(err, ArchiveError::Parse(_)));
    assert_eq!(err.message(), "failed to parse zip archive");
}

#[test]
fn refuses_an_archive_without_files() {
    let bytes = zip_of(&[], &["only_dir/"]);
    let err = extract_zip_to_map(&bytes).unwrap_err();
    assert!(matches!(err, ArchiveError::Empty));
    assert_eq!(err.message(), "zip archive contained no files");
}

#[test]
fn finds_language_directory_at_the_root_or_nested() {
    let direct = files(&[("fr_fr/meta.json", b"{}")]);
    assert_eq!(find_lang_prefix(&direct, "fr_fr").unwrap(), "fr_fr/");
    let nested = files(&[("root/readme.txt", b"x"), ("root/fr_fr/meta.json", b"{}")]);
    assert_eq!(find_lang_prefix(&nested, "fr_fr").unwrap(), "root/fr_fr/");
    let err = find_lang_prefix(&nested, "de_de").unwrap_err();
    assert_eq!(err.message(), "zip archive did not contain expected de_de index directory");
}

#[test]
fn finds_dictionary_directory() {
    let list = files(&[("x/readme.txt", b"r"), ("lindera-ipadic-6.2.0/char_def.bin", b"c")]);
    assert_eq!(dictionary_prefix_from_files(&list).unwrap(), "lindera-ipadic-6.2.0/");
    let err = dictionary_prefix_from_files(&files(&[("a.bin", b"")])).unwrap_err();
    assert_eq!(err.message(), "dictionary zip did not contain char_def.bin");
}

#[test]
fn files_under_prefix_are_relative() {
    let list = files(&[("d/a", b"1"), ("d/", b""), ("e/b", b"2"), ("d/sub/c", b"3")]);
    assert_eq!(
        files_under_prefix(&list, "d/"),
        vec![("a".to_string(), b"1".to_vec()), ("sub/c".to_string(), b"3".to_vec())]
    );
}

#[test]
fn index_files_keep_every_file_under_the_language() {
    let bytes = zip_of(
        &[("fr_fr/.tantivy-meta.lock", b""), ("fr_fr/meta.json", b"{}"), ("other.txt", b"o")],
        &[],
    );
    let out = index_files_from_zip(&bytes, "fr_fr").unwrap();
    assert_eq!(
        out,
        vec![(".tantivy-meta.lock".to_string(), b"".to_vec()), ("meta.json".to_string(), b"{}".to_vec())]
    );
}

#[test]
fn dictionary_archive_files_are_relative_to_its_directory() {
    let bytes = zip_of(&[("lindera-jieba-6.2.0/char_def.bin", b"c"), ("lindera-jieba-6.2.0/dict.da", b"d")], &[]);
    let out = dictionary_files_from_zip(&bytes).unwrap();
    assert_eq!(
        out,
        vec![("char_def.bin".to_string(), b"c".to_vec()), ("dict.da".to_string(), b"d".to_vec())]
    );
}

#[test]
fn takes_english_file_out_of_client_jar() {
    let bytes = zip_of(&[("assets/minecraft/lang/en_us.json", b"{\"a\":\"b\"}")], &[]);
    assert_eq!(minecraft_en_us(&bytes).unwrap(), b"{\"a\":\"b\"}".to_vec());
    let other = zip_of(&[("assets/minecraft/lang/fr_fr.json", b"{}")], &[]);
    let err = minecraft_en_us(&other).unwrap_err();
    assert!(matches!(err, MinecraftError::MissingEnUs));
    assert!(matches!(minecraft_en_us(b"junk").unwrap_err(), MinecraftError::UnreadableJar(_)));
}

#[test]
fn skips_lock_files_when_loading_index_zip() {
    let bytes = zip_of(
        &[("fr_fr/.tantivy-meta.lock", b""), ("fr_fr/meta.json", b"{}"), ("fr_fr/seg.idx", b"i")],
        &["fr_fr/"],
    );
    let out = memory_index_files(&bytes, "fr_fr").unwrap();
    assert_eq!(
        out,
        vec![("meta.json".to_string(), b"{}".to_vec()), ("seg.idx".to_string(), b"i".to_vec())]
    );
}

#[test]
fn loads_index_zip_with_files_at_the_root() {
    let root = zip_of(&[("meta.json", b"{}")], &[]);
    assert_eq!(memory_index_files(&root, "fr_fr").unwrap(), vec![("meta.json".to_string(), b"{}".to_vec())]);
    let only_lock = zip_of(&[("fr_fr/x.lock", b"")], &[]);
    let err = memory_index_files(&only_lock, "fr_fr").unwrap_err();
    assert!(matches!(err, MemoryIndexError::NoFiles));
    assert_eq!(err.message(), "index zip archive did not contain any readable files");
    assert!(matches!(memory_index_files(b"junk", "fr_fr").unwrap_err(), MemoryIndexError::Parse(_)));
}

#[test]
fn entry_paths_are_placed_in_the_index() {
    assert_eq!(normalize_index_entry_path("fr_fr/meta.json", "fr_fr").unwrap().as_deref(), Some("meta.json"));
    assert_eq!(normalize_index_entry_path("fr_fr/./a//b", "fr_fr").unwrap().as_deref(), Some("a/b"));
    assert_eq!(normalize_index_entry_path("other/meta.json", "fr_fr").unwrap().as_deref(), Some("other/meta.json"));
    assert_eq!(normalize_index_entry_path("fr_fr", "fr_fr").unwrap(), None);
    assert_eq!(normalize_index_entry_path("fr_fr/.", "fr_fr").unwrap(), None);
    assert_eq!(normalize_index_entry_path("", "fr_fr").unwrap(), None);
    let err = normalize_index_entry_path("../x", "fr_fr").unwrap_err();
    assert_eq!(err.message(), "index zip entry contains invalid path: ../x");
    assert!(normalize_index_entry_path("/abs", "fr_fr").is_err());
    assert!(normalize_index_entry_path("./x", "fr_fr").is_err());
}

#[test]
fn lock_files_are_recognised_by_file_name() {
    assert!(should_skip_index_entry(".tantivy-meta.lock"));
    assert!(should_skip_index_entry("a/b.lock/."));
    assert!(!should_skip_index_entry("a.lock/.."));
    assert!(!should_skip_index_entry("meta.json"));
    assert!(!should_skip_index_entry(""));
}

#[test]
fn root_and_language_directory_archives_load_the_same_files() {
    let root = zip_of(&[("meta.json", b"{}"), ("seg/a.idx", b"A"), ("x.lock", b"")], &[]);
    let nested = zip_of(&[("fr_fr/meta.json", b"{}"), ("fr_fr/seg/a.idx", b"A"), ("fr_fr/x.lock", b"")], &["fr_fr/"]);
    let a = memory_index_files(&root, "fr_fr").unwrap();
    let b = memory_index_files(&nested, "fr_fr").unwrap();
    assert_eq!(a, b);
    assert_eq!(a, files(&[("meta.json", b"{}"), ("seg/a.idx", b"A")]));
}
