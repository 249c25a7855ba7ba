use std::io::Cursor;
use std::io::Read;

use emoji_pack::archive::archive_walked;
use emoji_pack::archive::write_archive;
use emoji_pack::archive::ArchiveError;
use emoji_pack::archive::FsEntry;
use emoji_pack::json::manifest_json;
use emoji_pack::manifest::build_manifest;
use emoji_pack::pack::pack_entries;
use emoji_pack::manifest::SourceFile;

fn png_bytes() -> Vec<u8> {
    vec![0x89, 0x50, 0x4E, 0x47, 0x0D, 0x0A, 0x1A, 0x0A, 0x00, 0x00, 0x00, 0x0D]
}

fn file_entry(rel: &str, bytes: Vec<u8>) -> FsEntry {
    FsEntry { rel_path: String::from(rel), is_file: true, bytes }
}

fn dir_entry(rel: &str) -> FsEntry {
    FsEntry { rel_path: String::from(rel), is_file: false, bytes: Vec::new() }
}

fn walked_tree() -> Vec<FsEntry> {
    vec![
        dir_entry(""),
        dir_entry("a"),
        file_entry("a/x.bin", vec![1, 2, 3]),
        dir_entry("a/b"),
        file_entry("a/b/y.bin", vec![4, 5, 6, 7]),
        file_entry("top.bin", vec![8]),
    ]
}

#[test]
fn archive_has_one_entry_per_file_and_nonroot_directory() {
    let bytes = write_archive(&walked_tree()).expect("archive");
    let mut zip = zip::ZipArchive::new(Cursor::new(bytes)).expect("readable archive");
    let mut file_names: Vec<String> = Vec::new();
    let mut dir_names: Vec<String> = Vec::new();
    for i in 0..zip.len() {
        let entry = zip.by_index(i).expect("entry");
        if entry.is_dir() {
            dir_names.push(entry.name().to_string());
        } else {
            file_names.push(entry.name().to_string());
        }
    }
    file_names.sort();
    dir_names.sort();
    assert_eq!(file_names, vec!["a/b/y.bin", "a/x.bin", "top.bin"]);
    assert_eq!(dir_names, vec!["a/", "a/b/"]);
}

#[test]
fn archive_round_trips_every_file_byte_for_byte() {
    let tree = walked_tree();
    let bytes = write_archive(&tree).expect("archive");
    let mut zip = zip::ZipArchive::new(Cursor::new(bytes)).expect("readable archive");
    for entry in &tree {
        if !entry.is_file {
            continue;
        }
        let mut stored = zip.by_name(&entry.rel_path).expect("entry present");
        let mut extracted = Vec::new();
        stored.read_to_end(&mut extracted).expect("read entry");
        assert_eq!(extracted, entry.bytes, "bytes differ for {}", entry.rel_path);
    }
}

#[test]
fn archive_of_missing_source_fails_with_not_found() {
    let r = archive_walked(false, &Vec::new());
    assert!(matches!(r, Err(ArchiveError::NotFound)));
}

#[test]
fn archive_of_existing_source_succeeds() {
    let r = archive_walked(true, &walked_tree());
    assert!(r.is_ok());
}

#[test]
fn archive_with_no_entries_is_a_valid_empty_archive() {
    let bytes = write_archive(&Vec::new()).expect("archive");
    let zip = zip::ZipArchive::new(Cursor::new(bytes)).expect("readable archive");
    assert_eq!(zip.len(), 0);
}

#[test]
fn archive_bytes_are_deterministic() {
    let first = write_archive(&walked_tree()).expect("archive");
    let second = write_archive(&walked_tree()).expect("archive");
    assert_eq!(first, second);
}

#[test]
fn pack_scenario_team_icons() {
    let files = vec![
        SourceFile {
            path: String::from("pack/icons/happy.PNG"),
            rel_path: String::from("icons/happy.PNG"),
            bytes: png_bytes(),
        },
        SourceFile {
            path: String::from("pack/icons/readme.txt"),
            rel_path: String::from("icons/readme.txt"),
            bytes: b"hello there, not an image at all".to_vec(),
        },
    ];
    let manifest = build_manifest(&files, "Team");
    assert_eq!(manifest.emojis.len(), 1);
    assert_eq!(manifest.emojis[0].emoji.name, "happy");
    assert_eq!(manifest.emojis[0].emoji.category, "Team - icons");
    assert!(manifest.emojis[0].file_name.ends_with("icons/happy.PNG"));

    let json = manifest_json(&manifest);
    let entries = pack_entries(&files, &json.clone().into_bytes());
    let bytes = archive_walked(true, &entries).expect("archive");
    let mut zip = zip::ZipArchive::new(Cursor::new(bytes)).expect("readable archive");
    let mut names: Vec<String> = Vec::new();
    for i in 0..zip.len() {
        names.push(zip.by_index(i).expect("entry").name().to_string());
    }
    names.sort();
    assert_eq!(names, vec!["icons/", "icons/happy.PNG", "meta.json"]);

    let mut stored_png = Vec::new();
    zip.by_name("icons/happy.PNG").expect("png entry").read_to_end(&mut stored_png).expect("read");
    assert_eq!(stored_png, png_bytes());

    let mut stored_meta = Vec::new();
    zip.by_name("meta.json").expect("meta entry").read_to_end(&mut stored_meta).expect("read");
    assert_eq!(stored_meta, json.into_bytes());
}

#[test]
fn pack_entries_plans_ancestor_directories() {
    let files = vec![SourceFile {
        path: String::from("p/icons/v2/x.png"),
        rel_path: String::from("icons/v2/x.png"),
        bytes: png_bytes(),
    }];
    let entries = pack_entries(&files, &b"{}".to_vec());
    let dirs: Vec<&FsEntry> = entries.iter().filter(|e| !e.is_file).collect();
    assert_eq!(dirs.len(), 2);
    assert_eq!(dirs[0].rel_path, "icons");
    assert_eq!(dirs[1].rel_path, "icons/v2");

    let bytes = archive_walked(true, &entries).expect("archive");
    let mut zip = zip::ZipArchive::new(Cursor::new(bytes)).expect("readable archive");
    let mut names: Vec<String> = Vec::new();
    for i in 0..zip.len() {
        names.push(zip.by_index(i).expect("entry").name().to_string());
    }
    names.sort();
    assert_eq!(names, vec!["icons/", "icons/v2/", "icons/v2/x.png", "meta.json"]);
}

#[test]
fn pack_entries_dedups_shared_directories() {
    let files = vec![
        SourceFile {
            path: String::from("p/icons/a.png"),
            rel_path: String::from("icons/a.png"),
            bytes: png_bytes(),
        },
        SourceFile {
            path: String::from("p/icons/b.png"),
            rel_path: String::from("icons/b.png"),
            bytes: png_bytes(),
        },
    ];
    let entries = pack_entries(&files, &b"{}".to_vec());
    let dirs: Vec<&FsEntry> = entries.iter().filter(|e| !e.is_file).collect();
    assert_eq!(dirs.len(), 1);
    assert_eq!(dirs[0].rel_path, "icons");
}
