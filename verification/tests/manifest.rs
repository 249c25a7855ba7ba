use emoji_pack::json::manifest_json;
use emoji_pack::manifest::build_manifest;
use emoji_pack::manifest::EmojiData;
use emoji_pack::manifest::EmojiRecord;
use emoji_pack::manifest::Manifest;
use emoji_pack::manifest::SourceFile;

fn png_bytes() -> Vec<u8> {
    vec![0x89, 0x50, 0x4E, 0x47, 0x0D, 0x0A, 0x1A, 0x0A, 0x00, 0x00, 0x00, 0x0D]
}

fn text_bytes() -> Vec<u8> {
    b"just some plain text, long enough to sniff".to_vec()
}

#[test]
fn build_manifest_keeps_one_record_per_image() {
    let files = vec![
        SourceFile {
            path: String::from("pack/icons/happy.PNG"),
            rel_path: String::from("icons/happy.PNG"),
            bytes: png_bytes(),
        },
        SourceFile {
            path: String::from("pack/icons/readme.txt"),
            rel_path: String::from("icons/readme.txt"),
            bytes: text_bytes(),
        },
    ];
    let m = build_manifest(&files, "Team");
    assert_eq!(m.emojis.len(), 1);
    let rec = &m.emojis[0];
    assert!(rec.downloaded);
    assert_eq!(rec.file_name, "pack/icons/happy.PNG");
    assert_eq!(rec.emoji.name, "happy");
    assert_eq!(rec.emoji.category, "Team - icons");
    assert!(rec.emoji.aliases.is_empty());
}

#[test]
fn build_manifest_skips_image_like_names_with_other_content() {
    let files = vec![SourceFile {
        path: String::from("pack/fake.png"),
        rel_path: String::from("fake.png"),
        bytes: text_bytes(),
    }];
    let m = build_manifest(&files, "Custom");
    assert_eq!(m.emojis.len(), 0);
}

#[test]
fn build_manifest_skips_content_too_short_to_sniff() {
    let files = vec![SourceFile {
        path: String::from("pack/tiny.png"),
        rel_path: String::from("tiny.png"),
        bytes: vec![0x89, 0x50, 0x4E],
    }];
    let m = build_manifest(&files, "Custom");
    assert_eq!(m.emojis.len(), 0);
}

#[test]
fn build_manifest_sets_the_fixed_fields() {
    let m = build_manifest(&Vec::new(), "Custom");
    assert_eq!(m.meta_version, 1);
    assert_eq!(m.host, "https://github.com/waterdev/owoifier");
    assert_eq!(m.exported_at, "");
    assert!(m.emojis.is_empty());
}

#[test]
fn build_manifest_keeps_traversal_order() {
    let files = vec![
        SourceFile {
            path: String::from("p/b.png"),
            rel_path: String::from("b.png"),
            bytes: png_bytes(),
        },
        SourceFile {
            path: String::from("p/a.png"),
            rel_path: String::from("a.png"),
            bytes: png_bytes(),
        },
    ];
    let m = build_manifest(&files, "Custom");
    assert_eq!(m.emojis.len(), 2);
    assert_eq!(m.emojis[0].file_name, "p/b.png");
    assert_eq!(m.emojis[1].file_name, "p/a.png");
}

#[test]
fn manifest_json_has_the_schema_field_names() {
    let files = vec![SourceFile {
        path: String::from("pack/icons/happy.PNG"),
        rel_path: String::from("icons/happy.PNG"),
        bytes: png_bytes(),
    }];
    let m = build_manifest(&files, "Team");
    let json = manifest_json(&m);
    let v: serde_json::Value = serde_json::from_str(&json).expect("valid JSON");
    assert_eq!(v["metaVersion"], serde_json::Value::from(1u32));
    assert_eq!(v["host"].as_str().unwrap(), "https://github.com/waterdev/owoifier");
    assert_eq!(v["exportedAt"].as_str().unwrap(), "");
    let emojis = v["emojis"].as_array().unwrap();
    assert_eq!(emojis.len(), 1);
    let rec = &emojis[0];
    assert_eq!(rec["downloaded"], serde_json::Value::Bool(true));
    assert_eq!(rec["fileName"].as_str().unwrap(), "pack/icons/happy.PNG");
    assert_eq!(rec["emoji"]["name"].as_str().unwrap(), "happy");
    assert_eq!(rec["emoji"]["category"].as_str().unwrap(), "Team - icons");
    assert!(rec["emoji"]["aliases"].as_array().unwrap().is_empty());
}

#[test]
fn manifest_json_escapes_special_characters() {
    let m = Manifest {
        meta_version: 1,
        host: String::from("h"),
        exported_at: String::from(""),
        emojis: vec![EmojiRecord {
            downloaded: false,
            file_name: String::from("we\"ird\\name\n\t.png"),
            emoji: EmojiData {
                name: String::from("n"),
                category: String::from("c"),
                aliases: vec![String::from("one"), String::from("two")],
            },
        }],
    };
    let json = manifest_json(&m);
    let v: serde_json::Value = serde_json::from_str(&json).expect("valid JSON");
    let rec = &v["emojis"][0];
    assert_eq!(rec["downloaded"], serde_json::Value::Bool(false));
    assert_eq!(rec["fileName"].as_str().unwrap(), "we\"ird\\name\n\t.png");
    let aliases = rec["emoji"]["aliases"].as_array().unwrap();
    assert_eq!(aliases.len(), 2);
    assert_eq!(aliases[0].as_str().unwrap(), "one");
    assert_eq!(aliases[1].as_str().unwrap(), "two");
    assert!(json.contains("\\u0009"), "tab should be written as a \\u escape");
    assert!(json.contains("\\u000a"), "newline should be written as a \\u escape");
}

#[test]
fn manifest_json_empty_manifest_is_byte_exact() {
    let m = Manifest {
        meta_version: 1,
        host: String::from("h"),
        exported_at: String::from(""),
        emojis: Vec::new(),
    };
    assert_eq!(manifest_json(&m), "{\"metaVersion\":1,\"host\":\"h\",\"exportedAt\":\"\",\"emojis\":[]}");
}

#[test]
fn manifest_json_one_record_is_byte_exact() {
    let m = Manifest {
        meta_version: 1,
        host: String::from("h"),
        exported_at: String::from(""),
        emojis: vec![EmojiRecord {
            downloaded: true,
            file_name: String::from("f.png"),
            emoji: EmojiData {
                name: String::from("f"),
                category: String::from("c - "),
                aliases: Vec::new(),
            },
        }],
    };
    let expected = "{\"metaVersion\":1,\"host\":\"h\",\"exportedAt\":\"\",\"emojis\":[{\"downloaded\":true,\"fileName\":\"f.png\",\"emoji\":{\"name\":\"f\",\"category\":\"c - \",\"aliases\":[]}}]}";
    assert_eq!(manifest_json(&m), expected);
}

#[test]
fn manifest_json_renders_larger_versions_in_decimal() {
    let m = Manifest {
        meta_version: 204,
        host: String::from("h"),
        exported_at: String::from(""),
        emojis: Vec::new(),
    };
    let json = manifest_json(&m);
    let v: serde_json::Value = serde_json::from_str(&json).expect("valid JSON");
    assert_eq!(v["metaVersion"], serde_json::Value::from(204u32));
}
