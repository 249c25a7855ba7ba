//! The pack builder: turns the files a walk discovered into the manifest.

use vstd::prelude::*;

use crate::classify::is_image;
use crate::classify::spec_is_image;
use crate::names::base_name;
use crate::names::derive_category;
use crate::names::derive_name;
use crate::names::spec_base_name;
use crate::names::spec_derive_category;
use crate::names::spec_derive_name;

verus! {

/// Descriptive data of one emoji. `aliases` is reserved for later use and is
/// always empty at creation.
pub struct EmojiData {
    pub name: String,
    pub category: String,
    pub aliases: Vec<String>,
}

/// One manifest record, created for each discovered file whose content
/// passed the image check.
pub struct EmojiRecord {
    pub downloaded: bool,
    pub file_name: String,
    pub emoji: EmojiData,
}

/// The pack manifest: fixed schema version, fixed host label, a timestamp
/// slot, and the emoji records in traversal order.
pub struct Manifest {
    pub meta_version: u32,
    pub host: String,
    pub exported_at: String,
    pub emojis: Vec<EmojiRecord>,
}

/// One file as the walk discovered it: the full path as reported, the path
/// relative to the scan root with `/` separators, and the file's content.
pub struct SourceFile {
    pub path: String,
    pub rel_path: String,
    pub bytes: Vec<u8>,
}

/// Mathematical view of one record.
#[verifier::ext_equal]
pub struct RecordView {
    pub downloaded: bool,
    pub file_name: Seq<char>,
    pub name: Seq<char>,
    pub category: Seq<char>,
    pub aliases: Seq<Seq<char>>,
}

pub open spec fn record_view(r: EmojiRecord) -> RecordView {
    RecordView {
        downloaded: r.downloaded,
        file_name: r.file_name@,
        name: r.emoji.name@,
        category: r.emoji.category@,
        aliases: r.emoji.aliases.deep_view(),
    }
}

pub open spec fn records_view(rs: Seq<EmojiRecord>) -> Seq<RecordView> {
    rs.map_values(|r: EmojiRecord| record_view(r))
}

/// The record owed to one qualifying file.
pub open spec fn spec_record_for(f: SourceFile, group: Seq<char>) -> RecordView {
    RecordView {
        downloaded: true,
        file_name: f.path@,
        name: spec_derive_name(spec_base_name(f.rel_path@)),
        category: spec_derive_category(group, f.rel_path@),
        aliases: Seq::empty(),
    }
}

/// The records owed to a walked file list: one per file whose content is an
/// image, in traversal order.
pub open spec fn spec_records(files: Seq<SourceFile>, group: Seq<char>) -> Seq<RecordView>
    decreases files.len(),
{
    if files.len() == 0 {
        Seq::empty()
    } else {
        spec_records(files.drop_last(), group) + (if spec_is_image(files.last().bytes@) {
            seq![spec_record_for(files.last(), group)]
        } else {
            Seq::empty()
        })
    }
}

/// The fixed host label written into every manifest.
pub open spec fn spec_host() -> Seq<char> {
    "https://github.com/waterdev/owoifier"@
}

/// Builds the manifest for one run. Every discovered file whose content
/// passes the image check yields exactly one record, in traversal order,
/// marked `downloaded` and carrying the derived identifier and category. The
/// schema-fixed fields are set: `metaVersion` 1 and the fixed host label.
/// `exportedAt` stays empty on purpose: the schema reserves the slot, no
/// reader of the pack relies on it, and leaving it empty keeps the output
/// independent of the clock.
pub fn build_manifest(files: &Vec<SourceFile>, group: &str) -> (m: Manifest)
    ensures
        m.meta_version == 1,
        m.host@ == spec_host(),
        m.exported_at@ == Seq::<char>::empty(),
        records_view(m.emojis@) == spec_records(files@, group@),
{
    let mut emojis: Vec<EmojiRecord> = Vec::new();
    let mut i: usize = 0;
    proof {
        assert(records_view(emojis@) =~= spec_records(files@.take(0), group@));
    }
    while i < files.len()
        invariant
            i <= files@.len(),
            records_view(emojis@) == spec_records(files@.take(i as int), group@),
        decreases files@.len() - i,
    {
        let ghost prev = emojis@;
        let f = &files[i];
        if is_image(&f.bytes) {
            let base = base_name(f.rel_path.as_str());
            let name = derive_name(base.as_str());
            let category = derive_category(group, f.rel_path.as_str());
            let rec = EmojiRecord {
                downloaded: true,
                file_name: f.path.clone(),
                emoji: EmojiData { name, category, aliases: Vec::new() },
            };
            emojis.push(rec);
            proof {
                assert(rec.emoji.aliases.deep_view() =~= Seq::<Seq<char>>::empty());
                assert(record_view(rec) =~= spec_record_for(files@[i as int], group@));
                assert(records_view(emojis@) =~= records_view(prev).push(record_view(rec)));
            }
        }
        proof {
            let t1 = files@.take(i + 1 as int);
            assert(t1.drop_last() =~= files@.take(i as int));
            assert(t1.last() == files@[i as int]);
            assert(records_view(emojis@) =~= spec_records(t1, group@));
        }
        i = i + 1;
    }
    proof {
        assert(files@.take(files@.len() as int) =~= files@);
    }
    Manifest {
        meta_version: 1,
        host: "https://github.com/waterdev/owoifier".to_owned(),
        exported_at: String::new(),
        emojis,
    }
}

/// How many records carry the given `fileName`.
pub open spec fn count_with_file_name(rs: Seq<RecordView>, path: Seq<char>) -> nat
    decreases rs.len(),
{
    if rs.len() == 0 {
        0
    } else {
        count_with_file_name(rs.drop_last(), path) + (if rs.last().file_name == path {
            1nat
        } else {
            0nat
        })
    }
}

proof fn lemma_count_append_one(rs: Seq<RecordView>, r: RecordView, path: Seq<char>)
    ensures
        count_with_file_name(rs + seq![r], path) == count_with_file_name(rs, path) + (
        if r.file_name == path {
            1nat
        } else {
            0nat
        }),
{
    let whole = rs + seq![r];
    assert(whole.len() == rs.len() + 1);
    assert(whole.drop_last() =~= rs);
    assert(whole.last() == r);
}

proof fn lemma_count_absent(files: Seq<SourceFile>, group: Seq<char>, path: Seq<char>)
    requires
        forall|j: int| 0 <= j < files.len() ==> files[j].path@ != path,
    ensures
        count_with_file_name(spec_records(files, group), path) == 0,
    decreases files.len(),
{
    if files.len() > 0 {
        lemma_count_absent(files.drop_last(), group, path);
        if spec_is_image(files.last().bytes@) {
            lemma_count_append_one(
                spec_records(files.drop_last(), group),
                spec_record_for(files.last(), group),
                path,
            );
            assert(files.last().path@ != path);
        } else {
            assert(spec_records(files, group) =~= spec_records(files.drop_last(), group));
        }
    }
}

/// Every discovered file with image content is described by exactly one
/// record, the one carrying that file's discovered path, provided the walk
/// reported distinct paths.
pub proof fn lemma_one_record_per_image(files: Seq<SourceFile>, group: Seq<char>, k: int)
    requires
        0 <= k < files.len(),
        spec_is_image(files[k].bytes@),
        forall|a: int, b: int| 0 <= a < b < files.len() ==> files[a].path@ != files[b].path@,
    ensures
        count_with_file_name(spec_records(files, group), files[k].path@) == 1,
    decreases files.len(),
{
    let path = files[k].path@;
    if k == files.len() - 1 {
        assert(forall|j: int| 0 <= j < files.drop_last().len() ==> files.drop_last()[j].path@
            != path);
        lemma_count_absent(files.drop_last(), group, path);
        lemma_count_append_one(
            spec_records(files.drop_last(), group),
            spec_record_for(files.last(), group),
            path,
        );
    } else {
        assert(files.drop_last()[k] == files[k]);
        lemma_one_record_per_image(files.drop_last(), group, k);
        if spec_is_image(files.last().bytes@) {
            lemma_count_append_one(
                spec_records(files.drop_last(), group),
                spec_record_for(files.last(), group),
                path,
            );
            assert(files.last().path@ != path);
        } else {
            assert(spec_records(files, group) =~= spec_records(files.drop_last(), group));
        }
    }
}

/// A discovered file whose content is not an image leaves no record at all,
/// provided the walk reported distinct paths.
pub proof fn lemma_no_record_for_non_image(files: Seq<SourceFile>, group: Seq<char>, k: int)
    requires
        0 <= k < files.len(),
        !spec_is_image(files[k].bytes@),
        forall|a: int, b: int| 0 <= a < b < files.len() ==> files[a].path@ != files[b].path@,
    ensures
        count_with_file_name(spec_records(files, group), files[k].path@) == 0,
    decreases files.len(),
{
    let path = files[k].path@;
    if k == files.len() - 1 {
        assert(forall|j: int| 0 <= j < files.drop_last().len() ==> files.drop_last()[j].path@
            != path);
        lemma_count_absent(files.drop_last(), group, path);
        assert(spec_records(files, group) =~= spec_records(files.drop_last(), group));
    } else {
        assert(files.drop_last()[k] == files[k]);
        lemma_no_record_for_non_image(files.drop_last(), group, k);
        if spec_is_image(files.last().bytes@) {
            lemma_count_append_one(
                spec_records(files.drop_last(), group),
                spec_record_for(files.last(), group),
                path,
            );
            assert(files.last().path@ != path);
        } else {
            assert(spec_records(files, group) =~= spec_records(files.drop_last(), group));
        }
    }
}

} // verus!
