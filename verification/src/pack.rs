//! Selection of the archive's entries for one run: the manifest under its
//! fixed name, one directory entry per distinct directory on the path from
//! the scan root down to a qualifying image, then the qualifying images
//! themselves with their bytes. Files that did not qualify as emoji are not
//! packed.

use vstd::prelude::*;
use vstd::slice::slice_to_vec;

use crate::archive::entries_fit;
use crate::archive::entry_fits;
use crate::archive::FsEntry;
use crate::archive::spec_plan;
use crate::archive::spec_plan_one;
use crate::archive::MAX_ENTRY_BYTES;
use crate::classify::is_image;
use crate::classify::spec_is_image;
use crate::manifest::SourceFile;
use crate::manifest::spec_record_for;
use crate::manifest::spec_records;
use crate::text::chars_to_string;
use crate::text::str_to_chars;

verus! {

/// The ancestor directories of a `/`-separated relative path, shortest
/// first: one entry per separator, holding everything before it. A file at
/// `a/b/x.png` has the chain `a`, `a/b`.
pub open spec fn dir_chain(rel: Seq<char>) -> Seq<Seq<char>>
    decreases rel.len(),
{
    if rel.len() == 0 {
        Seq::empty()
    } else if rel.last() == '/' && rel.drop_last().len() > 0 {
        dir_chain(rel.drop_last()).push(rel.drop_last())
    } else {
        dir_chain(rel.drop_last())
    }
}

/// `acc` extended with the chain's directories that it does not hold yet, in
/// chain order.
pub open spec fn add_new_dirs(acc: Seq<Seq<char>>, chain: Seq<Seq<char>>) -> Seq<Seq<char>>
    decreases chain.len(),
{
    if chain.len() == 0 {
        acc
    } else {
        let prev = add_new_dirs(acc, chain.drop_last());
        if prev.contains(chain.last()) {
            prev
        } else {
            prev.push(chain.last())
        }
    }
}

/// The files whose content qualifies as an image, in traversal order.
pub open spec fn spec_image_files(files: Seq<SourceFile>) -> Seq<SourceFile>
    decreases files.len(),
{
    if files.len() == 0 {
        Seq::empty()
    } else {
        let prev = spec_image_files(files.drop_last());
        if spec_is_image(files.last().bytes@) {
            prev.push(files.last())
        } else {
            prev
        }
    }
}

/// The distinct ancestor directories of the qualifying images, in
/// first-occurrence order; the scan root itself has no entry.
pub open spec fn spec_pack_dirs(files: Seq<SourceFile>) -> Seq<Seq<char>>
    decreases files.len(),
{
    if files.len() == 0 {
        Seq::empty()
    } else {
        let prev = spec_pack_dirs(files.drop_last());
        if spec_is_image(files.last().bytes@) {
            add_new_dirs(prev, dir_chain(files.last().rel_path@))
        } else {
            prev
        }
    }
}

/// The archive entries owed to one run.
pub open spec fn spec_pack(files: Seq<SourceFile>, meta: Seq<u8>) -> Seq<
    (Seq<char>, Option<Seq<u8>>),
> {
    seq![("meta.json"@, Some(meta))] + spec_pack_dirs(files).map_values(
        |d: Seq<char>| (d, None::<Seq<u8>>),
    ) + spec_image_files(files).map_values(|f: SourceFile| (f.rel_path@, Some(f.bytes@)))
}

/// The manifest and the pack agree file for file: the records owed to a
/// walked file list describe, in the same order, exactly the image files the
/// pack selects for archiving.
pub proof fn lemma_pack_matches_manifest(files: Seq<SourceFile>, group: Seq<char>)
    ensures
        spec_records(files, group).len() == spec_image_files(files).len(),
        forall|i: int|
            0 <= i < spec_records(files, group).len() ==> spec_records(files, group)[i]
                == spec_record_for(spec_image_files(files)[i], group),
    decreases files.len(),
{
    if files.len() > 0 {
        lemma_pack_matches_manifest(files.drop_last(), group);
        let prev = spec_records(files.drop_last(), group);
        if spec_is_image(files.last().bytes@) {
            assert(spec_records(files, group) =~= prev.push(
                spec_record_for(files.last(), group),
            ));
        } else {
            assert(spec_records(files, group) =~= prev);
        }
    }
}

pub open spec fn strs_view(v: Seq<String>) -> Seq<Seq<char>> {
    v.map_values(|s: String| s@)
}

fn contains_str(v: &Vec<String>, s: &String) -> (b: bool)
    ensures
        b == strs_view(v@).contains(s@),
{
    let mut j: usize = 0;
    while j < v.len()
        invariant
            j <= v@.len(),
            forall|k: int| 0 <= k < j ==> v@[k]@ != s@,
        decreases v@.len() - j,
    {
        if v[j].eq(s) {
            proof {
                assert(strs_view(v@)[j as int] == s@);
            }
            return true;
        }
        j = j + 1;
    }
    proof {
        assert forall|k: int| 0 <= k < strs_view(v@).len() implies strs_view(v@)[k] != s@ by {
            assert(strs_view(v@)[k] == v@[k]@);
        }
    }
    false
}

/// Extends `dirs` with the not-yet-held ancestor directories of `rel`, in
/// chain order.
fn push_new_dirs(dirs: &mut Vec<String>, rel_path: &String)
    ensures
        strs_view(final(dirs)@) == add_new_dirs(strs_view(old(dirs)@), dir_chain(rel_path@)),
        forall|k: int|
            0 <= k < final(dirs)@.len() ==> (#[trigger] final(dirs)@[k]@.len() > 0 || (k
                < old(dirs)@.len() && final(dirs)@[k] == old(dirs)@[k])),
{
    let ghost base = strs_view(dirs@);
    let rel = str_to_chars(rel_path.as_str());
    let mut j: usize = 0;
    proof {
        assert(strs_view(dirs@) =~= add_new_dirs(base, dir_chain(rel_path@.take(0))));
    }
    while j < rel.len()
        invariant
            j <= rel@.len(),
            rel@ == rel_path@,
            strs_view(dirs@) == add_new_dirs(base, dir_chain(rel_path@.take(j as int))),
            dirs@.len() >= old(dirs)@.len(),
            forall|k: int| 0 <= k < old(dirs)@.len() ==> dirs@[k] == old(dirs)@[k],
            forall|k: int| old(dirs)@.len() <= k < dirs@.len() ==> #[trigger] dirs@[k]@.len() > 0,
        decreases rel@.len() - j,
    {
        proof {
            let t1 = rel_path@.take(j + 1 as int);
            assert(t1.drop_last() =~= rel_path@.take(j as int));
            assert(t1.last() == rel_path@[j as int]);
        }
        if rel[j] == '/' && j > 0 {
            let mut pref: Vec<char> = Vec::new();
            let mut k: usize = 0;
            while k < j
                invariant
                    k <= j,
                    j <= rel@.len(),
                    rel@ == rel_path@,
                    pref@ == rel_path@.take(k as int),
                decreases j - k,
            {
                let c = rel[k];
                pref.push(c);
                proof {
                    assert(pref@ =~= rel_path@.take(k + 1 as int));
                }
                k = k + 1;
            }
            let cand = chars_to_string(pref);
            let ghost before = strs_view(dirs@);
            let ghost chain = dir_chain(rel_path@.take(j as int));
            proof {
                assert(chain.push(cand@).drop_last() =~= chain);
                assert(dir_chain(rel_path@.take(j + 1 as int)) == chain.push(
                    rel_path@.take(j as int),
                ));
            }
            if !contains_str(&dirs, &cand) {
                dirs.push(cand);
                proof {
                    assert(strs_view(dirs@) =~= before.push(cand@));
                }
            }
            proof {
                assert(strs_view(dirs@) =~= add_new_dirs(
                    base,
                    dir_chain(rel_path@.take(j + 1 as int)),
                ));
            }
        } else {
            proof {
                assert(dir_chain(rel_path@.take(j + 1 as int)) == dir_chain(
                    rel_path@.take(j as int),
                ));
            }
        }
        j = j + 1;
    }
    proof {
        assert(rel_path@.take(rel_path@.len() as int) =~= rel_path@);
    }
}

/// Chooses the archive entries for one run: `meta.json` holding the manifest
/// bytes, one directory entry per distinct ancestor directory of a
/// qualifying image, and one file entry per qualifying image holding exactly
/// its bytes, in traversal order. Nothing else is packed, and the chosen
/// entries fit the archiver's per-entry bound whenever the inputs do.
pub fn pack_entries(files: &Vec<SourceFile>, meta: &Vec<u8>) -> (out: Vec<FsEntry>)
    ensures
        spec_plan(out@) == spec_pack(files@, meta@),
        meta@.len() <= MAX_ENTRY_BYTES && (forall|i: int|
            0 <= i < files@.len() ==> (#[trigger] files@[i].bytes@).len() <= MAX_ENTRY_BYTES)
            ==> entries_fit(out@),
{
    let ghost inputs_fit = meta@.len() <= MAX_ENTRY_BYTES && (forall|i: int|
        0 <= i < files@.len() ==> (#[trigger] files@[i].bytes@).len() <= MAX_ENTRY_BYTES);
    let mut dirs: Vec<String> = Vec::new();
    let mut i: usize = 0;
    proof {
        assert(strs_view(dirs@) =~= spec_pack_dirs(files@.take(0)));
    }
    while i < files.len()
        invariant
            i <= files@.len(),
            strs_view(dirs@) == spec_pack_dirs(files@.take(i as int)),
            forall|k: int| 0 <= k < dirs@.len() ==> #[trigger] dirs@[k]@.len() > 0,
        decreases files@.len() - i,
    {
        let ghost prev = strs_view(dirs@);
        let f = &files[i];
        if is_image(&f.bytes) {
            push_new_dirs(&mut dirs, &f.rel_path);
        }
        proof {
            let t1 = files@.take(i + 1 as int);
            assert(t1.drop_last() =~= files@.take(i as int));
            assert(t1.last() == files@[i as int]);
            assert(strs_view(dirs@) =~= spec_pack_dirs(t1));
        }
        i = i + 1;
    }
    proof {
        assert(files@.take(files@.len() as int) =~= files@);
    }
    let ghost meta_item = ("meta.json"@, Some(meta@));
    let mut out: Vec<FsEntry> = Vec::new();
    let meta_entry = FsEntry {
        rel_path: "meta.json".to_owned(),
        is_file: true,
        bytes: slice_to_vec(meta.as_slice()),
    };
    out.push(meta_entry);
    proof {
        assert(out@.drop_last() =~= Seq::<FsEntry>::empty());
        assert(spec_plan(Seq::<FsEntry>::empty()) == Seq::<(Seq<char>, Option<Seq<u8>>)>::empty());
        assert(out@.last() == meta_entry);
        assert(meta_entry.rel_path@ == "meta.json"@);
        assert(meta_entry.bytes@ == meta@);
        assert(spec_plan_one(meta_entry) =~= seq![meta_item]);
        assert(spec_plan(out@) =~= seq![meta_item]);
        if inputs_fit {
            assert(entry_fits(meta_entry));
            assert(entries_fit(out@));
        }
    }
    let ghost dirs_part = strs_view(dirs@).map_values(|d: Seq<char>| (d, None::<Seq<u8>>));
    let mut j: usize = 0;
    while j < dirs.len()
        invariant
            j <= dirs@.len(),
            strs_view(dirs@) == spec_pack_dirs(files@),
            forall|k: int| 0 <= k < dirs@.len() ==> #[trigger] dirs@[k]@.len() > 0,
            dirs_part == strs_view(dirs@).map_values(|d: Seq<char>| (d, None::<Seq<u8>>)),
            spec_plan(out@) == seq![meta_item] + dirs_part.take(j as int),
            inputs_fit ==> entries_fit(out@),
        decreases dirs@.len() - j,
    {
        let ghost before = out@;
        let entry = FsEntry { rel_path: dirs[j].clone(), is_file: false, bytes: Vec::new() };
        out.push(entry);
        proof {
            assert(out@.drop_last() =~= before);
            assert(out@.last() == entry);
            assert(entry.rel_path@ == dirs@[j as int]@);
            assert(dirs_part.take(j + 1 as int) =~= dirs_part.take(j as int).push(
                (dirs@[j as int]@, None::<Seq<u8>>),
            ));
            assert(spec_plan(out@) =~= seq![meta_item] + dirs_part.take(j + 1 as int));
            if inputs_fit {
                assert forall|jj: int| 0 <= jj < out@.len() implies entry_fits(
                    #[trigger] out@[jj],
                ) by {
                    if jj < before.len() {
                        assert(out@[jj] == before[jj]);
                    } else {
                        assert(out@[jj] == entry);
                    }
                }
            }
        }
        j = j + 1;
    }
    proof {
        assert(dirs_part.take(dirs_part.len() as int) =~= dirs_part);
    }
    let ghost files_part_of = |fs: Seq<SourceFile>|
        spec_image_files(fs).map_values(|f: SourceFile| (f.rel_path@, Some(f.bytes@)));
    let mut i2: usize = 0;
    proof {
        assert(spec_image_files(files@.take(0)) =~= Seq::<SourceFile>::empty());
        assert(files_part_of(files@.take(0)) =~= Seq::<(Seq<char>, Option<Seq<u8>>)>::empty());
        assert(seq![meta_item] + dirs_part + files_part_of(files@.take(0)) =~= seq![meta_item]
            + dirs_part);
    }
    while i2 < files.len()
        invariant
            i2 <= files@.len(),
            dirs_part == strs_view(dirs@).map_values(|d: Seq<char>| (d, None::<Seq<u8>>)),
            strs_view(dirs@) == spec_pack_dirs(files@),
            files_part_of == |fs: Seq<SourceFile>|
                spec_image_files(fs).map_values(|f: SourceFile| (f.rel_path@, Some(f.bytes@))),
            spec_plan(out@) == seq![meta_item] + dirs_part + files_part_of(
                files@.take(i2 as int),
            ),
            inputs_fit ==> entries_fit(out@),
            inputs_fit ==> (forall|ii: int|
                0 <= ii < files@.len() ==> (#[trigger] files@[ii].bytes@).len()
                    <= MAX_ENTRY_BYTES),
        decreases files@.len() - i2,
    {
        let ghost before = out@;
        let f = &files[i2];
        proof {
            let t1 = files@.take(i2 + 1 as int);
            assert(t1.drop_last() =~= files@.take(i2 as int));
            assert(t1.last() == files@[i2 as int]);
        }
        if is_image(&f.bytes) {
            let entry = FsEntry {
                rel_path: f.rel_path.clone(),
                is_file: true,
                bytes: slice_to_vec(f.bytes.as_slice()),
            };
            out.push(entry);
            proof {
                assert(out@.drop_last() =~= before);
                assert(out@.last() == entry);
                assert(files_part_of(files@.take(i2 + 1 as int)) =~= files_part_of(
                    files@.take(i2 as int),
                ).push((f.rel_path@, Some(f.bytes@))));
                assert(spec_plan(out@) =~= seq![meta_item] + dirs_part + files_part_of(
                    files@.take(i2 + 1 as int),
                ));
                if inputs_fit {
                    assert((files@[i2 as int].bytes@).len() <= MAX_ENTRY_BYTES);
                    assert(entry.bytes@ == files@[i2 as int].bytes@);
                    assert(entry_fits(entry));
                    assert forall|jj: int| 0 <= jj < out@.len() implies entry_fits(
                        #[trigger] out@[jj],
                    ) by {
                        if jj < before.len() {
                            assert(out@[jj] == before[jj]);
                        } else {
                            assert(out@[jj] == entry);
                        }
                    }
                }
            }
        } else {
            proof {
                assert(files_part_of(files@.take(i2 + 1 as int)) =~= files_part_of(
                    files@.take(i2 as int),
                ));
            }
        }
        i2 = i2 + 1;
    }
    proof {
        assert(files@.take(files@.len() as int) =~= files@);
        assert(spec_plan(out@) =~= spec_pack(files@, meta@));
    }
    out
}

} // verus!
