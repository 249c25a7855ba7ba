//! The archiver: packs a walked directory tree into one in-memory zip
//! archive, one compressed file entry per regular file and one explicit
//! directory entry per directory other than the root. Explicit directory
//! entries guard against extraction tools that mishandle implicit ones.
//!
//! Every entry is written with the same fixed options: deflate compression,
//! permission bits `0o755`, and a fixed timestamp, so the archive bytes are a
//! function of the walked entries alone.

use vstd::prelude::*;

verus! {

/// How archiving fails: the source directory was missing, or reading or
/// writing an entry failed once archiving had begun.
#[derive(Clone, Copy, Debug, PartialEq, Eq, Structural)]
pub enum ArchiveError {
    NotFound,
    Io,
}

/// An in-memory zip writer, held opaquely; the entries it has received are
/// tracked by `archive_model`.
#[verifier::external_body]
pub struct ArchiveWriter {
    inner: zip::ZipWriter<std::io::Cursor<Vec<u8>>>,
}

/// The entries an archive writer has received so far, in order: each is a
/// name together with the entry's bytes for a file, or `None` for a
/// directory entry.
pub uninterp spec fn archive_model(w: ArchiveWriter) -> Seq<(Seq<char>, Option<Seq<u8>>)>;

/// The bytes of a finished archive holding the given entries. With every
/// entry written under the same fixed options and a deterministic deflate
/// backend, the bytes are a function of the entries alone.
pub uninterp spec fn zip_encoding(entries: Seq<(Seq<char>, Option<Seq<u8>>)>) -> Seq<u8>;

/// Whether an archive writer is still healthy: open, with every entry it has
/// received safely within the writer's per-entry bounds, so that further
/// entries and the final close are owed success.
pub uninterp spec fn archive_writer_ok(w: ArchiveWriter) -> bool;

/// Per-entry content bound under which archiving is owed success: writing
/// into memory, the writer fails only on a file crossing its 4 GiB zip64
/// limit (checked on the uncompressed bytes as they are written and on the
/// compressed bytes at the entry's close) or after such a failure closed it.
/// Three gibibytes leaves the compressed size room for any framing overhead
/// the deflate backend adds to incompressible data.
pub const MAX_ENTRY_BYTES: usize = 0xC0000000;

/// Whether a walked entry is owed a place in the archive: a directory
/// always, a file when its content is within the per-entry bound.
pub open spec fn entry_fits(e: FsEntry) -> bool {
    e.is_file ==> e.bytes@.len() <= MAX_ENTRY_BYTES
}

pub open spec fn entries_fit(es: Seq<FsEntry>) -> bool {
    forall|i: int| 0 <= i < es.len() ==> entry_fits(#[trigger] es[i])
}

/// Relies on `zip::ZipWriter::new`: a fresh writer over an empty in-memory
/// buffer holds no entries and is healthy.
#[verifier::external_body]
fn zip_writer_new() -> (w: ArchiveWriter)
    ensures
        archive_model(w) == Seq::<(Seq<char>, Option<Seq<u8>>)>::empty(),
        archive_writer_ok(w),
{
    ArchiveWriter { inner: zip::ZipWriter::new(std::io::Cursor::new(Vec::new())) }
}

/// Relies on `zip::ZipWriter::start_file` followed by
/// `std::io::Write::write_all`: on success the archive holds one more file
/// entry, with exactly the given name and bytes, after all earlier entries.
/// The fixed options (deflate, permissions `0o755`, the writer's fixed
/// default timestamp) keep the output a function of the entries. Writing
/// into memory, the calls fail only on an entry crossing the zip64 per-file
/// limit or on a writer closed by such a failure, so a healthy writer owes
/// success for content within the bound and stays healthy.
#[verifier::external_body]
fn zip_add_file(
    w: &mut ArchiveWriter,
    name: &str,
    data: &Vec<u8>,
) -> (r: Result<(), ArchiveError>)
    ensures
        r is Ok ==> archive_model(*final(w)) == archive_model(*old(w)).push(
            (name@, Some(data@)),
        ),
        r is Err ==> r->Err_0 == ArchiveError::Io,
        archive_writer_ok(*old(w)) && data@.len() <= MAX_ENTRY_BYTES ==> r is Ok
            && archive_writer_ok(*final(w)),
{
    let options = zip::write::FileOptions::default().compression_method(
        zip::CompressionMethod::Deflated,
    ).unix_permissions(0o755).last_modified_time(zip::DateTime::default());
    w.inner.start_file(name, options).map_err(|_| ArchiveError::Io)?;
    std::io::Write::write_all(&mut w.inner, data).map_err(|_| ArchiveError::Io)?;
    Ok(())
}

/// Relies on `zip::ZipWriter::add_directory`: on success the archive holds
/// one more directory entry with the given name (stored with a trailing
/// separator, uncompressed, with the same fixed permissions and timestamp),
/// after all earlier entries. A directory entry has no content, so a healthy
/// writer owes success and stays healthy.
#[verifier::external_body]
fn zip_add_directory(w: &mut ArchiveWriter, name: &str) -> (r: Result<
    (),
    ArchiveError,
>)
    ensures
        r is Ok ==> archive_model(*final(w)) == archive_model(*old(w)).push((name@, None)),
        r is Err ==> r->Err_0 == ArchiveError::Io,
        archive_writer_ok(*old(w)) ==> r is Ok && archive_writer_ok(*final(w)),
{
    let options = zip::write::FileOptions::default().compression_method(
        zip::CompressionMethod::Deflated,
    ).unix_permissions(0o755).last_modified_time(zip::DateTime::default());
    w.inner.add_directory(name, options).map_err(|_| ArchiveError::Io)?;
    Ok(())
}

/// Relies on `zip::ZipWriter::finish` and `std::io::Cursor::into_inner`: on
/// success, the bytes of the finished archive over the entries received,
/// valid (and empty) even when no entry was written. Closing writes only the
/// central directory into memory — oversized entry counts get a zip64
/// footer, not an error — so a healthy writer owes success.
#[verifier::external_body]
fn zip_finish(w: ArchiveWriter) -> (r: Result<Vec<u8>, ArchiveError>)
    ensures
        r is Ok ==> r->Ok_0@ == zip_encoding(archive_model(w)),
        r is Err ==> r->Err_0 == ArchiveError::Io,
        archive_writer_ok(w) ==> r is Ok,
{
    let mut writer = w;
    match writer.inner.finish() {
        Ok(cursor) => Ok(cursor.into_inner()),
        Err(_) => Err(ArchiveError::Io),
    }
}

/// One entry as the archive walk discovered it: its path relative to the
/// archive root with `/` separators (empty for the root itself), whether it
/// is a regular file, and for a file its content.
pub struct FsEntry {
    pub rel_path: String,
    pub is_file: bool,
    pub bytes: Vec<u8>,
}

/// The archive entries owed to one walked entry: a file entry with the
/// file's bytes, a directory entry for a directory other than the root, and
/// nothing for the root itself.
pub open spec fn spec_plan_one(e: FsEntry) -> Seq<(Seq<char>, Option<Seq<u8>>)> {
    if e.is_file {
        seq![(e.rel_path@, Some(e.bytes@))]
    } else if e.rel_path@.len() > 0 {
        seq![(e.rel_path@, None)]
    } else {
        Seq::empty()
    }
}

/// The archive entries owed to a walked tree, in walk order.
pub open spec fn spec_plan(entries: Seq<FsEntry>) -> Seq<(Seq<char>, Option<Seq<u8>>)>
    decreases entries.len(),
{
    if entries.len() == 0 {
        Seq::empty()
    } else {
        spec_plan(entries.drop_last()) + spec_plan_one(entries.last())
    }
}

/// Packs the walked entries into one in-memory archive and returns its
/// bytes. The archive holds exactly the planned entries, in walk order; any
/// failure while writing is surfaced, never swallowed; and a walk whose
/// files are all within the per-entry bound is owed success — in particular
/// an empty walk yields a valid, finalized, empty archive.
pub fn write_archive(entries: &Vec<FsEntry>) -> (r: Result<Vec<u8>, ArchiveError>)
    ensures
        r is Ok ==> r->Ok_0@ == zip_encoding(spec_plan(entries@)),
        r is Err ==> r->Err_0 == ArchiveError::Io,
        entries_fit(entries@) ==> r is Ok,
{
    let mut w = zip_writer_new();
    let mut i: usize = 0;
    proof {
        assert(archive_model(w) =~= spec_plan(entries@.take(0)));
    }
    while i < entries.len()
        invariant
            i <= entries@.len(),
            archive_model(w) == spec_plan(entries@.take(i as int)),
            entries_fit(entries@) ==> archive_writer_ok(w),
        decreases entries@.len() - i,
    {
        let e = &entries[i];
        proof {
            let t1 = entries@.take(i + 1 as int);
            assert(t1.drop_last() =~= entries@.take(i as int));
            assert(t1.last() == entries@[i as int]);
            assert(entries_fit(entries@) ==> entry_fits(entries@[i as int]));
        }
        if e.is_file {
            match zip_add_file(&mut w, e.rel_path.as_str(), &e.bytes) {
                Ok(_) => {},
                Err(err) => {
                    return Err(err);
                },
            }
        } else if !e.rel_path.as_str().is_empty() {
            match zip_add_directory(&mut w, e.rel_path.as_str()) {
                Ok(_) => {},
                Err(err) => {
                    return Err(err);
                },
            }
        }
        proof {
            assert(archive_model(w) =~= spec_plan(entries@.take(i + 1 as int)));
        }
        i = i + 1;
    }
    proof {
        assert(entries@.take(entries@.len() as int) =~= entries@);
    }
    zip_finish(w)
}

/// The archive step of one run: a missing source directory is refused with
/// `NotFound` before anything is written, so a refused run produces no
/// bytes and hence no output file; an existing one is packed whole, and is
/// owed success when every file is within the per-entry bound.
pub fn archive_walked(source_is_dir: bool, entries: &Vec<FsEntry>) -> (r: Result<
    Vec<u8>,
    ArchiveError,
>)
    ensures
        !source_is_dir ==> r == Result::<Vec<u8>, ArchiveError>::Err(ArchiveError::NotFound),
        source_is_dir && r is Ok ==> r->Ok_0@ == zip_encoding(spec_plan(entries@)),
        source_is_dir && r is Err ==> r->Err_0 == ArchiveError::Io,
        source_is_dir && entries_fit(entries@) ==> r is Ok,
{
    if !source_is_dir {
        Err(ArchiveError::NotFound)
    } else {
        write_archive(entries)
    }
}

/// How many planned entries are file entries.
pub open spec fn count_file_entries(p: Seq<(Seq<char>, Option<Seq<u8>>)>) -> nat
    decreases p.len(),
{
    if p.len() == 0 {
        0
    } else {
        count_file_entries(p.drop_last()) + (if p.last().1 is Some {
            1nat
        } else {
            0nat
        })
    }
}

/// How many planned entries are directory entries.
pub open spec fn count_dir_entries(p: Seq<(Seq<char>, Option<Seq<u8>>)>) -> nat
    decreases p.len(),
{
    if p.len() == 0 {
        0
    } else {
        count_dir_entries(p.drop_last()) + (if p.last().1 is None {
            1nat
        } else {
            0nat
        })
    }
}

/// How many walked entries are regular files.
pub open spec fn count_files(es: Seq<FsEntry>) -> nat
    decreases es.len(),
{
    if es.len() == 0 {
        0
    } else {
        count_files(es.drop_last()) + (if es.last().is_file {
            1nat
        } else {
            0nat
        })
    }
}

/// How many walked entries are directories other than the root.
pub open spec fn count_nonroot_dirs(es: Seq<FsEntry>) -> nat
    decreases es.len(),
{
    if es.len() == 0 {
        0
    } else {
        count_nonroot_dirs(es.drop_last()) + (if !es.last().is_file && es.last().rel_path@.len()
            > 0 {
            1nat
        } else {
            0nat
        })
    }
}

proof fn lemma_counts_append(p: Seq<(Seq<char>, Option<Seq<u8>>)>, q: Seq<(Seq<char>, Option<Seq<u8>>)>)
    requires
        q.len() <= 1,
    ensures
        count_file_entries(p + q) == count_file_entries(p) + count_file_entries(q),
        count_dir_entries(p + q) == count_dir_entries(p) + count_dir_entries(q),
{
    if q.len() == 0 {
        assert(p + q =~= p);
        assert(count_file_entries(q) == 0);
        assert(count_dir_entries(q) == 0);
    } else {
        let w = p + q;
        assert(w.len() == p.len() + 1);
        assert(w.drop_last() =~= p);
        assert(w.last() == q.last());
        assert(q.drop_last() =~= Seq::<(Seq<char>, Option<Seq<u8>>)>::empty());
        assert(count_file_entries(q.drop_last()) == 0);
        assert(count_dir_entries(q.drop_last()) == 0);
        assert(count_file_entries(q) == count_file_entries(q.drop_last()) + (if q.last().1 is Some {
            1nat
        } else {
            0nat
        }));
        assert(count_file_entries(w) == count_file_entries(w.drop_last()) + (if w.last().1 is Some {
            1nat
        } else {
            0nat
        }));
        assert(count_dir_entries(q) == count_dir_entries(q.drop_last()) + (if q.last().1 is None {
            1nat
        } else {
            0nat
        }));
        assert(count_dir_entries(w) == count_dir_entries(w.drop_last()) + (if w.last().1 is None {
            1nat
        } else {
            0nat
        }));
    }
}

/// Archiving a tree of `N` regular files and `M` directories under the root
/// plans exactly `N` file entries plus `M` directory entries, and no entry
/// for the root itself.
pub proof fn lemma_plan_counts(es: Seq<FsEntry>)
    ensures
        count_file_entries(spec_plan(es)) == count_files(es),
        count_dir_entries(spec_plan(es)) == count_nonroot_dirs(es),
    decreases es.len(),
{
    if es.len() > 0 {
        lemma_plan_counts(es.drop_last());
        lemma_counts_append(spec_plan(es.drop_last()), spec_plan_one(es.last()));
        let one = spec_plan_one(es.last());
        if one.len() > 0 {
            assert(one.drop_last() =~= Seq::<(Seq<char>, Option<Seq<u8>>)>::empty());
            assert(count_file_entries(one.drop_last()) == 0);
            assert(count_dir_entries(one.drop_last()) == 0);
        }
        if es.last().is_file {
            assert(count_file_entries(one) == 1);
            assert(count_dir_entries(one) == 0);
        } else if es.last().rel_path@.len() > 0 {
            assert(count_file_entries(one) == 0);
            assert(count_dir_entries(one) == 1);
        } else {
            assert(count_file_entries(one) == 0);
            assert(count_dir_entries(one) == 0);
        }
    }
}

/// Every regular file the walk reported is planned as a file entry carrying
/// exactly that file's bytes at its relative path: what goes into the
/// archive is byte-identical to its source.
pub proof fn lemma_plan_preserves_file_bytes(es: Seq<FsEntry>, k: int)
    requires
        0 <= k < es.len(),
        es[k].is_file,
    ensures
        exists|j: int|
            0 <= j < spec_plan(es).len() && spec_plan(es)[j] == (
            es[k].rel_path@,
            Some(es[k].bytes@),
            ),
    decreases es.len(),
{
    let p = spec_plan(es);
    if k == es.len() - 1 {
        let j = spec_plan(es.drop_last()).len() as int;
        assert(p[j] == (es[k].rel_path@, Some(es[k].bytes@)));
    } else {
        assert(es.drop_last()[k] == es[k]);
        lemma_plan_preserves_file_bytes(es.drop_last(), k);
        let j = choose|j: int|
            0 <= j < spec_plan(es.drop_last()).len() && spec_plan(es.drop_last())[j] == (
            es[k].rel_path@,
            Some(es[k].bytes@),
            );
        assert(p[j] == (es[k].rel_path@, Some(es[k].bytes@)));
    }
}

} // verus!
