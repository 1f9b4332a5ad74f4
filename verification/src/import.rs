//! The import pipeline's decisions.
//!
//! The host walks the requested subtree, hashes and registers each file with
//! the content store concurrently, and hands the unordered per-file outcomes
//! in here. This module aborts on the first failed file, sums the sizes,
//! sorts the entries by name, and yields the committed manifest — so the
//! manifest is a deterministic function of the set of files imported, however
//! the concurrent hashing interleaved.

use vstd::prelude::*;
use vstd::seq_lib::group_to_multiset_ensures;
use vstd::multiset::group_multiset_axioms;
use vstd::utf8::encode_utf8;
use crate::error::SendmeError;
use crate::manifest::{ContentId, ContentManifest, EntryView, ManifestEntry};
use crate::order::{bytes_leq, lemma_lex_antisym, lemma_lex_total, lemma_lex_trans, lex_leq};
use crate::progress::{phase_monotone, ProgressInfo, ProgressOperation, ProgressStream};
use crate::text::str_bytes;

verus! {

/// One file the store has hashed and registered: its manifest name, the
/// identity the store assigned to its bytes, and its size in bytes.
#[derive(Debug, Clone)]
pub struct ImportedFile {
    pub name: String,
    pub content: ContentId,
    pub size: u64,
}

/// The mathematical content of an imported file.
pub ghost struct FileView {
    pub name: Seq<u8>,
    pub id: Seq<u8>,
    pub size: u64,
}

impl View for ImportedFile {
    type V = FileView;

    open spec fn view(&self) -> FileView {
        FileView { name: encode_utf8(self.name@), id: self.content@, size: self.size }
    }
}

/// The manifest entry an imported file becomes.
pub open spec fn entry_of(f: FileView) -> EntryView {
    EntryView { name: f.name, id: f.id }
}

/// The failure of one file during hashing or registration.
#[derive(Debug, Clone)]
pub struct ImportItemError {
    pub name: String,
    pub cause: String,
}

/// The view of each file, in sequence order.
pub open spec fn file_views(s: Seq<ImportedFile>) -> Seq<FileView> {
    s.map_values(|f: ImportedFile| f@)
}

/// Files stand in sorted lexicographic order by name.
pub open spec fn files_sorted(s: Seq<ImportedFile>) -> bool {
    forall|i: int, j: int|
        0 <= i < j < s.len() ==> lex_leq(#[trigger] s[i]@.name, #[trigger] s[j]@.name)
}

/// No two file views share a name.
pub open spec fn file_names_unique(s: Seq<FileView>) -> bool {
    forall|i: int, j: int|
        0 <= i < j < s.len() ==> #[trigger] s[i].name != #[trigger] s[j].name
}

/// The total of the sizes, as an unbounded integer.
pub open spec fn sum_sizes(s: Seq<FileView>) -> int
    decreases s.len(),
{
    if s.len() == 0 {
        0
    } else {
        sum_sizes(s.drop_last()) + s.last().size
    }
}

/// `e` is the failure of the first hashed file that failed: everything
/// before index `k` succeeded, and `e` carries the failing file's name and
/// cause.
pub open spec fn first_failure_is(
    results: Seq<Result<ImportedFile, ImportItemError>>,
    e: SendmeError,
) -> bool {
    exists|k: int|
        {
            &&& 0 <= k < results.len()
            &&& (forall|i: int| 0 <= i < k ==> results[i] is Ok)
            &&& (#[trigger] results[k]) matches Err(bad) && e == (SendmeError::ImportItemFailed {
                name: bad.name,
                cause: bad.cause,
            })
        }
}

/// Abort-on-first-failure collection of the per-file outcomes: either every
/// file was hashed and registered, or the import fails with the offending
/// file's name and cause and no partial manifest is produced.
#[verifier::loop_isolation(false)]
pub fn collect_hashed(results: Vec<Result<ImportedFile, ImportItemError>>) -> (r: Result<
    Vec<ImportedFile>,
    SendmeError,
>)
    ensures
        match r {
            Ok(files) => {
                &&& files@.len() == results@.len()
                &&& forall|i: int|
                    0 <= i < results@.len() ==> ((#[trigger] results@[i]) matches Ok(f) && files@[i] == f)
            },
            Err(e) => first_failure_is(results@, e),
        },
{
    let ghost orig = results@;
    let mut rest = results;
    let mut files: Vec<ImportedFile> = Vec::new();
    while rest.len() > 0
        invariant
            files@.len() + rest@.len() == orig.len(),
            rest@ == orig.skip(files@.len() as int),
            forall|i: int| 0 <= i < files@.len() ==> ((#[trigger] orig[i]) matches Ok(f) && files@[i] == f),
        decreases rest@.len(),
    {
        let ghost k = files@.len() as int;
        let item = rest.remove(0);
        proof {
            assert(item == orig[k]);
            assert(rest@ =~= orig.skip(k + 1));
        }
        match item {
            Ok(f) => {
                files.push(f);
            },
            Err(bad) => {
                let ghost gb = bad;
                let failure = SendmeError::ImportItemFailed { name: bad.name, cause: bad.cause };
                proof {
                    assert((#[trigger] orig[k]) matches Err(b) && b == gb);
                    assert(first_failure_is(orig, failure)) by {
                        assert((#[trigger] orig[k]) matches Err(bad2) && failure
                            == (SendmeError::ImportItemFailed {
                            name: bad2.name,
                            cause: bad2.cause,
                        }));
                    }
                }
                return Err(failure);
            },
        }
    }
    Ok(files)
}

/// Sort the imported files by name, in byte-wise lexicographic order; the
/// result holds exactly the same files.
pub fn sort_files(v: &mut Vec<ImportedFile>)
    ensures
        final(v)@.len() == old(v)@.len(),
        files_sorted(final(v)@),
        final(v)@.to_multiset() == old(v)@.to_multiset(),
        file_views(final(v)@).to_multiset() == file_views(old(v)@).to_multiset(),
{
    let ghost orig = v@;
    let mut i: usize = 1;
    while i < v.len()
        invariant
            1 <= i,
            v@.len() == orig.len(),
            i <= v@.len() || orig.len() <= 1,
            v@.to_multiset() == orig.to_multiset(),
            forall|k: int, l: int|
                0 <= k < l < i && l < v@.len() ==> lex_leq(
                    #[trigger] v@[k]@.name,
                    #[trigger] v@[l]@.name,
                ),
        decreases v@.len() - i,
    {
        let ghost before = v@;
        let e = v.remove(i);
        let ghost removed = v@;
        proof {
            broadcast use group_to_multiset_ensures, group_multiset_axioms;

            assert(removed =~= before.remove(i as int));
            assert(removed.to_multiset() == before.to_multiset().remove(e));
        }
        // find the insertion point within the sorted prefix
        let mut j: usize = 0;
        while j < i && bytes_leq(str_bytes(v[j].name.as_str()), str_bytes(e.name.as_str()))
            invariant
                0 <= j <= i,
                i < before.len(),
                v@ == removed,
                removed.len() == before.len() - 1,
                i <= removed.len(),
                forall|k: int| 0 <= k < j ==> lex_leq(#[trigger] removed[k]@.name, e@.name),
            decreases i - j,
        {
            j += 1;
        }
        proof {
            // at the stop index the element is strictly after `e`
            if j < i {
                lemma_lex_total(removed[j as int]@.name, e@.name);
            }
        }
        v.insert(j, e);
        proof {
            broadcast use group_to_multiset_ensures, group_multiset_axioms;

            assert(v@ =~= removed.insert(j as int, e));
            assert(v@.to_multiset() =~= before.to_multiset());
            // the prefix of length i + 1 is sorted
            assert forall|k: int, l: int|
                0 <= k < l < i + 1 && l < v@.len() implies lex_leq(
                    #[trigger] v@[k]@.name,
                    #[trigger] v@[l]@.name,
                ) by {
                    let jj = j as int;
                    if k < jj {
                        assert(v@[k] == removed[k]);
                    }
                    if l < jj {
                        assert(v@[l] == removed[l]);
                    }
                    if k > jj {
                        assert(v@[k] == removed[k - 1]);
                    }
                    if l > jj {
                        assert(v@[l] == removed[l - 1]);
                    }
                    if l == jj {
                        assert(v@[l] == e);
                    }
                    if k == jj {
                        assert(v@[k] == e);
                        // e is at or before everything from j on in the old prefix
                        assert(l > jj);
                        lemma_lex_total(removed[jj]@.name, e@.name);
                        if jj < i && l - 1 > jj {
                            lemma_lex_trans(e@.name, removed[jj]@.name, removed[l - 1]@.name);
                        }
                    } else if k < jj && l == jj {
                        assert(lex_leq(removed[k]@.name, e@.name));
                    } else if k < jj && l > jj {
                        assert(lex_leq(removed[k]@.name, removed[l - 1]@.name));
                    }
                }
        }
        i += 1;
    }
    proof {
        lemma_view_multiset(orig, v@);
    }
}

/// Element-level permutation carries over to the views.
proof fn lemma_view_multiset(a: Seq<ImportedFile>, b: Seq<ImportedFile>)
    requires
        a.to_multiset() == b.to_multiset(),
    ensures
        file_views(a).to_multiset() == file_views(b).to_multiset(),
    decreases a.len(),
{
    broadcast use group_to_multiset_ensures, group_multiset_axioms;

    if a.len() == 0 {
        assert(a.to_multiset().len() == a.len());
        assert(b.to_multiset().len() == b.len());
        assert(b.len() == 0);
        assert(file_views(a) =~= file_views(b));
    } else {
        let x = a[0];
        assert(a.contains(x));
        assert(a.to_multiset().count(x) > 0);
        assert(b.to_multiset().count(x) > 0);
        assert(b.contains(x));
        let j = choose|j: int| 0 <= j < b.len() && b[j] == x;
        let a1 = a.remove(0);
        let b1 = b.remove(j);
        assert(a1.to_multiset() == a.to_multiset().remove(x));
        assert(b1.to_multiset() == b.to_multiset().remove(x));
        lemma_view_multiset(a1, b1);
        assert(file_views(a1) =~= file_views(a).remove(0));
        assert(file_views(b1) =~= file_views(b).remove(j));
        assert(file_views(a).to_multiset().remove(x@) == file_views(a1).to_multiset());
        assert(file_views(b).to_multiset().remove(x@) == file_views(b1).to_multiset());
        assert(file_views(a).contains(x@)) by {
            assert(file_views(a)[0] == x@);
        }
        assert(file_views(b).contains(x@)) by {
            assert(file_views(b)[j] == x@);
        }
        assert(file_views(a).to_multiset() =~= file_views(a1).to_multiset().insert(x@));
        assert(file_views(b).to_multiset() =~= file_views(b1).to_multiset().insert(x@));
    }
}

/// The sum of the sizes of a prefix never exceeds the sum over the whole
/// sequence.
proof fn lemma_sum_take_le(s: Seq<FileView>, i: int)
    requires
        0 <= i <= s.len(),
    ensures
        sum_sizes(s.take(i)) <= sum_sizes(s),
        sum_sizes(s.take(i)) >= 0,
    decreases s.len() - i,
{
    if i == s.len() {
        assert(s.take(i) =~= s);
        lemma_sum_nonneg(s);
    } else {
        lemma_sum_take_le(s, i + 1);
        lemma_sum_take_step(s, i);
        lemma_sum_nonneg(s.take(i));
    }
}

/// Sums of sizes are never negative.
proof fn lemma_sum_nonneg(s: Seq<FileView>)
    ensures
        sum_sizes(s) >= 0,
    decreases s.len(),
{
    if s.len() > 0 {
        lemma_sum_nonneg(s.drop_last());
    }
}

/// Extending a prefix by one element adds that element's size to its sum.
proof fn lemma_sum_take_step(s: Seq<FileView>, i: int)
    requires
        0 <= i < s.len(),
    ensures
        sum_sizes(s.take(i + 1)) == sum_sizes(s.take(i)) + s[i].size,
{
    assert(s.take(i + 1).drop_last() =~= s.take(i));
    assert(s.take(i + 1).last() == s[i]);
}

/// The total of the file sizes. The total is required to fit in a machine
/// word; the host checks that before calling.
#[verifier::loop_isolation(false)]
pub fn total_size(files: &Vec<ImportedFile>) -> (r: u64)
    requires
        sum_sizes(file_views(files@)) <= u64::MAX,
    ensures
        r == sum_sizes(file_views(files@)),
{
    let ghost fv = file_views(files@);
    let mut total: u64 = 0;
    let mut i: usize = 0;
    while i < files.len()
        invariant
            0 <= i <= files@.len(),
            total == sum_sizes(fv.take(i as int)),
        decreases files@.len() - i,
    {
        proof {
            lemma_sum_take_le(fv, i + 1 as int);
            lemma_sum_take_step(fv, i as int);
            assert(fv[i as int].size == files@[i as int]@.size);
        }
        total = total + files[i].size;
        i += 1;
    }
    proof {
        assert(fv.take(files@.len() as int) =~= fv);
    }
    total
}

/// Element-level permutation carries over to any mapped view of the
/// elements.
proof fn lemma_map_multiset<A, B>(a: Seq<A>, b: Seq<A>, f: spec_fn(A) -> B)
    requires
        a.to_multiset() == b.to_multiset(),
    ensures
        a.map_values(f).to_multiset() == b.map_values(f).to_multiset(),
    decreases a.len(),
{
    broadcast use group_to_multiset_ensures, group_multiset_axioms;

    if a.len() == 0 {
        assert(a.to_multiset().len() == a.len());
        assert(b.to_multiset().len() == b.len());
        assert(a.map_values(f) =~= b.map_values(f));
    } else {
        let x = a[0];
        assert(a.contains(x));
        assert(a.to_multiset().count(x) > 0);
        assert(b.to_multiset().count(x) > 0);
        assert(b.contains(x));
        let j = choose|j: int| 0 <= j < b.len() && b[j] == x;
        let a1 = a.remove(0);
        let b1 = b.remove(j);
        assert(a1.to_multiset() == a.to_multiset().remove(x));
        assert(b1.to_multiset() == b.to_multiset().remove(x));
        lemma_map_multiset(a1, b1, f);
        assert(a1.map_values(f) =~= a.map_values(f).remove(0));
        assert(b1.map_values(f) =~= b.map_values(f).remove(j));
        assert(a.map_values(f).contains(f(x))) by {
            assert(a.map_values(f)[0] == f(x));
        }
        assert(b.map_values(f).contains(f(x))) by {
            assert(b.map_values(f)[j] == f(x));
        }
        assert(a.map_values(f).to_multiset() =~= a.map_values(f).remove(0).to_multiset().insert(
            f(x),
        ));
        assert(b.map_values(f).to_multiset() =~= b.map_values(f).remove(j).to_multiset().insert(
            f(x),
        ));
    }
}

/// Unique names survive any reordering of the files.
proof fn lemma_unique_names_preserved(a: Seq<FileView>, b: Seq<FileView>)
    requires
        file_names_unique(a),
        a.to_multiset() == b.to_multiset(),
    ensures
        file_names_unique(b),
{
    broadcast use group_to_multiset_ensures, group_multiset_axioms;

    assert(a.no_duplicates()) by {
        assert forall|i: int, j: int|
            0 <= i < a.len() && 0 <= j < a.len() && i != j implies a[i] != a[j] by {
            if i < j {
                assert(a[i].name != a[j].name);
            } else {
                assert(a[j].name != a[i].name);
            }
        }
    }
    a.lemma_multiset_has_no_duplicates();
    assert forall|x: FileView| b.to_multiset().contains(x) implies b.to_multiset().count(x)
        == 1 by {
        assert(a.to_multiset().contains(x));
    }
    b.lemma_multiset_has_no_duplicates_conv();
    assert forall|i: int, j: int| 0 <= i < j < b.len() implies #[trigger] b[i].name != #[trigger] b[j].name by {
        if b[i].name == b[j].name {
            assert(b[i] != b[j]);
            assert(b.contains(b[i]));
            assert(b.contains(b[j]));
            assert(b.to_multiset().count(b[i]) > 0);
            assert(b.to_multiset().count(b[j]) > 0);
            assert(a.to_multiset().count(b[i]) > 0);
            assert(a.to_multiset().count(b[j]) > 0);
            assert(a.contains(b[i]));
            assert(a.contains(b[j]));
            let k1 = choose|k: int| 0 <= k < a.len() && a[k] == b[i];
            let k2 = choose|k: int| 0 <= k < a.len() && a[k] == b[j];
            assert(a[k1] != a[k2]);
            if k1 < k2 {
                assert(a[k1].name != a[k2].name);
            } else {
                assert(a[k2].name != a[k1].name);
            }
        }
    }
}

/// What the import pipeline yields: the committed manifest, the aggregate
/// size of all files, and how many files it holds.
pub struct ImportOutcome {
    pub manifest: ContentManifest,
    pub total_size: u64,
    pub file_count: u64,
}

/// Build the committed manifest from the hashed files: report the import
/// phase, sum the sizes, sort the entries by name, and wrap them up.
///
/// The outcome is a function of the set of files alone: however the
/// concurrent hashing reordered them, the manifest is the same, and the
/// reported total is the exact sum of the file sizes.
#[verifier::loop_isolation(false)]
pub fn build_manifest(files: Vec<ImportedFile>, tracker: &mut ProgressStream) -> (r: ImportOutcome)
    requires
        sum_sizes(file_views(files@)) <= u64::MAX,
        file_names_unique(file_views(files@)),
        files@.len() <= u64::MAX,
    ensures
        r.manifest.wf(),
        r.manifest@.to_multiset() == file_views(files@).map_values(
            |f: FileView| entry_of(f),
        ).to_multiset(),
        r.total_size == sum_sizes(file_views(files@)),
        r.file_count == files@.len(),
        final(tracker).is_active() == old(tracker).is_active(),
        !old(tracker).is_active() ==> final(tracker)@ == old(tracker)@,
        old(tracker).is_active() ==> {
            &&& final(tracker)@.len() == old(tracker)@.len() + 2
            &&& final(tracker)@.subrange(0, old(tracker)@.len() as int) == old(tracker)@
            &&& phase_monotone(final(tracker)@.skip(old(tracker)@.len() as int))
            &&& final(tracker)@[old(tracker)@.len() as int].operation is Import
            &&& final(tracker)@[old(tracker)@.len() as int].current == 0
            &&& final(tracker)@[old(tracker)@.len() as int].total == files@.len()
            &&& final(tracker)@.last().operation is Import
            &&& final(tracker)@.last().current == files@.len()
            &&& final(tracker)@.last().total == files@.len()
        },
{
    let ghost fv0 = file_views(files@);
    let n = files.len();
    let n64 = n as u64;
    tracker.emit(
        ProgressInfo {
            operation: ProgressOperation::Import,
            current: 0,
            total: n64,
            message: "importing files".to_owned(),
        },
    );
    let total = total_size(&files);
    let mut files = files;
    sort_files(&mut files);
    proof {
        lemma_unique_names_preserved(fv0, file_views(files@));
    }
    let ghost sorted_views = file_views(files@);
    let mut entries: Vec<ManifestEntry> = Vec::new();
    let mut i: usize = 0;
    while i < files.len()
        invariant
            0 <= i <= files@.len(),
            entries@.len() == i,
            forall|k: int| 0 <= k < i ==> #[trigger] entries@[k]@ == entry_of(sorted_views[k]),
            file_views(files@) == sorted_views,
            files_sorted(files@),
            file_names_unique(sorted_views),
        decreases files@.len() - i,
    {
        let f = &files[i];
        let entry = ManifestEntry { name: f.name.clone(), content: f.content.duplicate() };
        proof {
            assert(entry@ == entry_of(sorted_views[i as int]));
        }
        entries.push(entry);
        i += 1;
    }
    proof {
        assert(crate::manifest::entries_sorted(entries@)) by {
            assert forall|k: int, l: int|
                0 <= k < l < entries@.len() implies lex_leq(
                    entries@[k]@.name,
                    entries@[l]@.name,
                ) by {
                assert(entries@[k]@ == entry_of(sorted_views[k]));
                assert(entries@[l]@ == entry_of(sorted_views[l]));
                assert(sorted_views[k] == files@[k]@);
                assert(sorted_views[l] == files@[l]@);
            }
        }
        assert(crate::manifest::names_unique(entries@)) by {
            assert forall|k: int, l: int|
                0 <= k < l < entries@.len() implies entries@[k]@.name != entries@[l]@.name by {
                assert(entries@[k]@ == entry_of(sorted_views[k]));
                assert(entries@[l]@ == entry_of(sorted_views[l]));
            }
        }
    }
    let manifest = ContentManifest::from_sorted(entries);
    proof {
        assert(manifest@ =~= sorted_views.map_values(|f: FileView| entry_of(f)));
        lemma_map_multiset(fv0, sorted_views, |f: FileView| entry_of(f));
    }
    tracker.emit(
        ProgressInfo {
            operation: ProgressOperation::Import,
            current: n64,
            total: n64,
            message: "files processed".to_owned(),
        },
    );
    ImportOutcome { manifest, total_size: total, file_count: n64 }
}

} // verus!
