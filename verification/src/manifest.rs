//! Content identities and the content manifest.
//!
//! A manifest is the unit exchanged in one transfer: an ordered mapping from
//! relative path to content identity, with unique names, kept in sorted
//! lexicographic order by name. The sender sorts before committing, so the
//! receiver sees a deterministic manifest.

use vstd::prelude::*;
use vstd::seq_lib::group_to_multiset_ensures;
use vstd::multiset::group_multiset_axioms;
use vstd::utf8::encode_utf8;
use crate::hex::spec_hex_encode;
use crate::order::lex_leq;
use crate::text::{ascii_string, chars_of_bytes};
use crate::hex::hex_encode;
use crate::hex::lemma_hex_encode_shape;

verus! {

/// A fixed-size digest identifying a block of bytes: equal bytes, equal
/// identity. The engine never computes digests itself; the store hands
/// them in.
#[derive(Debug, Clone, PartialEq, Eq)]
pub struct ContentId {
    bytes: Vec<u8>,
}

impl View for ContentId {
    type V = Seq<u8>;

    closed spec fn view(&self) -> Seq<u8> {
        self.bytes@
    }
}

impl ContentId {
    /// A content identity is exactly 32 digest bytes.
    pub open spec fn wf(&self) -> bool {
        self@.len() == 32
    }

    pub fn new(bytes: Vec<u8>) -> (r: ContentId)
        requires
            bytes@.len() == 32,
        ensures
            r@ == bytes@,
            r.wf(),
    {
        ContentId { bytes }
    }

    /// An identical copy of the identity.
    pub fn duplicate(&self) -> (r: ContentId)
        ensures
            r@ == self@,
    {
        let b = self.bytes.clone();
        proof {
            assert(b@ =~= self.bytes@);
        }
        ContentId { bytes: b }
    }

    pub fn as_bytes(&self) -> (r: &Vec<u8>)
        ensures
            r@ == self@,
    {
        &self.bytes
    }

    /// The lowercase hex spelling of the digest, as shown to the host.
    pub fn to_hex(&self) -> (r: String)
        ensures
            r@ == chars_of_bytes(spec_hex_encode(self@)),
    {
        let enc = hex_encode(self.bytes.as_slice());
        proof {
            lemma_hex_encode_shape(self@);
        }
        ascii_string(enc)
    }
}

/// One manifest entry: a relative path and the identity of its content.
#[derive(Debug, Clone)]
pub struct ManifestEntry {
    pub name: String,
    pub content: ContentId,
}

/// The mathematical content of one entry: the UTF-8 bytes of its name and
/// its digest bytes.
pub ghost struct EntryView {
    pub name: Seq<u8>,
    pub id: Seq<u8>,
}

impl View for ManifestEntry {
    type V = EntryView;

    open spec fn view(&self) -> EntryView {
        EntryView { name: encode_utf8(self.name@), id: self.content@ }
    }
}

/// Entries stand in sorted lexicographic order by name.
pub open spec fn entries_sorted(s: Seq<ManifestEntry>) -> bool {
    forall|i: int, j: int|
        0 <= i < j < s.len() ==> lex_leq(#[trigger] s[i]@.name, #[trigger] s[j]@.name)
}

/// No two entries share a name.
pub open spec fn names_unique(s: Seq<ManifestEntry>) -> bool {
    forall|i: int, j: int|
        0 <= i < j < s.len() ==> #[trigger] s[i]@.name != #[trigger] s[j]@.name
}

/// An ordered name-to-content mapping describing one transfer. Immutable
/// once committed: a new transfer always produces a new manifest.
#[derive(Debug, Clone)]
pub struct ContentManifest {
    entries: Vec<ManifestEntry>,
}

impl View for ContentManifest {
    type V = Seq<EntryView>;

    closed spec fn view(&self) -> Seq<EntryView> {
        self.entries@.map_values(|e: ManifestEntry| e@)
    }
}

impl ContentManifest {
    /// Sorted by name, with unique names: what the sender guarantees before
    /// committing.
    pub open spec fn wf(&self) -> bool {
        &&& forall|i: int, j: int|
            0 <= i < j < self@.len() ==> lex_leq(#[trigger] self@[i].name, #[trigger] self@[j].name)
        &&& forall|i: int, j: int|
            0 <= i < j < self@.len() ==> #[trigger] self@[i].name != #[trigger] self@[j].name
    }

    /// Wrap a sorted, duplicate-free entry list as a committed manifest.
    pub fn from_sorted(entries: Vec<ManifestEntry>) -> (r: ContentManifest)
        requires
            entries_sorted(entries@),
            names_unique(entries@),
        ensures
            r@ == entries@.map_values(|e: ManifestEntry| e@),
            r.wf(),
    {
        let r = ContentManifest { entries };
        proof {
            assert forall|i: int, j: int| 0 <= i < j < r@.len() implies lex_leq(
                r@[i].name,
                r@[j].name,
            ) && r@[i].name != r@[j].name by {
                assert(r@[i] == r.entries@[i]@);
                assert(r@[j] == r.entries@[j]@);
            }
        }
        r
    }

    pub fn len(&self) -> (r: usize)
        ensures
            r == self@.len(),
    {
        self.entries.len()
    }

    pub fn entry(&self, i: usize) -> (r: &ManifestEntry)
        requires
            i < self@.len(),
        ensures
            r@ == self@[i as int],
    {
        &self.entries[i]
    }
}

/// Entry views stand in sorted lexicographic order by name.
pub open spec fn views_sorted(s: Seq<EntryView>) -> bool {
    forall|i: int, j: int|
        0 <= i < j < s.len() ==> lex_leq(#[trigger] s[i].name, #[trigger] s[j].name)
}

/// No two entry views share a name.
pub open spec fn view_names_unique(s: Seq<EntryView>) -> bool {
    forall|i: int, j: int|
        0 <= i < j < s.len() ==> #[trigger] s[i].name != #[trigger] s[j].name
}

/// Manifest determinism: two sorted, duplicate-free entry lists holding the
/// same set of entries are identical. Since the sender always sorts before
/// committing, repeated imports of the same files produce the same manifest,
/// in the same order, whatever order the concurrent hashing finished in.
pub proof fn lemma_sorted_entries_canonical(a: Seq<EntryView>, b: Seq<EntryView>)
    requires
        views_sorted(a),
        view_names_unique(a),
        views_sorted(b),
        view_names_unique(b),
        a.to_multiset() == b.to_multiset(),
    ensures
        a == b,
    decreases a.len(),
{
    broadcast use group_to_multiset_ensures, group_multiset_axioms;

    if a.len() == 0 {
        assert(a.to_multiset().len() == a.len());
        assert(b.to_multiset().len() == b.len());
        assert(a =~= b);
    } else {
        assert(b.len() > 0) by {
            assert(a.to_multiset().len() == a.len());
            assert(b.to_multiset().len() == b.len());
        }
        // the head of each list appears in the other
        assert(a.contains(a[0]));
        assert(a.to_multiset().count(a[0]) > 0);
        assert(b.to_multiset().count(a[0]) > 0);
        assert(b.contains(a[0]));
        let j = choose|k: int| 0 <= k < b.len() && b[k] == a[0];
        assert(b.contains(b[0]));
        assert(b.to_multiset().count(b[0]) > 0);
        assert(a.to_multiset().count(b[0]) > 0);
        assert(a.contains(b[0]));
        let i = choose|k: int| 0 <= k < a.len() && a[k] == b[0];
        // each head's name is at or before the other's
        if j > 0 {
            assert(lex_leq(b[0].name, b[j].name));
        } else {
            crate::order::lemma_lex_total(b[0].name, a[0].name);
        }
        if i > 0 {
            assert(lex_leq(a[0].name, a[i].name));
        } else {
            crate::order::lemma_lex_total(a[0].name, b[0].name);
        }
        crate::order::lemma_lex_total(a[0].name, a[0].name);
        assert(lex_leq(b[0].name, a[0].name));
        assert(lex_leq(a[0].name, b[0].name));
        crate::order::lemma_lex_antisym(a[0].name, b[0].name);
        // with unique names the occurrence must be the head itself
        assert(j == 0) by {
            if j > 0 {
                assert(b[0].name != b[j].name);
            }
        }
        assert(a[0] == b[0]);
        let a1 = a.remove(0);
        let b1 = b.remove(0);
        assert(a1.to_multiset() == a.to_multiset().remove(a[0]));
        assert(b1.to_multiset() == b.to_multiset().remove(b[0]));
        assert(views_sorted(a1)) by {
            assert forall|k: int, l: int|
                0 <= k < l < a1.len() implies lex_leq(a1[k].name, a1[l].name) by {
                assert(a1[k] == a[k + 1]);
                assert(a1[l] == a[l + 1]);
            }
        }
        assert(view_names_unique(a1)) by {
            assert forall|k: int, l: int| 0 <= k < l < a1.len() implies a1[k].name != a1[l].name by {
                assert(a1[k] == a[k + 1]);
                assert(a1[l] == a[l + 1]);
            }
        }
        assert(views_sorted(b1)) by {
            assert forall|k: int, l: int|
                0 <= k < l < b1.len() implies lex_leq(b1[k].name, b1[l].name) by {
                assert(b1[k] == b[k + 1]);
                assert(b1[l] == b[l + 1]);
            }
        }
        assert(view_names_unique(b1)) by {
            assert forall|k: int, l: int| 0 <= k < l < b1.len() implies b1[k].name != b1[l].name by {
                assert(b1[k] == b[k + 1]);
                assert(b1[l] == b[l + 1]);
            }
        }
        lemma_sorted_entries_canonical(a1, b1);
        assert(a =~= b) by {
            assert forall|k: int| 0 <= k < a.len() implies a[k] == b[k] by {
                if k > 0 {
                    assert(a1[k - 1] == b1[k - 1]);
                    assert(a1[k - 1] == a[k]);
                    assert(b1[k - 1] == b[k]);
                }
            }
        }
    }
}

/// Manifest determinism, stated over committed manifests: two well-formed
/// manifests holding the same set of entries are equal entry for entry.
pub proof fn lemma_manifest_deterministic(m1: ContentManifest, m2: ContentManifest)
    requires
        m1.wf(),
        m2.wf(),
        m1@.to_multiset() == m2@.to_multiset(),
    ensures
        m1@ == m2@,
{
    lemma_sorted_entries_canonical(m1@, m2@);
}

} // verus!
