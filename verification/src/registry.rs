//! The session registry: process-wide keep-alive table.
//!
//! A sender's long-lived resources (listening endpoint, retained content,
//! progress sender) must stay alive after the send call returns, until they
//! are explicitly released. The registry keys such a bundle by its ticket
//! text (or a reserved key for an active progress stream) and holds it until
//! removal. It has an explicit lifecycle — the host creates and owns it —
//! and one entry per key: adding under a held key replaces the bundle.

use vstd::prelude::*;

verus! {

/// What a sequence of keyed entries denotes: the mapping from key text to
/// bundle, later entries overriding earlier ones.
pub open spec fn alist_map<V>(s: Seq<(String, V)>) -> Map<Seq<char>, V>
    decreases s.len(),
{
    if s.len() == 0 {
        Map::<Seq<char>, V>::empty()
    } else {
        alist_map(s.drop_last()).insert(s.last().0@, s.last().1)
    }
}

/// No two entries share a key.
pub open spec fn keys_unique<V>(s: Seq<(String, V)>) -> bool {
    forall|i: int, j: int| 0 <= i < j < s.len() ==> (#[trigger] s[i]).0@ != (#[trigger] s[j]).0@
}

/// The denoted mapping holds exactly the listed keys.
proof fn lemma_alist_dom<V>(s: Seq<(String, V)>, k: Seq<char>)
    ensures
        alist_map(s).contains_key(k) <==> exists|i: int| 0 <= i < s.len() && (#[trigger] s[i]).0@
            == k,
    decreases s.len(),
{
    if s.len() > 0 {
        lemma_alist_dom(s.drop_last(), k);
        if alist_map(s).contains_key(k) {
            if s.last().0@ == k {
                assert((#[trigger] s[s.len() - 1]).0@ == k);
            } else {
                assert(alist_map(s.drop_last()).contains_key(k));
                let i = choose|i: int|
                    0 <= i < s.drop_last().len() && (#[trigger] s.drop_last()[i]).0@ == k;
                assert((#[trigger] s[i]).0@ == k);
            }
        }
        if exists|i: int| 0 <= i < s.len() && (#[trigger] s[i]).0@ == k {
            let i = choose|i: int| 0 <= i < s.len() && (#[trigger] s[i]).0@ == k;
            if i == s.len() - 1 {
                assert(alist_map(s).contains_key(k));
            } else {
                assert((#[trigger] s.drop_last()[i]).0@ == k);
                assert(alist_map(s.drop_last()).contains_key(k));
                assert(alist_map(s).contains_key(k));
            }
        }
    }
}

/// Removing the entry at `i` removes exactly its key from the mapping.
proof fn lemma_alist_remove<V>(s: Seq<(String, V)>, i: int)
    requires
        keys_unique(s),
        0 <= i < s.len(),
    ensures
        alist_map(s.remove(i)) == alist_map(s).remove(s[i].0@),
    decreases s.len(),
{
    let k = s[i].0@;
    if i == s.len() - 1 {
        assert(s.remove(i) =~= s.drop_last());
        lemma_alist_dom(s.drop_last(), k);
        assert(!alist_map(s.drop_last()).contains_key(k)) by {
            if alist_map(s.drop_last()).contains_key(k) {
                let j = choose|j: int|
                    0 <= j < s.drop_last().len() && (#[trigger] s.drop_last()[j]).0@ == k;
                assert((#[trigger] s[j]).0@ == k);
                assert((#[trigger] s[i]).0@ == k);
            }
        }
        assert(alist_map(s.drop_last()).insert(k, s.last().1).remove(k) =~= alist_map(
            s.drop_last(),
        ));
    } else {
        assert(keys_unique(s.drop_last())) by {
            assert forall|a: int, b: int|
                0 <= a < b < s.drop_last().len() implies (#[trigger] s.drop_last()[a]).0@
                != (#[trigger] s.drop_last()[b]).0@ by {
                assert((#[trigger] s[a]).0@ == s.drop_last()[a].0@);
                assert((#[trigger] s[b]).0@ == s.drop_last()[b].0@);
            }
        }
        lemma_alist_remove(s.drop_last(), i);
        assert(s.remove(i).drop_last() =~= s.drop_last().remove(i));
        assert(s.remove(i).last() == s.last());
        assert(s[i].0@ == s.drop_last()[i].0@);
        let lastk = s.last().0@;
        assert(lastk != k) by {
            assert((#[trigger] s[i]).0@ == k);
            assert((#[trigger] s[s.len() - 1]).0@ == lastk);
        }
        assert(alist_map(s.remove(i)) == alist_map(s.drop_last()).remove(k).insert(
            lastk,
            s.last().1,
        ));
        assert(alist_map(s.drop_last()).remove(k).insert(lastk, s.last().1) =~= alist_map(
            s.drop_last(),
        ).insert(lastk, s.last().1).remove(k));
    }
}

/// The keep-alive table: bundles of live resources keyed by ticket text.
/// The bundle type is the host's own; the registry only promises to hold
/// each bundle until its key is removed.
pub struct SendmeState<V> {
    entries: Vec<(String, V)>,
}

impl<V> SendmeState<V> {
    /// The mapping from key text to held bundle.
    pub closed spec fn view(&self) -> Map<Seq<char>, V> {
        alist_map(self.entries@)
    }

    /// One entry per key.
    pub closed spec fn wf(&self) -> bool {
        keys_unique(self.entries@)
    }

    /// An empty registry with an explicit lifecycle: the host creates it,
    /// holds it for the life of the process, and may drop it to release
    /// everything at once.
    pub fn new() -> (r: SendmeState<V>)
        ensures
            r@ == Map::<Seq<char>, V>::empty(),
            r.wf(),
    {
        SendmeState { entries: Vec::new() }
    }

    /// The index holding `ticket`, if any.
    #[verifier::loop_isolation(false)]
    fn find(&self, ticket: &String) -> (r: Option<usize>)
        ensures
            match r {
                Some(i) => i < self.entries@.len() && self.entries@[i as int].0@ == ticket@,
                None => forall|i: int|
                    0 <= i < self.entries@.len() ==> (#[trigger] self.entries@[i]).0@ != ticket@,
            },
    {
        let mut i: usize = 0;
        while i < self.entries.len()
            invariant
                i <= self.entries@.len(),
                forall|j: int|
                    0 <= j < i ==> (#[trigger] self.entries@[j]).0@ != ticket@,
            decreases self.entries@.len() - i,
        {
            if self.entries[i].0 == *ticket {
                return Some(i);
            }
            i += 1;
        }
        None
    }

    /// Hold `sender` alive under `ticket` until removal, replacing whatever
    /// the key held before.
    pub fn add_sender(&mut self, ticket: String, sender: V)
        requires
            old(self).wf(),
        ensures
            final(self).wf(),
            final(self)@ == old(self)@.insert(ticket@, sender),
    {
        let ghost before = self.entries@;
        match self.find(&ticket) {
            Some(i) => {
                proof {
                    lemma_alist_remove(before, i as int);
                }
                let _ = self.entries.remove(i);
                proof {
                    assert(keys_unique(self.entries@)) by {
                        assert forall|a: int, b: int|
                            0 <= a < b < self.entries@.len() implies (#[trigger] self.entries@[a]).0@
                            != (#[trigger] self.entries@[b]).0@ by {
                            let a0 = if a < i { a } else { a + 1 };
                            let b0 = if b < i { b } else { b + 1 };
                            assert(self.entries@[a] == before[a0]);
                            assert(self.entries@[b] == before[b0]);
                        }
                    }
                }
                let ghost mid = self.entries@;
                self.entries.push((ticket, sender));
                proof {
                    assert(self.entries@.drop_last() =~= mid);
                    lemma_alist_dom(mid, self.entries@.last().0@);
                    assert(keys_unique(self.entries@)) by {
                        assert forall|a: int, b: int|
                            0 <= a < b < self.entries@.len() implies (#[trigger] self.entries@[a]).0@
                            != (#[trigger] self.entries@[b]).0@ by {
                            if b == self.entries@.len() - 1 {
                                assert(self.entries@[a] == mid[a]);
                                assert(mid[a].0@ != before[i as int].0@ || a >= i);
                                if self.entries@[a].0@ == self.entries@[b].0@ {
                                    let a0 = if a < i { a } else { a + 1 };
                                    assert(mid[a] == before[a0]);
                                    assert(before[a0].0@ == before[i as int].0@);
                                }
                            } else {
                                assert(self.entries@[a] == mid[a]);
                                assert(self.entries@[b] == mid[b]);
                            }
                        }
                    }
                    assert(alist_map(self.entries@) =~= alist_map(before).insert(
                        self.entries@.last().0@,
                        self.entries@.last().1,
                    ));
                }
            },
            None => {
                self.entries.push((ticket, sender));
                proof {
                    assert(self.entries@.drop_last() =~= before);
                    assert(keys_unique(self.entries@)) by {
                        assert forall|a: int, b: int|
                            0 <= a < b < self.entries@.len() implies (#[trigger] self.entries@[a]).0@
                            != (#[trigger] self.entries@[b]).0@ by {
                            if b == self.entries@.len() - 1 {
                                assert(self.entries@[a] == before[a]);
                            } else {
                                assert(self.entries@[a] == before[a]);
                                assert(self.entries@[b] == before[b]);
                            }
                        }
                    }
                }
            },
        }
    }

    /// Release whatever `ticket` holds; a no-op on an unknown key.
    pub fn remove_sender(&mut self, ticket: &String)
        requires
            old(self).wf(),
        ensures
            final(self).wf(),
            final(self)@ == old(self)@.remove(ticket@),
    {
        let ghost before = self.entries@;
        match self.find(ticket) {
            Some(i) => {
                proof {
                    lemma_alist_remove(before, i as int);
                }
                let _ = self.entries.remove(i);
                proof {
                    assert(keys_unique(self.entries@)) by {
                        assert forall|a: int, b: int|
                            0 <= a < b < self.entries@.len() implies (#[trigger] self.entries@[a]).0@
                            != (#[trigger] self.entries@[b]).0@ by {
                            let a0 = if a < i { a } else { a + 1 };
                            let b0 = if b < i { b } else { b + 1 };
                            assert(self.entries@[a] == before[a0]);
                            assert(self.entries@[b] == before[b0]);
                        }
                    }
                }
            },
            None => {
                proof {
                    lemma_alist_dom(before, ticket@);
                    assert(!alist_map(before).contains_key(ticket@));
                    assert(alist_map(before).remove(ticket@) =~= alist_map(before));
                }
            },
        }
    }

    /// Whether `ticket` currently holds a bundle.
    pub fn contains_key(&self, ticket: &String) -> (r: bool)
        ensures
            r == self@.contains_key(ticket@),
    {
        proof {
            lemma_alist_dom(self.entries@, ticket@);
        }
        match self.find(ticket) {
            Some(_) => true,
            None => false,
        }
    }
}

} // verus!
