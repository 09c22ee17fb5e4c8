//! Host-supplied resource bytes, keyed by URL.
//!
//! The host resolves and fetches non-`data:` URLs and hands the document
//! their bytes, one entry at a time or as a complete ledger. A change that
//! leaves the ledger as it was causes no relayout.

use vstd::prelude::*;
use crate::document::LayoutDamageKind;

verus! {

/// Whether two byte strings are equal.
pub fn same_bytes(a: &Vec<u8>, b: &Vec<u8>) -> (same: bool)
    ensures
        same == (a@ == b@),
{
    if a.len() != b.len() {
        return false;
    }
    let mut i: usize = 0;
    while i < a.len()
        invariant
            a@.len() == b@.len(),
            i <= a@.len(),
            forall|j: int| 0 <= j < i ==> a@[j] == b@[j],
        decreases a@.len() - i,
    {
        if a[i] != b[i] {
            return false;
        }
        i = i + 1;
    }
    assert(a@ =~= b@);
    true
}

/// Copy a URL.
fn copy_text(text: &String) -> (copy: String)
    ensures
        copy@ == text@,
{
    text.clone()
}

/// Copy bytes.
fn copy_bytes(bytes: &Vec<u8>) -> (copy: Vec<u8>)
    ensures
        copy@ == bytes@,
{
    let copy = bytes.clone();
    assert(copy@ =~= bytes@);
    copy
}

/// Whether supplying `bytes` for `url` changes a ledger.
pub open spec fn supplying_changes(ledger: Map<Seq<char>, Seq<u8>>, url: Seq<char>, bytes: Seq<u8>) -> bool {
    !(ledger.contains_key(url) && ledger[url] == bytes)
}

/// The ledger a list of entries makes when later entries replace earlier
/// ones with the same URL.
pub open spec fn collected(entries: Seq<(String, Vec<u8>)>) -> Map<Seq<char>, Seq<u8>>
    decreases entries.len(),
{
    if entries.len() == 0 {
        Map::empty()
    } else {
        collected(entries.drop_last()).insert(entries.last().0@, entries.last().1@)
    }
}

/// Resource bytes by URL, each URL once.
pub struct ResourceLedger {
    urls: Vec<String>,
    bytes: Vec<Vec<u8>>,
}

impl ResourceLedger {
    #[verifier::type_invariant]
    closed spec fn distinct_urls(&self) -> bool {
        &&& self.urls@.len() == self.bytes@.len()
        &&& forall|i: int, j: int|
            0 <= i < j < self.urls@.len() ==> (#[trigger] self.urls@[i])@ != (#[trigger] self.urls@[j])@
    }

    /// The ledger as a map from URL text to bytes.
    pub closed spec fn spec_map(&self) -> Map<Seq<char>, Seq<u8>> {
        Map::new(
            |url: Seq<char>| exists|i: int| 0 <= i < self.urls@.len() && self.urls@[i]@ == url,
            |url: Seq<char>|
                self.bytes@[choose|i: int| 0 <= i < self.urls@.len() && self.urls@[i]@ == url]@,
        )
    }

    /// An empty ledger.
    pub fn new() -> (ledger: Self)
        ensures
            ledger.spec_map() == Map::<Seq<char>, Seq<u8>>::empty(),
    {
        let ledger = ResourceLedger { urls: Vec::new(), bytes: Vec::new() };
        assert(ledger.spec_map() =~= Map::<Seq<char>, Seq<u8>>::empty());
        ledger
    }

    /// The number of URLs.
    pub fn len(&self) -> (count: usize)
        ensures
            count == self.spec_map().dom().len(),
    {
        proof {
            use_type_invariant(self);
            self.lemma_len();
        }
        self.urls.len()
    }

    proof fn lemma_len(&self)
        requires
            self.distinct_urls(),
        ensures
            self.spec_map().dom().len() == self.urls@.len(),
            self.spec_map().dom().finite(),
    {
        let views = Seq::new(self.urls@.len(), |i: int| self.urls@[i]@);
        assert(views.no_duplicates()) by {
            assert forall|a: int, b: int| 0 <= a < views.len() && 0 <= b < views.len() && a != b implies views[a]
                != views[b] by {
                if a < b {
                    assert(self.urls@[a]@ != self.urls@[b]@);
                } else {
                    assert(self.urls@[b]@ != self.urls@[a]@);
                }
            }
        }
        views.unique_seq_to_set();
        assert(self.spec_map().dom() =~= views.to_set()) by {
            assert forall|url: Seq<char>| self.spec_map().dom().contains(url) implies views.to_set().contains(url) by {
                let i = choose|i: int| 0 <= i < self.urls@.len() && self.urls@[i]@ == url;
                assert(views[i] == url);
            }
            assert forall|url: Seq<char>| views.to_set().contains(url) implies self.spec_map().dom().contains(url) by {
                let i = choose|i: int| 0 <= i < views.len() && views[i] == url;
                assert(self.urls@[i]@ == url);
            }
        }
    }

    fn position(&self, url: &str) -> (found: Option<usize>)
        ensures
            match found {
                Some(i) => i < self.urls@.len() && self.urls@[i as int]@ == url@,
                None => forall|i: int| 0 <= i < self.urls@.len() ==> self.urls@[i]@ != url@,
            },
    {
        let mut i: usize = 0;
        while i < self.urls.len()
            invariant
                i <= self.urls@.len(),
                forall|j: int| 0 <= j < i ==> self.urls@[j]@ != url@,
            decreases self.urls@.len() - i,
        {
            if crate::text::str_equal(self.urls[i].as_str(), url) {
                return Some(i);
            }
            i = i + 1;
        }
        None
    }

    proof fn lemma_entry(&self, i: int)
        requires
            self.distinct_urls(),
            0 <= i < self.urls@.len(),
        ensures
            self.spec_map().contains_key(self.urls@[i]@),
            self.spec_map()[self.urls@[i]@] == self.bytes@[i]@,
    {
        let url = self.urls@[i]@;
        let c = choose|c: int| 0 <= c < self.urls@.len() && self.urls@[c]@ == url;
        if c != i {
            if c < i {
                assert(self.urls@[c]@ != self.urls@[i]@);
            } else {
                assert(self.urls@[i]@ != self.urls@[c]@);
            }
        }
    }

    /// The bytes supplied for a URL.
    pub fn get(&self, url: &str) -> (bytes: Option<&Vec<u8>>)
        ensures
            match bytes {
                Some(b) => self.spec_map().contains_key(url@) && self.spec_map()[url@] == b@,
                None => !self.spec_map().contains_key(url@),
            },
    {
        proof {
            use_type_invariant(self);
        }
        match self.position(url) {
            Some(i) => {
                proof {
                    self.lemma_entry(i as int);
                }
                Some(&self.bytes[i])
            },
            None => None,
        }
    }

    /// Supply the bytes for one URL. Reports whether the ledger changed:
    /// supplying the bytes a URL already has changes nothing.
    pub fn set_resource(&mut self, url: String, bytes: Vec<u8>) -> (changed: bool)
        ensures
            final(self).spec_map() == old(self).spec_map().insert(url@, bytes@),
            changed == supplying_changes(old(self).spec_map(), url@, bytes@),
    {
        proof {
            use_type_invariant(&*self);
        }
        let ghost before = self.spec_map();
        match self.position(url.as_str()) {
            Some(i) => {
                proof {
                    self.lemma_entry(i as int);
                }
                if same_bytes(&self.bytes[i], &bytes) {
                    proof {
                        assert(before.insert(url@, bytes@) =~= before);
                    }
                    return false;
                }
                let mut current = ResourceLedger::new();
                std::mem::swap(&mut current, self);
                let ResourceLedger { urls, bytes: mut all_bytes } = current;
                let ghost old_urls = urls@;
                let ghost old_bytes = all_bytes@;
                all_bytes.set(i, bytes);
                *self = ResourceLedger { urls, bytes: all_bytes };
                proof {
                    use_type_invariant(&*self);
                    assert forall|u: Seq<char>|
                        #![auto]
                        self.spec_map().contains_key(u) == before.insert(url@, bytes@).contains_key(u) by {
                        if u == url@ {
                            assert(self.urls@[i as int]@ == u);
                        }
                    }
                    assert forall|u: Seq<char>|
                        #![auto]
                        self.spec_map().contains_key(u) implies self.spec_map()[u] == before.insert(
                            url@,
                            bytes@,
                        )[u] by {
                        let k = choose|k: int| 0 <= k < self.urls@.len() && self.urls@[k]@ == u;
                        self.lemma_entry(k);
                        if k != i {
                            assert(old_urls[k]@ == u);
                            assert(u != url@);
                            assert(before.contains_key(u));
                            let c = choose|c: int| 0 <= c < old_urls.len() && old_urls[c]@ == u;
                            if c != k {
                                if c < k {
                                    assert(old_urls[c]@ != old_urls[k]@);
                                } else {
                                    assert(old_urls[k]@ != old_urls[c]@);
                                }
                            }
                        }
                    }
                    assert(self.spec_map() =~= before.insert(url@, bytes@));
                }
                true
            },
            None => {
                let mut current = ResourceLedger::new();
                std::mem::swap(&mut current, self);
                let ResourceLedger { mut urls, bytes: mut all_bytes } = current;
                let ghost old_urls = urls@;
                let ghost old_bytes = all_bytes@;
                proof {
                    assert forall|k: int| 0 <= k < old_urls.len() implies old_urls[k]@ != url@ by {
                    }
                }
                urls.push(url);
                all_bytes.push(bytes);
                *self = ResourceLedger { urls, bytes: all_bytes };
                proof {
                    use_type_invariant(&*self);
                    let n = old_urls.len() as int;
                    self.lemma_entry(n);
                    assert forall|u: Seq<char>|
                        #![auto]
                        self.spec_map().contains_key(u) == before.insert(url@, bytes@).contains_key(u) by {
                        if before.contains_key(u) {
                            let c = choose|c: int| 0 <= c < old_urls.len() && old_urls[c]@ == u;
                            assert(self.urls@[c]@ == u);
                        }
                        if self.spec_map().contains_key(u) && u != url@ {
                            let k = choose|k: int| 0 <= k < self.urls@.len() && self.urls@[k]@ == u;
                            assert(k < n);
                            assert(old_urls[k]@ == u);
                        }
                    }
                    assert forall|u: Seq<char>|
                        #![auto]
                        self.spec_map().contains_key(u) implies self.spec_map()[u] == before.insert(
                            url@,
                            bytes@,
                        )[u] by {
                        let k = choose|k: int| 0 <= k < self.urls@.len() && self.urls@[k]@ == u;
                        self.lemma_entry(k);
                        if k != n {
                            assert(old_urls[k]@ == u);
                            let c = choose|c: int| 0 <= c < old_urls.len() && old_urls[c]@ == u;
                            if c != k {
                                if c < k {
                                    assert(old_urls[c]@ != old_urls[k]@);
                                } else {
                                    assert(old_urls[k]@ != old_urls[c]@);
                                }
                            }
                        }
                    }
                    assert(self.spec_map() =~= before.insert(url@, bytes@));
                }
                true
            },
        }
    }

    /// Whether every entry of this ledger is in `other` with the same bytes.
    fn entries_within(&self, other: &ResourceLedger) -> (within: bool)
        ensures
            within == forall|u: Seq<char>|
                #[trigger] self.spec_map().contains_key(u) ==> other.spec_map().contains_key(u)
                    && other.spec_map()[u] == self.spec_map()[u],
    {
        proof {
            use_type_invariant(self);
        }
        let mut i: usize = 0;
        while i < self.urls.len()
            invariant
                self.distinct_urls(),
                i <= self.urls@.len(),
                forall|j: int|
                    0 <= j < i ==> other.spec_map().contains_key((#[trigger] self.urls@[j])@)
                        && other.spec_map()[self.urls@[j]@] == self.bytes@[j]@,
            decreases self.urls@.len() - i,
        {
            proof {
                self.lemma_entry(i as int);
            }
            match other.get(self.urls[i].as_str()) {
                Some(theirs) => {
                    if !same_bytes(theirs, &self.bytes[i]) {
                        return false;
                    }
                    assert(other.spec_map().contains_key(self.urls@[i as int]@));
                    assert(other.spec_map()[self.urls@[i as int]@] == self.bytes@[i as int]@);
                },
                None => {
                    return false;
                },
            }
            i = i + 1;
        }
        proof {
            assert forall|u: Seq<char>|
                #[trigger] self.spec_map().contains_key(u) implies other.spec_map().contains_key(u)
                    && other.spec_map()[u] == self.spec_map()[u] by {
                let k = choose|k: int| 0 <= k < self.urls@.len() && self.urls@[k]@ == u;
                self.lemma_entry(k);
            }
        }
        true
    }

    /// Replace the whole ledger; a later entry for a URL replaces an earlier
    /// one. Reports whether the ledger changed, so that a URL missing from
    /// the new ledger stops being painted from stale bytes.
    pub fn replace_resources(&mut self, resources: Vec<(String, Vec<u8>)>) -> (changed: bool)
        ensures
            final(self).spec_map() == collected(resources@),
            changed == (old(self).spec_map() != collected(resources@)),
    {
        let mut next = ResourceLedger::new();
        let mut i: usize = 0;
        while i < resources.len()
            invariant
                i <= resources@.len(),
                next.spec_map() == collected(resources@.take(i as int)),
            decreases resources@.len() - i,
        {
            proof {
                assert(resources@.take(i + 1).drop_last() =~= resources@.take(i as int));
            }
            let url = copy_text(&resources[i].0);
            let bytes = copy_bytes(&resources[i].1);
            let _ = next.set_resource(url, bytes);
            i = i + 1;
        }
        proof {
            assert(resources@.take(resources@.len() as int) =~= resources@);
        }
        let same = self.entries_within(&next) && next.entries_within(self);
        proof {
            if same {
                assert forall|u: Seq<char>| #[trigger] self.spec_map().contains_key(u) == next.spec_map().contains_key(u) by {
                    if self.spec_map().contains_key(u) {
                        assert(next.spec_map().contains_key(u));
                    }
                    if next.spec_map().contains_key(u) {
                        assert(self.spec_map().contains_key(u));
                    }
                }
                assert forall|u: Seq<char>| #[trigger] self.spec_map().contains_key(u) implies self.spec_map()[u] == next.spec_map()[u] by {
                    assert(next.spec_map().contains_key(u));
                }
                assert(self.spec_map() =~= next.spec_map());
            }
        }
        *self = next;
        !same
    }
}

/// The damage a resource change records, if any: a change that leaves the
/// ledger as it was records none.
pub fn resource_damage(changed: bool) -> (kind: Option<LayoutDamageKind>)
    ensures
        kind == (if changed {
            Some(LayoutDamageKind::Resource)
        } else {
            None
        }),
{
    if changed {
        Some(LayoutDamageKind::Resource)
    } else {
        None
    }
}

/// Supplying the same bytes for a URL again changes nothing, and leaves the
/// ledger as the first supply left it.
pub proof fn law_resupplying_bytes_changes_nothing(
    ledger: Map<Seq<char>, Seq<u8>>,
    url: Seq<char>,
    bytes: Seq<u8>,
)
    ensures
        !supplying_changes(ledger.insert(url, bytes), url, bytes),
        ledger.insert(url, bytes).insert(url, bytes) == ledger.insert(url, bytes),
{
    assert(ledger.insert(url, bytes).insert(url, bytes) =~= ledger.insert(url, bytes));
}

} // verus!
