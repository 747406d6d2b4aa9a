//! The window-state cache: a mapping from window label (as its UTF-8
//! bytes) to the window's last-known [`WindowMetadata`].
//!
//! The mapping is modelled as a sequence of label/metadata pairs with
//! pairwise-distinct labels; insertion order is kept, which makes the
//! persisted encoding of a store deterministic.

use vstd::prelude::*;
use vstd::string::*;

use crate::metadata::WindowMetadata;

verus! {

/// The mathematical content of a store: the cached records in insertion
/// order, each keyed by the window label's UTF-8 bytes.
pub type StoreModel = Seq<(Seq<u8>, WindowMetadata)>;

/// Well-formedness of a store model: labels are pairwise distinct and
/// every count fits the persisted format's 64-bit length fields.
pub open spec fn wf_store(v: StoreModel) -> bool {
    &&& v.len() <= u64::MAX
    &&& (forall|i: int| 0 <= i < v.len() ==> #[trigger] v[i].0.len() <= u64::MAX)
    &&& (forall|i: int, j: int| 0 <= i < j < v.len() ==> v[i].0 != v[j].0)
}

/// Whether some entry carries the label `l`.
pub open spec fn has_label(v: StoreModel, l: Seq<u8>) -> bool {
    exists|i: int| 0 <= i < v.len() && #[trigger] v[i].0 == l
}

/// The index of the entry labelled `l` (meaningful when `has_label`).
pub open spec fn label_index(v: StoreModel, l: Seq<u8>) -> int {
    choose|i: int| 0 <= i < v.len() && #[trigger] v[i].0 == l
}

/// The metadata stored under label `l`, if any.
pub open spec fn lookup(v: StoreModel, l: Seq<u8>) -> Option<WindowMetadata> {
    if has_label(v, l) {
        Some(v[label_index(v, l)].1)
    } else {
        None
    }
}

/// The store with the metadata of every entry labelled `l` replaced by
/// `m`; entries under other labels are untouched.
pub open spec fn upd_entry(v: StoreModel, l: Seq<u8>, m: WindowMetadata) -> StoreModel {
    v.map(|i: int, e: (Seq<u8>, WindowMetadata)| if e.0 == l { (e.0, m) } else { e })
}

/// In a well-formed store, an entry at index `i` is the one `lookup` finds.
pub proof fn lemma_lookup_at(v: StoreModel, l: Seq<u8>, i: int)
    requires
        wf_store(v),
        0 <= i < v.len(),
        v[i].0 == l,
    ensures
        lookup(v, l) == Some(v[i].1),
        label_index(v, l) == i,
{
    assert(has_label(v, l));
    let j = label_index(v, l);
    if j < i {
        assert(v[j].0 != v[i].0);
    } else if i < j {
        assert(v[i].0 != v[j].0);
    }
}

/// `upd_entry` leaves length and labels alone, rewrites the one entry,
/// and preserves well-formedness.
pub proof fn lemma_upd_entry(v: StoreModel, l: Seq<u8>, m: WindowMetadata)
    requires
        wf_store(v),
        has_label(v, l),
    ensures
        wf_store(upd_entry(v, l, m)),
        upd_entry(v, l, m).len() == v.len(),
        forall|i: int| 0 <= i < v.len() ==> (#[trigger] upd_entry(v, l, m)[i]).0 == v[i].0,
        lookup(upd_entry(v, l, m), l) == Some(m),
        forall|l2: Seq<u8>| l2 != l ==> #[trigger] lookup(upd_entry(v, l, m), l2) == lookup(v, l2),
{
    let w = upd_entry(v, l, m);
    assert(forall|i: int| 0 <= i < v.len() ==> (#[trigger] w[i]) == (if v[i].0 == l {
        (v[i].0, m)
    } else {
        v[i]
    }));
    let i = label_index(v, l);
    lemma_lookup_at(v, l, i);
    lemma_lookup_at(w, l, i);
    assert forall|l2: Seq<u8>| l2 != l implies #[trigger] lookup(w, l2) == lookup(v, l2) by {
        if has_label(v, l2) {
            let k = label_index(v, l2);
            lemma_lookup_at(v, l2, k);
            lemma_lookup_at(w, l2, k);
        } else {
            assert(!has_label(w, l2)) by {
                if has_label(w, l2) {
                    let k = label_index(w, l2);
                    assert(v[k].0 == l2);
                }
            }
        }
    }
}

/// Appending an entry under a fresh label preserves well-formedness and
/// changes no other lookup.
pub proof fn lemma_push_entry(v: StoreModel, l: Seq<u8>, m: WindowMetadata)
    requires
        wf_store(v),
        !has_label(v, l),
        v.len() < u64::MAX,
        l.len() <= u64::MAX,
    ensures
        wf_store(v.push((l, m))),
        lookup(v.push((l, m)), l) == Some(m),
        forall|l2: Seq<u8>| l2 != l ==> #[trigger] lookup(v.push((l, m)), l2) == lookup(v, l2),
{
    let w = v.push((l, m));
    assert(forall|i: int| 0 <= i < v.len() ==> w[i] == v[i]);
    assert(w[v.len() as int].0 == l);
    assert forall|i: int, j: int| 0 <= i < j < w.len() implies w[i].0 != w[j].0 by {
        if j < v.len() {
        } else {
            assert(w[i].0 == v[i].0);
            if v[i].0 == l {
                assert(has_label(v, l));
            }
        }
    }
    lemma_lookup_at(w, l, v.len() as int);
    assert forall|l2: Seq<u8>| l2 != l implies #[trigger] lookup(w, l2) == lookup(v, l2) by {
        if has_label(v, l2) {
            let k = label_index(v, l2);
            lemma_lookup_at(v, l2, k);
            lemma_lookup_at(w, l2, k);
        } else {
            assert(!has_label(w, l2)) by {
                if has_label(w, l2) {
                    let k = label_index(w, l2);
                    assert(w[k].0 == l2);
                    assert(k == v.len());
                }
            }
        }
    }
}

/// One cached record together with its label.
struct StoreEntry {
    label: Vec<u8>,
    meta: WindowMetadata,
}

/// The in-memory window-state cache.
///
/// Entries are kept in insertion order and never removed; a label's
/// record survives the window it described, so that a later window with
/// the same label can be restored from it.
pub struct WindowStore {
    entries: Vec<StoreEntry>,
}

impl View for WindowStore {
    type V = StoreModel;

    closed spec fn view(&self) -> StoreModel {
        Seq::new(self.entries@.len(), |i: int| (self.entries@[i].label@, self.entries@[i].meta))
    }
}

/// Equality of two byte slices, element by element.
pub fn bytes_eq(a: &[u8], b: &[u8]) -> (r: bool)
    ensures
        r == (a@ == b@),
{
    if a.len() != b.len() {
        proof {
            if a@ == b@ {
                assert(a@.len() == b@.len());
            }
        }
        return false;
    }
    let n = a.len();
    let mut i: usize = 0;
    while i < n
        invariant
            n == a@.len(),
            n == b@.len(),
            i <= n,
            forall|k: int| 0 <= k < i ==> a@[k] == b@[k],
        decreases n - i,
    {
        if a[i] != b[i] {
            return false;
        }
        i = i + 1;
    }
    proof {
        assert(a@ =~= b@);
    }
    true
}

impl WindowStore {
    /// Well-formedness: the labels of the cached entries are distinct.
    pub open spec fn wf(self) -> bool {
        wf_store(self@)
    }

    /// An empty store.
    pub fn new() -> (r: WindowStore)
        ensures
            r.wf(),
            r@ == Seq::<(Seq<u8>, WindowMetadata)>::empty(),
    {
        let r = WindowStore { entries: Vec::new() };
        proof {
            assert(r@ =~= Seq::<(Seq<u8>, WindowMetadata)>::empty());
        }
        r
    }

    /// How many windows are cached.
    pub fn len(&self) -> (n: usize)
        ensures
            n == self@.len(),
    {
        self.entries.len()
    }

    /// The label of the entry at index `i`.
    pub(crate) fn label_at(&self, i: usize) -> (l: &Vec<u8>)
        requires
            i < self@.len(),
        ensures
            l@ == self@[i as int].0,
    {
        &self.entries[i].label
    }

    /// The metadata of the entry at index `i`.
    pub(crate) fn meta_at(&self, i: usize) -> (m: WindowMetadata)
        requires
            i < self@.len(),
        ensures
            m == self@[i as int].1,
    {
        self.entries[i].meta
    }

    /// Append an entry with an already-owned label, without looking at
    /// the labels already present.
    pub(crate) fn push_raw(&mut self, label: Vec<u8>, meta: WindowMetadata)
        ensures
            final(self)@ == old(self)@.push((label@, meta)),
    {
        self.entries.push(StoreEntry { label, meta });
        proof {
            assert(self@ =~= old(self)@.push((label@, meta)));
        }
    }

    /// The index of the entry labelled by `label`'s bytes, if one exists.
    pub(crate) fn find(&self, label: &[u8]) -> (r: Option<usize>)
        requires
            self.wf(),
        ensures
            (match r {
                Some(i) => i < self@.len() && self@[i as int].0 == label@ && has_label(
                    self@,
                    label@,
                ) && label_index(self@, label@) == i,
                None => !has_label(self@, label@),
            }),
    {
        let n = self.entries.len();
        let mut i: usize = 0;
        while i < n
            invariant
                self.wf(),
                n == self@.len(),
                i <= n,
                forall|k: int| 0 <= k < i ==> (#[trigger] self@[k]).0 != label@,
            decreases n - i,
        {
            if bytes_eq(self.entries[i].label.as_slice(), label) {
                proof {
                    lemma_lookup_at(self@, label@, i as int);
                }
                return Some(i);
            }
            i = i + 1;
        }
        proof {
            if has_label(self@, label@) {
                let k = label_index(self@, label@);
                lemma_lookup_at(self@, label@, k);
            }
        }
        None
    }

    /// The cached record for `label`, if any.
    pub fn get(&self, label: &str) -> (r: Option<WindowMetadata>)
        requires
            self.wf(),
        ensures
            r == lookup(self@, label.spec_bytes()),
    {
        match self.find(label.as_bytes()) {
            Some(i) => {
                proof {
                    lemma_lookup_at(self@, label.spec_bytes(), i as int);
                }
                Some(self.entries[i].meta)
            },
            None => None,
        }
    }

    /// Store `meta` under `label`: the existing entry is overwritten, or
    /// a new entry is appended if the label was never seen.
    pub fn insert(&mut self, label: &str, meta: WindowMetadata)
        requires
            old(self).wf(),
            old(self)@.len() < u64::MAX,
        ensures
            final(self).wf(),
            final(self)@ == (if has_label(old(self)@, label.spec_bytes()) {
                upd_entry(old(self)@, label.spec_bytes(), meta)
            } else {
                old(self)@.push((label.spec_bytes(), meta))
            }),
            lookup(final(self)@, label.spec_bytes()) == Some(meta),
            forall|l2: Seq<u8>| l2 != label.spec_bytes() ==> #[trigger] lookup(final(self)@, l2)
                == lookup(old(self)@, l2),
    {
        let lb = label.as_bytes();
        match self.find(lb) {
            Some(i) => {
                self.entries[i].meta = meta;
                proof {
                    assert(self@ =~= upd_entry(old(self)@, label.spec_bytes(), meta));
                    lemma_upd_entry(old(self)@, label.spec_bytes(), meta);
                }
            },
            None => {
                let owned: Vec<u8> = label.as_bytes_vec();
                let owned_len: usize = owned.len();
                self.entries.push(StoreEntry { label: owned, meta });
                proof {
                    assert(self@ =~= old(self)@.push((label.spec_bytes(), meta)));
                    assert(label.spec_bytes().len() == owned_len);
                    assert(owned_len as int <= u64::MAX as int);
                    lemma_push_entry(old(self)@, label.spec_bytes(), meta);
                }
            },
        }
    }

    /// Overwrite the metadata of the entry for `label`, if one exists; a
    /// store without such an entry is left unchanged.
    pub fn set_meta(&mut self, label: &str, meta: WindowMetadata)
        requires
            old(self).wf(),
        ensures
            final(self).wf(),
            final(self)@ == (if has_label(old(self)@, label.spec_bytes()) {
                upd_entry(old(self)@, label.spec_bytes(), meta)
            } else {
                old(self)@
            }),
    {
        let lb = label.as_bytes();
        match self.find(lb) {
            Some(i) => {
                self.entries[i].meta = meta;
                proof {
                    assert(self@ =~= upd_entry(old(self)@, label.spec_bytes(), meta));
                    lemma_upd_entry(old(self)@, label.spec_bytes(), meta);
                }
            },
            None => {},
        }
    }
}

} // verus!
