//! Configuration of the window-state cache: whether a window is shown
//! automatically once restored, and which labels are excluded from
//! tracking altogether.

use vstd::prelude::*;
use vstd::string::*;

use crate::store::bytes_eq;

verus! {

/// Configuration builder.
///
/// `auto_show` (default `true`) governs whether the ready protocol asks
/// for a restored or newly tracked window to be shown and focused;
/// `blacklist` (default empty) holds the labels of windows excluded from
/// all tracking and restoration.
pub struct Builder {
    auto_show: bool,
    blacklist: Vec<Vec<u8>>,
}

impl Builder {
    /// The configured auto-show flag.
    pub closed spec fn spec_auto_show(self) -> bool {
        self.auto_show
    }

    /// The configured blacklist, each label as its UTF-8 bytes.
    pub closed spec fn spec_blacklist(self) -> Seq<Seq<u8>> {
        Seq::new(self.blacklist@.len(), |i: int| self.blacklist@[i]@)
    }

    /// Whether to enable or disable automatically showing the window:
    /// with `true`, a window whose last stored visibility was `true` is
    /// shown once restored; with `false`, no window is ever shown by
    /// this library.
    pub fn with_auto_show(self, auto_show: bool) -> (r: Self)
        ensures
            r.spec_auto_show() == auto_show,
            r.spec_blacklist() == self.spec_blacklist(),
    {
        Builder { auto_show, blacklist: self.blacklist }
    }

    /// Exclude the given labels from tracking and restoration.  An empty
    /// list leaves the configured blacklist as it was.
    pub fn with_blacklist(self, blacklist: &[&str]) -> (r: Self)
        ensures
            r.spec_auto_show() == self.spec_auto_show(),
            r.spec_blacklist() == (if blacklist@.len() == 0 {
                self.spec_blacklist()
            } else {
                Seq::new(blacklist@.len(), |i: int| blacklist@[i].spec_bytes())
            }),
    {
        if blacklist.is_empty() {
            return Builder { auto_show: self.auto_show, blacklist: self.blacklist };
        }
        let n = blacklist.len();
        let mut set: Vec<Vec<u8>> = Vec::new();
        let mut i: usize = 0;
        while i < n
            invariant
                n == blacklist@.len(),
                i <= n,
                set@.len() == i,
                forall|k: int| 0 <= k < i ==> (#[trigger] set@[k])@ == blacklist@[k].spec_bytes(),
            decreases n - i,
        {
            let s: &str = blacklist[i];
            set.push(s.as_bytes_vec());
            i = i + 1;
        }
        let r = Builder { auto_show: self.auto_show, blacklist: set };
        proof {
            assert(r.spec_blacklist() =~= Seq::new(
                blacklist@.len(),
                |i: int| blacklist@[i].spec_bytes(),
            ));
        }
        r
    }

    /// The configured auto-show flag.
    pub fn auto_show(&self) -> (r: bool)
        ensures
            r == self.spec_auto_show(),
    {
        self.auto_show
    }

    /// Whether `label` is excluded by the configured blacklist.
    pub fn is_blacklisted(&self, label: &str) -> (r: bool)
        ensures
            r == self.spec_blacklist().contains(label.spec_bytes()),
    {
        let lb = label.as_bytes();
        let n = self.blacklist.len();
        let mut i: usize = 0;
        while i < n
            invariant
                n == self.blacklist@.len(),
                i <= n,
                lb@ == label.spec_bytes(),
                forall|k: int| 0 <= k < i ==> (#[trigger] self.blacklist@[k])@
                    != label.spec_bytes(),
            decreases n - i,
        {
            if bytes_eq(self.blacklist[i].as_slice(), lb) {
                proof {
                    assert(self.spec_blacklist()[i as int] == label.spec_bytes());
                }
                return true;
            }
            i = i + 1;
        }
        proof {
            if self.spec_blacklist().contains(label.spec_bytes()) {
                let k = choose|k: int|
                    0 <= k < self.spec_blacklist().len() && self.spec_blacklist()[k]
                        == label.spec_bytes();
                assert((self.blacklist@[k])@ == label.spec_bytes());
            }
        }
        false
    }
}

impl Default for Builder {
    /// The default configuration: auto-show enabled, no blacklist.
    fn default() -> (r: Self)
        ensures
            r.spec_auto_show() == true,
            r.spec_blacklist() == Seq::<Seq<u8>>::empty(),
    {
        let r = Builder { auto_show: true, blacklist: Vec::new() };
        proof {
            assert(r.spec_blacklist() =~= Seq::<Seq<u8>>::empty());
        }
        r
    }
}

} // verus!
