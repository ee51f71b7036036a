//! Update-check bookkeeping: comparing the running version against a
//! published release tag. The HTTP fetch of the tag is outside work;
//! this module owns every decision about what the fetched tag means.

use vstd::prelude::*;
use crate::text::str_eq;

verus! {

/// The outcome of one update check.
#[derive(Debug)]
pub struct VersionInfo {
    pub current: String,
    pub latest: Option<String>,
    pub has_update: bool,
    pub error: Option<String>,
}

/// Mathematical value of a [`VersionInfo`].
pub struct VersionInfoV {
    pub current: Seq<char>,
    pub latest: Option<Seq<char>>,
    pub has_update: bool,
    pub error: Option<Seq<char>>,
}

impl View for VersionInfo {
    type V = VersionInfoV;

    open spec fn view(&self) -> VersionInfoV {
        VersionInfoV {
            current: self.current@,
            latest: match self.latest {
                Some(ref s) => Some(s@),
                None => None,
            },
            has_update: self.has_update,
            error: match self.error {
                Some(ref s) => Some(s@),
                None => None,
            },
        }
    }
}

/// A version text with its leading `v` letters removed.
pub open spec fn spec_trim_v(s: Seq<char>) -> Seq<char>
    decreases s.len(),
{
    if s.len() > 0 && s[0] == 'v' {
        spec_trim_v(s.skip(1))
    } else {
        s
    }
}

proof fn lemma_trim_v_suffix(s: Seq<char>, i: int)
    requires
        0 <= i <= s.len(),
        forall|k: int| 0 <= k < i ==> s[k] == 'v',
        i == s.len() || s[i] != 'v',
    ensures
        spec_trim_v(s) == s.skip(i),
    decreases i,
{
    if i == 0 {
        assert(spec_trim_v(s) =~= s.skip(0));
    } else {
        assert(s[0] == 'v');
        let t = s.skip(1);
        assert forall|k: int| 0 <= k < i - 1 implies t[k] == 'v' by {
            assert(t[k] == s[k + 1]);
        }
        if i - 1 < t.len() {
            assert(t[i - 1] == s[i]);
        }
        lemma_trim_v_suffix(t, i - 1);
        assert(t.skip(i - 1) =~= s.skip(i));
    }
}

fn trim_v(s: &str) -> (r: String)
    ensures
        r@ == spec_trim_v(s@),
{
    let n = s.unicode_len();
    let mut i: usize = 0;
    while i < n && s.get_char(i) == 'v'
        invariant
            i <= n,
            n == s@.len(),
            forall|k: int| 0 <= k < i ==> s@[k] == 'v',
        decreases n - i,
    {
        i = i + 1;
    }
    proof {
        lemma_trim_v_suffix(s@, i as int);
    }
    let t = s.substring_char(i, n);
    proof {
        assert(t@ =~= s@.skip(i as int));
    }
    t.to_owned()
}

impl VersionInfo {
    /// The outcome when a release tag was fetched: the tag with its
    /// leading `v` removed is the latest version, and an update exists
    /// exactly when it differs from the similarly trimmed running
    /// version.
    pub fn from_release_tag(current: &str, tag: &str) -> (r: VersionInfo)
        ensures
            r@.current == current@,
            r@.latest == Some(spec_trim_v(tag@)),
            r@.has_update == (spec_trim_v(tag@) != spec_trim_v(current@)),
            r@.error is None,
    {
        let latest = trim_v(tag);
        let current_trimmed = trim_v(current);
        let same = str_eq(&latest, current_trimmed.as_str());
        VersionInfo {
            current: current.to_owned(),
            latest: Some(latest),
            has_update: !same,
            error: None,
        }
    }

    /// The outcome when no release tag could be had: no update is
    /// claimed, and the reason is carried to the caller.
    pub fn check_failed(current: &str, error: String) -> (r: VersionInfo)
        ensures
            r@.current == current@,
            r@.latest is None,
            !r@.has_update,
            r@.error == Some::<Seq<char>>(error@),
    {
        VersionInfo { current: current.to_owned(), latest: None, has_update: false, error: Some(error) }
    }
}

} // verus!
