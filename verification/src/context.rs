//! Environment context: merging caller-supplied overrides into detected
//! ambient metadata, and deriving a project name from a working directory.
//!
//! Detection itself (reading the working directory, the terminal
//! identifier, the process id) is ambient sensing and lives with the
//! caller; this module holds the logic on the sensed values.

use vstd::prelude::*;
use crate::types::{EnvContext, EnvContextV};

verus! {

/// Field-atomic merge: each field of the result is the override's value
/// when present, else the detected one. Fields are never combined
/// within themselves.
pub open spec fn spec_merge(detected: EnvContextV, over: Option<EnvContextV>) -> EnvContextV {
    match over {
        None => detected,
        Some(o) => EnvContextV {
            cwd: if o.cwd is Some {
                o.cwd
            } else {
                detected.cwd
            },
            project_name: if o.project_name is Some {
                o.project_name
            } else {
                detected.project_name
            },
            terminal: if o.terminal is Some {
                o.terminal
            } else {
                detected.terminal
            },
            pid: if o.pid is Some {
                o.pid
            } else {
                detected.pid
            },
        },
    }
}

fn clone_opt_string(s: &Option<String>) -> (r: Option<String>)
    ensures
        (match (s, &r) {
            (Some(a), Some(b)) => a@ == b@,
            (None, None) => true,
            _ => false,
        }),
{
    match s {
        Some(x) => Some(x.clone()),
        None => None,
    }
}

/// With no override the detected context is returned unchanged; with one,
/// each present override field wins and each absent one keeps the
/// detected value. No error conditions: absence is represented, never
/// raised.
pub fn merge(detected: &EnvContext, over: &Option<EnvContext>) -> (r: EnvContext)
    ensures
        r@ == spec_merge(
            detected@,
            match over {
                Some(o) => Some(o@),
                None => None,
            },
        ),
{
    match over {
        None => EnvContext {
            cwd: clone_opt_string(&detected.cwd),
            project_name: clone_opt_string(&detected.project_name),
            terminal: clone_opt_string(&detected.terminal),
            pid: detected.pid,
        },
        Some(o) => EnvContext {
            cwd: if o.cwd.is_some() {
                clone_opt_string(&o.cwd)
            } else {
                clone_opt_string(&detected.cwd)
            },
            project_name: if o.project_name.is_some() {
                clone_opt_string(&o.project_name)
            } else {
                clone_opt_string(&detected.project_name)
            },
            terminal: if o.terminal.is_some() {
                clone_opt_string(&o.terminal)
            } else {
                clone_opt_string(&detected.terminal)
            },
            pid: if o.pid.is_some() {
                o.pid
            } else {
                detected.pid
            },
        },
    }
}

/// Merging no override is the identity on the detected context.
pub proof fn lemma_merge_none(detected: EnvContextV)
    ensures
        spec_merge(detected, None) == detected,
{
}

/// Merging an override keeps exactly the detected fields that the
/// override leaves absent, and takes exactly the fields it supplies —
/// for every combination of present and absent fields.
pub proof fn lemma_merge_override(detected: EnvContextV, o: EnvContextV)
    ensures
        spec_merge(detected, Some(o)).cwd == if o.cwd is Some {
            o.cwd
        } else {
            detected.cwd
        },
        spec_merge(detected, Some(o)).project_name == if o.project_name is Some {
            o.project_name
        } else {
            detected.project_name
        },
        spec_merge(detected, Some(o)).terminal == if o.terminal is Some {
            o.terminal
        } else {
            detected.terminal
        },
        spec_merge(detected, Some(o)).pid == if o.pid is Some {
            o.pid
        } else {
            detected.pid
        },
{
}

/// A path separator: the usual one, or the one some hosts use.
pub open spec fn is_path_sep(c: char) -> bool {
    c == '/' || c == '\\'
}

/// Where the last path segment of `s` starts: one past the last
/// separator, or the front when there is none.
pub open spec fn spec_last_segment_start(s: Seq<char>) -> int
    decreases s.len(),
{
    if s.len() == 0 {
        0
    } else if is_path_sep(s[s.len() - 1]) {
        s.len() as int
    } else {
        spec_last_segment_start(s.take(s.len() - 1))
    }
}

/// The project name derived from a working directory: its last path
/// segment, or nothing when that segment is empty (a bare root, a
/// trailing separator, an empty path).
pub open spec fn spec_project_name_of(cwd: Seq<char>) -> Option<Seq<char>> {
    let seg = cwd.skip(spec_last_segment_start(cwd));
    if seg.len() == 0 {
        None
    } else {
        Some(seg)
    }
}

proof fn lemma_last_segment_start_bounds(s: Seq<char>)
    ensures
        0 <= spec_last_segment_start(s) <= s.len(),
        forall|k: int| spec_last_segment_start(s) <= k < s.len() ==> !is_path_sep(s[k]),
        spec_last_segment_start(s) > 0 ==> is_path_sep(s[spec_last_segment_start(s) - 1]),
    decreases s.len(),
{
    if s.len() == 0 {
    } else if is_path_sep(s[s.len() - 1]) {
    } else {
        lemma_last_segment_start_bounds(s.take(s.len() - 1));
        assert forall|k: int| spec_last_segment_start(s) <= k < s.len() implies !is_path_sep(
            s[k],
        ) by {
            if k < s.len() - 1 {
                assert(s.take(s.len() - 1)[k] == s[k]);
            }
        }
        if spec_last_segment_start(s) > 0 {
            let p = spec_last_segment_start(s) - 1;
            assert(s.take(s.len() - 1)[p] == s[p]);
        }
    }
}

proof fn lemma_last_segment_start_after_sep(s: Seq<char>, j: int)
    requires
        0 <= j < s.len(),
        is_path_sep(s[j]),
    ensures
        spec_last_segment_start(s) > j,
    decreases s.len(),
{
    if s.len() == 0 {
    } else if is_path_sep(s[s.len() - 1]) {
    } else {
        assert(s.take(s.len() - 1)[j] == s[j]);
        lemma_last_segment_start_after_sep(s.take(s.len() - 1), j);
    }
}

/// The last path segment of `cwd`, as the derived project name; `None`
/// when that segment is empty.
pub fn project_name_of(cwd: &str) -> (r: Option<String>)
    ensures
        (match r {
            Some(ref s) => spec_project_name_of(cwd@) == Some::<Seq<char>>(s@),
            None => spec_project_name_of(cwd@) is None,
        }),
{
    let n = cwd.unicode_len();
    let mut start: usize = n;
    // walk back over the last segment until a separator or the front
    while start > 0
        invariant
            start <= n,
            n == cwd@.len(),
            forall|k: int| start <= k < n ==> !is_path_sep(cwd@[k]),
        ensures
            start <= n,
            forall|k: int| start <= k < n ==> !is_path_sep(cwd@[k]),
            start == 0 || is_path_sep(cwd@[start - 1]),
        decreases start,
    {
        let c = cwd.get_char(start - 1);
        if c == '/' || c == '\\' {
            break ;
        }
        start = start - 1;
    }
    proof {
        lemma_last_segment_start_bounds(cwd@);
        if start > 0 {
            lemma_last_segment_start_after_sep(cwd@, start - 1);
        }
        if spec_last_segment_start(cwd@) > start {
            assert(is_path_sep(cwd@[spec_last_segment_start(cwd@) - 1]));
            assert(false);
        }
        assert(spec_last_segment_start(cwd@) == start);
    }
    if start == n {
        proof {
            assert(cwd@.skip(start as int).len() == 0);
        }
        None
    } else {
        let seg = cwd.substring_char(start, n);
        proof {
            assert(seg@ =~= cwd@.skip(start as int));
        }
        Some(seg.to_owned())
    }
}

} // verus!
