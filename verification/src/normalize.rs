//! The request normalizer: turns raw caller input into a canonical
//! request with defaults applied, a fresh unique identifier, and the
//! merged environment context attached.

use vstd::prelude::*;
use crate::types::{ConfirmRequest, EnvContext, PopupRequest, Section, SectionV};
use crate::context::{merge, spec_merge};

verus! {

/// Why raw caller input was rejected before reaching the bridge.
#[derive(Debug)]
pub enum ValidationError {
    /// The message is absent or empty.
    MissingMessage,
    /// The section at this index has an empty title or content.
    EmptySection(usize),
}

/// Is this section usable: title and content both present?
pub open spec fn section_ok(s: SectionV) -> bool {
    s.title.len() > 0 && s.content.len() > 0
}

/// The first unusable section, if any.
pub open spec fn first_bad_section(ss: Seq<SectionV>) -> Option<int>
    decreases ss.len(),
{
    if ss.len() == 0 {
        None
    } else if !section_ok(ss[0]) {
        Some(0)
    } else {
        match first_bad_section(ss.skip(1)) {
            Some(k) => Some(k + 1),
            None => None,
        }
    }
}

proof fn lemma_first_bad_section(ss: Seq<SectionV>)
    ensures
        (match first_bad_section(ss) {
            Some(k) => 0 <= k < ss.len() && !section_ok(ss[k]) && forall|j: int|
                0 <= j < k ==> section_ok(ss[j]),
            None => forall|j: int| 0 <= j < ss.len() ==> section_ok(ss[j]),
        }),
    decreases ss.len(),
{
    if ss.len() > 0 && section_ok(ss[0]) {
        lemma_first_bad_section(ss.skip(1));
        match first_bad_section(ss.skip(1)) {
            Some(k) => {
                assert(ss.skip(1)[k] == ss[k + 1]);
                assert forall|j: int| 0 <= j < k + 1 implies section_ok(ss[j]) by {
                    if j > 0 {
                        assert(ss.skip(1)[j - 1] == ss[j]);
                    }
                }
            },
            None => {
                assert forall|j: int| 0 <= j < ss.len() implies section_ok(ss[j]) by {
                    if j > 0 {
                        assert(ss.skip(1)[j - 1] == ss[j]);
                    }
                }
            },
        }
    }
}

proof fn lemma_first_bad_section_here(ss: Seq<SectionV>, k: int)
    requires
        0 <= k < ss.len(),
        !section_ok(ss[k]),
        forall|j: int| 0 <= j < k ==> section_ok(ss[j]),
    ensures
        first_bad_section(ss) == Some(k),
    decreases ss.len(),
{
    if k > 0 {
        assert(section_ok(ss[0]));
        assert(ss.skip(1)[k - 1] == ss[k]);
        assert forall|j: int| 0 <= j < k - 1 implies section_ok(ss.skip(1)[j]) by {
            assert(ss.skip(1)[j] == ss[j + 1]);
        }
        lemma_first_bad_section_here(ss.skip(1), k - 1);
    }
}

/// Relies on uuid's `Uuid::new_v4` and its hyphenated rendering: a
/// fresh random identifier, always 36 characters.
#[verifier::external_body]
fn fresh_request_id() -> (r: String)
    ensures
        r@.len() == 36,
{
    uuid::Uuid::new_v4().to_string()
}

fn clone_section(s: &Section) -> (r: Section)
    ensures
        r@ == s@,
{
    Section { title: s.title.clone(), content: s.content.clone(), selected: s.selected }
}

fn clone_sections(ss: &Vec<Section>) -> (r: Vec<Section>)
    ensures
        r@.len() == ss@.len(),
        forall|j: int| 0 <= j < ss@.len() ==> (#[trigger] r@[j])@ == ss@[j]@,
{
    let mut r: Vec<Section> = Vec::new();
    let mut i: usize = 0;
    while i < ss.len()
        invariant
            i <= ss@.len(),
            r@.len() == i,
            forall|j: int| 0 <= j < i ==> (#[trigger] r@[j])@ == ss@[j]@,
        decreases ss@.len() - i,
    {
        r.push(clone_section(&ss[i]));
        i = i + 1;
    }
    r
}

/// The sections the canonical request will carry: the caller's, or none.
pub open spec fn spec_sections_or_empty(o: Option<Seq<SectionV>>) -> Seq<SectionV> {
    match o {
        Some(ss) => ss,
        None => Seq::empty(),
    }
}

/// Validates and defaults raw caller input into a canonical request.
///
/// Succeeds exactly when a non-empty message is present and every
/// supplied section has a non-empty title and content. On success the
/// canonical request carries the caller's message and sections (none
/// when unsupplied), the markdown flag defaulted to true, a fresh
/// 36-character identifier, and the detected context merged with the
/// caller's override. Rejection names the first offending section.
pub fn normalize(raw: &ConfirmRequest, detected: &EnvContext) -> (r: Result<
    PopupRequest,
    ValidationError,
>)
    ensures
        (match r {
            Ok(p) => {
                &&& raw@.message is Some
                &&& raw@.message.unwrap().len() > 0
                &&& first_bad_section(spec_sections_or_empty(raw@.sections)) is None
                &&& p@.id.len() == 36
                &&& p@.message == raw@.message.unwrap()
                &&& p@.sections == spec_sections_or_empty(raw@.sections)
                &&& p@.is_markdown == (match raw@.is_markdown {
                    Some(b) => b,
                    None => true,
                })
                &&& p@.env_context == Some(spec_merge(detected@, raw@.context))
            },
            Err(ValidationError::MissingMessage) => raw@.message is None || raw@.message.unwrap().len() == 0,
            Err(ValidationError::EmptySection(k)) => {
                &&& raw@.message is Some
                &&& raw@.message.unwrap().len() > 0
                &&& first_bad_section(spec_sections_or_empty(raw@.sections)) == Some(k as int)
            },
        }),
{
    let message = match &raw.message {
        Some(m) => {
            if m.as_str().unicode_len() == 0 {
                return Err(ValidationError::MissingMessage);
            }
            m.clone()
        },
        None => {
            return Err(ValidationError::MissingMessage);
        },
    };
    let sections: Vec<Section> = match &raw.sections {
        Some(ss) => {
            let ghost ssv = ss@.map_values(|s: Section| s@);
            proof {
                assert(ssv =~= spec_sections_or_empty(raw@.sections));
            }
            let mut i: usize = 0;
            while i < ss.len()
                invariant
                    i <= ss@.len(),
                    ssv == ss@.map_values(|s: Section| s@),
                    ssv == spec_sections_or_empty(raw@.sections),
                    raw@.message is Some,
                    raw@.message.unwrap().len() > 0,
                    forall|j: int| 0 <= j < i ==> section_ok(ssv[j]),
                decreases ss@.len() - i,
            {
                let t_empty = ss[i].title.as_str().unicode_len() == 0;
                let c_empty = ss[i].content.as_str().unicode_len() == 0;
                if t_empty || c_empty {
                    proof {
                        assert(!section_ok(ssv[i as int]));
                        lemma_first_bad_section_here(ssv, i as int);
                    }
                    return Err(ValidationError::EmptySection(i));
                }
                i = i + 1;
            }
            proof {
                lemma_first_bad_section(ssv);
                if first_bad_section(ssv) is Some {
                    assert(false);
                }
            }
            clone_sections(ss)
        },
        None => Vec::new(),
    };
    let is_markdown = match raw.is_markdown {
        Some(b) => b,
        None => true,
    };
    let env = merge(detected, &raw.context);
    let id = fresh_request_id();
    let p = PopupRequest { id, message, sections, is_markdown, env_context: Some(env) };
    proof {
        assert(p@.sections =~= spec_sections_or_empty(raw@.sections));
    }
    Ok(p)
}

} // verus!
