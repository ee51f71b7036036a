//! Canonical data model: the request that crosses the process boundary
//! and the answer that comes back.

use vstd::prelude::*;

verus! {

/// One independently selectable piece of content offered to the human.
#[derive(Debug, Clone)]
pub struct Section {
    pub title: String,
    pub content: String,
    pub selected: bool,
}

/// Mathematical value of a [`Section`].
pub struct SectionV {
    pub title: Seq<char>,
    pub content: Seq<char>,
    pub selected: bool,
}

impl View for Section {
    type V = SectionV;

    open spec fn view(&self) -> SectionV {
        SectionV { title: self.title@, content: self.content@, selected: self.selected }
    }
}

/// Ambient metadata attached to a request: where the caller runs and
/// under what identity. Every field may be unknown; absence is
/// represented, never replaced by a placeholder.
#[derive(Debug, Clone)]
pub struct EnvContext {
    pub cwd: Option<String>,
    pub project_name: Option<String>,
    pub terminal: Option<String>,
    pub pid: Option<u64>,
}

/// Mathematical value of an [`EnvContext`].
pub struct EnvContextV {
    pub cwd: Option<Seq<char>>,
    pub project_name: Option<Seq<char>>,
    pub terminal: Option<Seq<char>>,
    pub pid: Option<u64>,
}

impl View for EnvContext {
    type V = EnvContextV;

    open spec fn view(&self) -> EnvContextV {
        EnvContextV {
            cwd: match self.cwd {
                Some(ref s) => Some(s@),
                None => None,
            },
            project_name: match self.project_name {
                Some(ref s) => Some(s@),
                None => None,
            },
            terminal: match self.terminal {
                Some(ref s) => Some(s@),
                None => None,
            },
            pid: self.pid,
        }
    }
}

/// Raw caller input for one confirmation, before defaulting and
/// validation. A `None` field was not supplied by the caller.
#[derive(Debug, Clone)]
pub struct ConfirmRequest {
    pub message: Option<String>,
    pub sections: Option<Vec<Section>>,
    pub is_markdown: Option<bool>,
    pub context: Option<EnvContext>,
}

/// Mathematical value of a [`ConfirmRequest`].
pub struct ConfirmRequestV {
    pub message: Option<Seq<char>>,
    pub sections: Option<Seq<SectionV>>,
    pub is_markdown: Option<bool>,
    pub context: Option<EnvContextV>,
}

impl View for ConfirmRequest {
    type V = ConfirmRequestV;

    open spec fn view(&self) -> ConfirmRequestV {
        ConfirmRequestV {
            message: match self.message {
                Some(ref s) => Some(s@),
                None => None,
            },
            sections: match self.sections {
                Some(ref ss) => Some(ss@.map_values(|s: Section| s@)),
                None => None,
            },
            is_markdown: self.is_markdown,
            context: match self.context {
                Some(ref c) => Some(c@),
                None => None,
            },
        }
    }
}

/// The canonical request: what is persisted for, and read by, the
/// presentation process. Created once per invocation with a fresh `id`.
#[derive(Debug, Clone)]
pub struct PopupRequest {
    pub id: String,
    pub message: String,
    pub sections: Vec<Section>,
    pub is_markdown: bool,
    pub env_context: Option<EnvContext>,
}

/// Mathematical value of a [`PopupRequest`].
pub struct PopupRequestV {
    pub id: Seq<char>,
    pub message: Seq<char>,
    pub sections: Seq<SectionV>,
    pub is_markdown: bool,
    pub env_context: Option<EnvContextV>,
}

impl View for PopupRequest {
    type V = PopupRequestV;

    open spec fn view(&self) -> PopupRequestV {
        PopupRequestV {
            id: self.id@,
            message: self.message@,
            sections: self.sections@.map_values(|s: Section| s@),
            is_markdown: self.is_markdown,
            env_context: match self.env_context {
                Some(ref c) => Some(c@),
                None => None,
            },
        }
    }
}

/// The canonical answer produced by the presentation process.
#[derive(Debug, Clone)]
pub struct UserResponse {
    pub confirmed: bool,
    pub selected_sections: Vec<usize>,
    pub user_input: String,
    pub images: Vec<String>,
}

/// Mathematical value of a [`UserResponse`].
pub struct UserResponseV {
    pub confirmed: bool,
    pub selected_sections: Seq<usize>,
    pub user_input: Seq<char>,
    pub images: Seq<Seq<char>>,
}

impl View for UserResponse {
    type V = UserResponseV;

    open spec fn view(&self) -> UserResponseV {
        UserResponseV {
            confirmed: self.confirmed,
            selected_sections: self.selected_sections@,
            user_input: self.user_input@,
            images: self.images@.map_values(|s: String| s@),
        }
    }
}

/// The cancelled sentinel: a declined confirmation carrying nothing.
pub open spec fn spec_cancelled() -> UserResponseV {
    UserResponseV {
        confirmed: false,
        selected_sections: Seq::empty(),
        user_input: Seq::empty(),
        images: Seq::empty(),
    }
}

impl UserResponse {
    /// The answer meaning "the human declined (or dismissed the window)".
    pub fn cancelled() -> (r: UserResponse)
        ensures
            r@ == spec_cancelled(),
    {
        let r = UserResponse {
            confirmed: false,
            selected_sections: Vec::new(),
            user_input: String::new(),
            images: Vec::new(),
        };
        proof {
            assert(r@.selected_sections =~= spec_cancelled().selected_sections);
            assert(r@.user_input =~= spec_cancelled().user_input);
            assert(r@.images =~= spec_cancelled().images);
        }
        r
    }

    /// An affirmative answer carrying the human's selections and input.
    pub fn confirmed(selected_sections: Vec<usize>, user_input: String, images: Vec<String>) -> (r:
        UserResponse)
        ensures
            r@.confirmed,
            r@.selected_sections == selected_sections@,
            r@.user_input == user_input@,
            r@.images == images@.map_values(|s: String| s@),
    {
        UserResponse { confirmed: true, selected_sections, user_input, images }
    }
}

} // verus!
