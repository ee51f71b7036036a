//! The process bridge: one request/response round trip with the
//! presentation process, as a state machine. The caller performs the
//! outside work — writing the artifact, launching the process, waiting
//! — and feeds each outcome back as an event; every decision about what
//! the outcome means is made here.

use vstd::prelude::*;
use crate::types::{UserResponse, UserResponseV, spec_cancelled};
use crate::decode::{spec_decode_user_response, decode_user_response};

verus! {

/// Why a bridge run failed. Cancellation is not here: a declined
/// confirmation is a successful, meaningful answer.
#[derive(Debug)]
pub enum BridgeError {
    /// No usable presentation executable was found; nothing was spawned.
    AdapterNotFound,
    /// The request artifact could not be written.
    Io(String),
    /// The presentation process exited with a failure status; carries
    /// its diagnostic stream verbatim.
    Adapter(String),
    /// The presentation process outlived the configured patience.
    Timeout,
}

/// Mathematical value of a [`BridgeError`].
pub enum BridgeErrorV {
    AdapterNotFound,
    Io(Seq<char>),
    Adapter(Seq<char>),
    Timeout,
}

impl View for BridgeError {
    type V = BridgeErrorV;

    open spec fn view(&self) -> BridgeErrorV {
        match self {
            BridgeError::AdapterNotFound => BridgeErrorV::AdapterNotFound,
            BridgeError::Io(d) => BridgeErrorV::Io(d@),
            BridgeError::Adapter(d) => BridgeErrorV::Adapter(d@),
            BridgeError::Timeout => BridgeErrorV::Timeout,
        }
    }
}

/// Where one bridge run stands. `Completed` and `Failed` are terminal;
/// a cancelled answer is a value of `Completed`, never of `Failed`.
pub enum BridgeState {
    Created,
    Persisted,
    Launched,
    Completed(UserResponse),
    Failed(BridgeError),
}

/// Mathematical value of a [`BridgeState`].
pub enum BridgeStateV {
    Created,
    Persisted,
    Launched,
    Completed(UserResponseV),
    Failed(BridgeErrorV),
}

impl View for BridgeState {
    type V = BridgeStateV;

    open spec fn view(&self) -> BridgeStateV {
        match self {
            BridgeState::Created => BridgeStateV::Created,
            BridgeState::Persisted => BridgeStateV::Persisted,
            BridgeState::Launched => BridgeStateV::Launched,
            BridgeState::Completed(u) => BridgeStateV::Completed(u@),
            BridgeState::Failed(e) => BridgeStateV::Failed(e@),
        }
    }
}

/// What the outside world reported back to the bridge.
pub enum BridgeEvent {
    /// The request artifact was written.
    PersistSucceeded,
    /// The request artifact could not be written; carries the reason.
    PersistFailed(String),
    /// A presentation executable was resolved and spawned.
    LaunchSucceeded,
    /// No presentation executable could be resolved.
    AdapterMissing,
    /// The child exited: whether its status was success, its captured
    /// output, and its diagnostic stream.
    ChildExited(bool, String, String),
}

/// Mathematical value of a [`BridgeEvent`].
pub enum BridgeEventV {
    PersistSucceeded,
    PersistFailed(Seq<char>),
    LaunchSucceeded,
    AdapterMissing,
    ChildExited(bool, Seq<char>, Seq<char>),
}

impl View for BridgeEvent {
    type V = BridgeEventV;

    open spec fn view(&self) -> BridgeEventV {
        match self {
            BridgeEvent::PersistSucceeded => BridgeEventV::PersistSucceeded,
            BridgeEvent::PersistFailed(d) => BridgeEventV::PersistFailed(d@),
            BridgeEvent::LaunchSucceeded => BridgeEventV::LaunchSucceeded,
            BridgeEvent::AdapterMissing => BridgeEventV::AdapterMissing,
            BridgeEvent::ChildExited(ok, out, err) => BridgeEventV::ChildExited(*ok, out@, err@),
        }
    }
}

/// The answer a child exit denotes: a failure status is a bridge
/// failure carrying the diagnostic stream verbatim; a success status
/// yields the decoded answer, or the cancelled sentinel when the output
/// is empty or does not decode — a dismissed window is
/// indistinguishable from explicit cancellation and is never an error.
pub open spec fn spec_exit_outcome(ok: bool, out: Seq<char>, err: Seq<char>) -> BridgeStateV {
    if !ok {
        BridgeStateV::Failed(BridgeErrorV::Adapter(err))
    } else {
        BridgeStateV::Completed(
            match spec_decode_user_response(out) {
                Some(u) => u,
                None => spec_cancelled(),
            },
        )
    }
}

/// One transition of the bridge. An event that does not belong to the
/// current state leaves the state unchanged; the two terminal states
/// never move again.
pub open spec fn spec_bridge_step(s: BridgeStateV, e: BridgeEventV) -> BridgeStateV {
    match (s, e) {
        (BridgeStateV::Created, BridgeEventV::PersistSucceeded) => BridgeStateV::Persisted,
        (BridgeStateV::Created, BridgeEventV::PersistFailed(d)) => BridgeStateV::Failed(
            BridgeErrorV::Io(d),
        ),
        (BridgeStateV::Persisted, BridgeEventV::LaunchSucceeded) => BridgeStateV::Launched,
        (BridgeStateV::Persisted, BridgeEventV::AdapterMissing) => BridgeStateV::Failed(
            BridgeErrorV::AdapterNotFound,
        ),
        (BridgeStateV::Launched, BridgeEventV::ChildExited(ok, out, err)) => spec_exit_outcome(
            ok,
            out,
            err,
        ),
        (s2, _) => s2,
    }
}

/// Feeds one event to the bridge and returns the next state.
pub fn bridge_step(state: BridgeState, event: BridgeEvent) -> (next: BridgeState)
    ensures
        next@ == spec_bridge_step(state@, event@),
{
    match (state, event) {
        (BridgeState::Created, BridgeEvent::PersistSucceeded) => BridgeState::Persisted,
        (BridgeState::Created, BridgeEvent::PersistFailed(d)) => BridgeState::Failed(
            BridgeError::Io(d),
        ),
        (BridgeState::Persisted, BridgeEvent::LaunchSucceeded) => BridgeState::Launched,
        (BridgeState::Persisted, BridgeEvent::AdapterMissing) => BridgeState::Failed(
            BridgeError::AdapterNotFound,
        ),
        (BridgeState::Launched, BridgeEvent::ChildExited(ok, out, err)) => {
            if !ok {
                BridgeState::Failed(BridgeError::Adapter(err))
            } else {
                match decode_user_response(out.as_str()) {
                    Some(u) => BridgeState::Completed(u),
                    None => BridgeState::Completed(UserResponse::cancelled()),
                }
            }
        },
        (s2, _) => s2,
    }
}

/// The terminal states never move again, whatever arrives.
pub proof fn lemma_terminal_states_stay(s: BridgeStateV, e: BridgeEventV)
    requires
        s is Completed || s is Failed,
    ensures
        spec_bridge_step(s, e) == s,
{
}

/// A child that exits successfully with output that is all whitespace —
/// an empty output in particular — yields the cancelled sentinel, not a
/// failure.
pub proof fn lemma_blank_output_is_cancelled(out: Seq<char>, err: Seq<char>)
    requires
        forall|k: int| 0 <= k < out.len() ==> crate::decode::is_ws(out[k]),
    ensures
        spec_exit_outcome(true, out, err) == BridgeStateV::Completed(spec_cancelled()),
{
    lemma_skip_ws_all(out, 0);
}

proof fn lemma_skip_ws_all(s: Seq<char>, i: int)
    requires
        0 <= i <= s.len(),
        forall|k: int| 0 <= k < s.len() ==> crate::decode::is_ws(s[k]),
    ensures
        crate::decode::skip_ws(s, i) == s.len(),
    decreases s.len() - i,
{
    if i < s.len() {
        lemma_skip_ws_all(s, i + 1);
    }
}

/// A child that exits with a failure status yields a bridge failure
/// carrying its diagnostic stream verbatim, whatever it wrote elsewhere.
pub proof fn lemma_failed_exit_is_adapter_error(out: Seq<char>, err: Seq<char>)
    ensures
        spec_exit_outcome(false, out, err) == BridgeStateV::Failed(BridgeErrorV::Adapter(err)),
{
}

/// The artifact name for a request id.
pub open spec fn spec_artifact_name(id: Seq<char>) -> Seq<char> {
    "mcp_request_"@ + id + ".json"@
}

/// The transient artifact's file name: derived from the request id and
/// from nothing else.
pub fn artifact_name(id: &str) -> (r: String)
    ensures
        r@ == spec_artifact_name(id@),
{
    let mut out = String::new();
    out.append("mcp_request_");
    out.append(id);
    out.append(".json");
    proof {
        assert(out@ =~= spec_artifact_name(id@));
    }
    out
}

/// Distinct request ids never share an artifact name, so concurrent
/// invocations never contend on the same transient artifact.
pub proof fn lemma_artifact_name_injective(id1: Seq<char>, id2: Seq<char>)
    requires
        id1 != id2,
    ensures
        spec_artifact_name(id1) != spec_artifact_name(id2),
{
    if spec_artifact_name(id1) == spec_artifact_name(id2) {
        let p = "mcp_request_"@;
        assert(spec_artifact_name(id1).len() == p.len() + id1.len() + ".json"@.len());
        assert(spec_artifact_name(id2).len() == p.len() + id2.len() + ".json"@.len());
        assert(id1.len() == id2.len());
        assert(id1 =~= id2) by {
            assert forall|k: int| 0 <= k < id1.len() implies id1[k] == id2[k] by {
                assert(spec_artifact_name(id1)[p.len() + k] == id1[k]);
                assert(spec_artifact_name(id2)[p.len() + k] == id2[k]);
            }
        }
        assert(false);
    }
}

/// The well-known name of a globally installed presentation executable.
pub open spec fn spec_global_adapter() -> Seq<char> {
    "confirm-ui"@
}

/// Which presentation executable to run: a colocated one wins outright;
/// otherwise the global name is accepted only when its probe succeeded;
/// otherwise nothing is spawned and the bridge fails.
pub open spec fn spec_resolve_adapter(colocated: Option<Seq<char>>, probe_ok: bool) -> Result<
    Seq<char>,
    BridgeErrorV,
> {
    match colocated {
        Some(p) => Ok(p),
        None => if probe_ok {
            Ok(spec_global_adapter())
        } else {
            Err(BridgeErrorV::AdapterNotFound)
        },
    }
}

/// Decides which presentation executable to run. `colocated` is the
/// path of an executable found beside the running program, if any;
/// `global_probe_ok` says whether invoking the well-known global name
/// with a harmless version query succeeded. A present-but-broken global
/// executable is never preferred: it is accepted only on a successful
/// probe, and only when no colocated executable exists.
pub fn resolve_adapter(colocated: Option<String>, global_probe_ok: bool) -> (r: Result<
    String,
    BridgeError,
>)
    ensures
        (match r {
            Ok(p) => spec_resolve_adapter(
                match colocated {
                    Some(ref c) => Some(c@),
                    None => None,
                },
                global_probe_ok,
            ) == Ok::<Seq<char>, BridgeErrorV>(p@),
            Err(e) => spec_resolve_adapter(
                match colocated {
                    Some(ref c) => Some(c@),
                    None => None,
                },
                global_probe_ok,
            ) == Err::<Seq<char>, BridgeErrorV>(e@),
        }),
{
    match colocated {
        Some(p) => Ok(p),
        None => {
            if global_probe_ok {
                Ok("confirm-ui".to_owned())
            } else {
                Err(BridgeError::AdapterNotFound)
            }
        },
    }
}

/// The message texts of the bridge failures.
pub open spec fn spec_error_message(e: BridgeErrorV) -> Seq<char> {
    match e {
        BridgeErrorV::AdapterNotFound => "找不到 UI 程序。請確保 confirm-ui 在同目錄或已安裝到系統"@,
        BridgeErrorV::Io(d) => "could not persist the request artifact: "@ + d,
        BridgeErrorV::Adapter(d) => "presentation process failed: "@ + d,
        BridgeErrorV::Timeout => "presentation process did not finish in time"@,
    }
}

impl BridgeError {
    /// The caller-visible description of this failure. Every bridge
    /// failure is reported as a failed tool invocation carrying this
    /// text; none is silently swallowed.
    pub fn message(&self) -> (r: String)
        ensures
            r@ == spec_error_message(self@),
    {
        match self {
            BridgeError::AdapterNotFound => {
                "找不到 UI 程序。請確保 confirm-ui 在同目錄或已安裝到系統".to_owned()
            },
            BridgeError::Io(d) => {
                let mut out = String::new();
                out.append("could not persist the request artifact: ");
                out.append(d.as_str());
                proof {
                    assert(out@ =~= spec_error_message(self@));
                }
                out
            },
            BridgeError::Adapter(d) => {
                let mut out = String::new();
                out.append("presentation process failed: ");
                out.append(d.as_str());
                proof {
                    assert(out@ =~= spec_error_message(self@));
                }
                out
            },
            BridgeError::Timeout => {
                "presentation process did not finish in time".to_owned()
            },
        }
    }
}

} // verus!
