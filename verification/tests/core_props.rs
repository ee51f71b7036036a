//! The normalizer, the context merge, the formatter and the bridge
//! state machine, exercised on concrete scenarios.

use claude_confirm::bridge::{
    artifact_name, bridge_step, resolve_adapter, BridgeError, BridgeEvent, BridgeState,
};
use claude_confirm::context::{merge, project_name_of};
use claude_confirm::formatter::format_response;
use claude_confirm::normalize::{normalize, ValidationError};
use claude_confirm::types::{ConfirmRequest, EnvContext, PopupRequest, Section, UserResponse};
use claude_confirm::version::VersionInfo;
use claude_confirm::files::{cli_request_path, is_ignored_entry_name};

fn sec(title: &str, content: &str, selected: bool) -> Section {
    Section { title: title.to_string(), content: content.to_string(), selected }
}

fn ctx(
    cwd: Option<&str>,
    project_name: Option<&str>,
    terminal: Option<&str>,
    pid: Option<u64>,
) -> EnvContext {
    EnvContext {
        cwd: cwd.map(|s| s.to_string()),
        project_name: project_name.map(|s| s.to_string()),
        terminal: terminal.map(|s| s.to_string()),
        pid,
    }
}

fn plain_request(message: &str) -> ConfirmRequest {
    ConfirmRequest { message: Some(message.to_string()), sections: None, is_markdown: None, context: None }
}

fn popup(sections: Vec<Section>) -> PopupRequest {
    PopupRequest {
        id: "fixed-id".to_string(),
        message: "msg".to_string(),
        sections,
        is_markdown: true,
        env_context: None,
    }
}

fn ur(confirmed: bool, sel: Vec<usize>, input: &str, images: Vec<&str>) -> UserResponse {
    UserResponse {
        confirmed,
        selected_sections: sel,
        user_input: input.to_string(),
        images: images.into_iter().map(|s| s.to_string()).collect(),
    }
}

#[test]
fn normalize_applies_defaults_and_fresh_id() {
    let detected = ctx(Some("/work/demo"), Some("demo"), None, Some(7));
    let p1 = normalize(&plain_request("hello"), &detected).expect("valid");
    let p2 = normalize(&plain_request("hello"), &detected).expect("valid");
    assert_eq!(p1.id.len(), 36);
    assert!(!p1.id.is_empty());
    assert_ne!(p1.id, p2.id, "each invocation gets its own id");
    assert_eq!(p1.message, "hello");
    assert!(p1.sections.is_empty());
    assert!(p1.is_markdown, "markdown defaults to true");
    let env = p1.env_context.expect("context attached");
    assert_eq!(env.cwd.as_deref(), Some("/work/demo"));
    assert_eq!(env.pid, Some(7));
}

#[test]
fn normalize_keeps_explicit_values() {
    let raw = ConfirmRequest {
        message: Some("m".to_string()),
        sections: Some(vec![sec("t", "c", false)]),
        is_markdown: Some(false),
        context: None,
    };
    let p = normalize(&raw, &ctx(None, None, None, None)).expect("valid");
    assert!(!p.is_markdown);
    assert_eq!(p.sections.len(), 1);
    assert_eq!(p.sections[0].title, "t");
    assert!(!p.sections[0].selected);
}

#[test]
fn normalize_rejects_missing_or_empty_message() {
    let detected = ctx(None, None, None, None);
    let none = ConfirmRequest { message: None, sections: None, is_markdown: None, context: None };
    assert!(matches!(normalize(&none, &detected), Err(ValidationError::MissingMessage)));
    let empty = plain_request("");
    assert!(matches!(normalize(&empty, &detected), Err(ValidationError::MissingMessage)));
}

#[test]
fn normalize_names_the_offending_section() {
    let raw = ConfirmRequest {
        message: Some("m".to_string()),
        sections: Some(vec![sec("ok", "ok", true), sec("", "body", true)]),
        is_markdown: None,
        context: None,
    };
    assert!(matches!(
        normalize(&raw, &ctx(None, None, None, None)),
        Err(ValidationError::EmptySection(1))
    ));
}

#[test]
fn merge_without_override_is_identity() {
    let detected = ctx(Some("/a"), Some("a"), Some("term"), Some(1));
    let merged = merge(&detected, &None);
    assert_eq!(merged.cwd, detected.cwd);
    assert_eq!(merged.project_name, detected.project_name);
    assert_eq!(merged.terminal, detected.terminal);
    assert_eq!(merged.pid, detected.pid);
}

#[test]
fn merge_takes_present_override_fields_and_keeps_the_rest() {
    let detected = ctx(Some("/a"), Some("a"), Some("term"), Some(1));
    let over = ctx(Some("/b"), None, None, Some(2));
    let merged = merge(&detected, &Some(over));
    assert_eq!(merged.cwd.as_deref(), Some("/b"));
    assert_eq!(merged.project_name.as_deref(), Some("a"));
    assert_eq!(merged.terminal.as_deref(), Some("term"));
    assert_eq!(merged.pid, Some(2));
}

#[test]
fn merge_handles_all_absent() {
    let detected = ctx(None, None, None, None);
    let merged = merge(&detected, &Some(ctx(None, Some("p"), None, None)));
    assert_eq!(merged.cwd, None);
    assert_eq!(merged.project_name.as_deref(), Some("p"));
    assert_eq!(merged.pid, None);
}

#[test]
fn project_name_is_last_path_segment() {
    assert_eq!(project_name_of("/work/demo").as_deref(), Some("demo"));
    assert_eq!(project_name_of("C:\\work\\demo").as_deref(), Some("demo"));
    assert_eq!(project_name_of("plain").as_deref(), Some("plain"));
    assert_eq!(project_name_of("/work/demo/"), None);
    assert_eq!(project_name_of("/"), None);
    assert_eq!(project_name_of(""), None);
}

#[test]
fn format_is_deterministic() {
    let req = popup(vec![sec("Fix bug", "Patch X", true)]);
    let resp = ur(true, vec![0], "note", vec!["a"]);
    assert_eq!(format_response(&req, &resp), format_response(&req, &resp));
}

#[test]
fn format_selected_section_appears_unselected_does_not() {
    let req = popup(vec![sec("Fix bug", "Patch X", true), sec("Add tests", "…", false)]);
    let resp = ur(true, vec![0], "", vec![]);
    let out = format_response(&req, &resp);
    assert!(out.contains("Fix bug"));
    assert!(!out.contains("Add tests"));
    assert!(out.contains("選中的段落索引: [0]"), "the raw index list is present");
    assert!(out.contains("立即執行"), "the directive to act now is present");
}

#[test]
fn format_cancelled_is_only_the_marker() {
    let req = popup(vec![sec("a", "b", true), sec("c", "d", true)]);
    let resp = ur(false, vec![], "", vec![]);
    assert_eq!(format_response(&req, &resp), "用戶取消操作\n");
}

#[test]
fn format_cancelled_ignores_selections() {
    let req = popup(vec![sec("secret task", "body", true)]);
    let resp = ur(false, vec![0], "", vec![]);
    let out = format_response(&req, &resp);
    assert!(!out.contains("secret task"));
}

#[test]
fn format_confirmed_without_selection_is_plain_marker() {
    let req = popup(vec![]);
    let resp = ur(true, vec![], "", vec![]);
    assert_eq!(format_response(&req, &resp), "用戶確認操作\n");
}

#[test]
fn format_appends_user_input_and_image_count() {
    let req = popup(vec![]);
    let resp = ur(true, vec![], "extra wish", vec!["a", "b", "c"]);
    let out = format_response(&req, &resp);
    assert!(out.contains("💬 用戶額外要求：\nextra wish"));
    assert!(out.contains("附加圖片: 3 張"));
}

#[test]
fn format_skips_out_of_range_indices_without_changing_block_count() {
    let req = popup(vec![sec("s0", "c0", true), sec("s1", "c1", true)]);
    let only_bad = format_response(&req, &ur(true, vec![5], "", vec![]));
    assert_eq!(only_bad.matches("\n✅ 任務 ").count(), 0);
    let mixed = format_response(&req, &ur(true, vec![0, 5, 1], "", vec![]));
    assert_eq!(mixed.matches("\n✅ 任務 ").count(), 2);
    assert!(mixed.contains("任務 1 (索引 0)：s0"));
    assert!(mixed.contains("任務 3 (索引 1)：s1"), "numbering follows selection order");
}

#[test]
fn artifact_names_are_distinct_for_distinct_ids() {
    assert_eq!(artifact_name("abc"), "mcp_request_abc.json");
    assert_ne!(artifact_name("abc"), artifact_name("abd"));
}

#[test]
fn bridge_happy_path_reaches_completed() {
    let st = BridgeState::Created;
    let st = bridge_step(st, BridgeEvent::PersistSucceeded);
    assert!(matches!(st, BridgeState::Persisted));
    let st = bridge_step(st, BridgeEvent::LaunchSucceeded);
    assert!(matches!(st, BridgeState::Launched));
    let doc = "{\"confirmed\":true,\"selectedSections\":[1],\"userInput\":\"x\",\"images\":[]}";
    let st = bridge_step(
        st,
        BridgeEvent::ChildExited(true, doc.to_string(), String::new()),
    );
    match st {
        BridgeState::Completed(u) => {
            assert!(u.confirmed);
            assert_eq!(u.selected_sections, vec![1]);
            assert_eq!(u.user_input, "x");
        }
        _ => panic!("expected completion"),
    }
}

#[test]
fn bridge_empty_stdout_on_success_is_cancellation_not_failure() {
    let st = bridge_step(
        BridgeState::Launched,
        BridgeEvent::ChildExited(true, String::new(), String::new()),
    );
    match st {
        BridgeState::Completed(u) => {
            assert!(!u.confirmed);
            assert!(u.selected_sections.is_empty());
            assert!(u.user_input.is_empty());
            assert!(u.images.is_empty());
        }
        _ => panic!("a dismissed window is a cancellation, never a failure"),
    }
}

#[test]
fn bridge_unparseable_stdout_on_success_is_cancellation() {
    let st = bridge_step(
        BridgeState::Launched,
        BridgeEvent::ChildExited(true, "oops not a document".to_string(), String::new()),
    );
    assert!(matches!(st, BridgeState::Completed(u) if !u.confirmed));
}

#[test]
fn bridge_failed_exit_carries_diagnostics_verbatim() {
    let st = bridge_step(
        BridgeState::Launched,
        BridgeEvent::ChildExited(false, "ignored".to_string(), "boom: no display".to_string()),
    );
    match st {
        BridgeState::Failed(BridgeError::Adapter(d)) => {
            assert_eq!(d, "boom: no display");
            assert!(BridgeError::Adapter(d).message().contains("boom: no display"));
        }
        _ => panic!("a failing child is a bridge failure"),
    }
}

#[test]
fn bridge_persist_failure_aborts_before_launch() {
    let st = bridge_step(BridgeState::Created, BridgeEvent::PersistFailed("disk full".to_string()));
    assert!(matches!(st, BridgeState::Failed(BridgeError::Io(d)) if d == "disk full"));
}

#[test]
fn bridge_missing_adapter_is_its_own_failure() {
    let st = bridge_step(BridgeState::Persisted, BridgeEvent::AdapterMissing);
    assert!(matches!(st, BridgeState::Failed(BridgeError::AdapterNotFound)));
}

#[test]
fn bridge_terminal_states_ignore_events() {
    let st = bridge_step(
        BridgeState::Failed(BridgeError::Timeout),
        BridgeEvent::PersistSucceeded,
    );
    assert!(matches!(st, BridgeState::Failed(BridgeError::Timeout)));
}

#[test]
fn adapter_resolution_prefers_colocated_and_probes_global() {
    let colocated = resolve_adapter(Some("/opt/app/confirm-ui".to_string()), false);
    assert_eq!(colocated.unwrap(), "/opt/app/confirm-ui");
    let global = resolve_adapter(None, true);
    assert_eq!(global.unwrap(), "confirm-ui");
    let neither = resolve_adapter(None, false);
    assert!(matches!(neither, Err(BridgeError::AdapterNotFound)));
}

#[test]
fn cancelled_and_confirmed_constructors() {
    let c = UserResponse::cancelled();
    assert!(!c.confirmed && c.selected_sections.is_empty() && c.user_input.is_empty() && c.images.is_empty());
    let y = UserResponse::confirmed(vec![2], "in".to_string(), vec![]);
    assert!(y.confirmed);
    assert_eq!(y.selected_sections, vec![2]);
    assert_eq!(y.user_input, "in");
}

#[test]
fn version_tag_comparison() {
    let v = VersionInfo::from_release_tag("0.1.0", "v0.2.0");
    assert_eq!(v.latest.as_deref(), Some("0.2.0"));
    assert!(v.has_update);
    assert!(v.error.is_none());
    let same = VersionInfo::from_release_tag("v0.2.0", "0.2.0");
    assert!(!same.has_update);
    let failed = VersionInfo::check_failed("0.1.0", "no releases yet".to_string());
    assert!(!failed.has_update);
    assert_eq!(failed.latest, None);
    assert_eq!(failed.error.as_deref(), Some("no releases yet"));
}

#[test]
fn ignored_entry_names() {
    assert!(is_ignored_entry_name(&".git".to_string()));
    assert!(is_ignored_entry_name(&"node_modules".to_string()));
    assert!(is_ignored_entry_name(&"target".to_string()));
    assert!(is_ignored_entry_name(&"dist".to_string()));
    assert!(is_ignored_entry_name(&"build".to_string()));
    assert!(!is_ignored_entry_name(&"src".to_string()));
    assert!(!is_ignored_entry_name(&"".to_string()));
}

#[test]
fn cli_request_path_extraction() {
    let args: Vec<String> =
        vec!["prog".to_string(), "--mcp-request".to_string(), "/tmp/x.json".to_string()];
    assert_eq!(cli_request_path(&args).as_deref(), Some("/tmp/x.json"));
    let no_flag: Vec<String> = vec!["prog".to_string(), "other".to_string(), "x".to_string()];
    assert_eq!(cli_request_path(&no_flag), None);
    let short: Vec<String> = vec!["prog".to_string()];
    assert_eq!(cli_request_path(&short), None);
}
