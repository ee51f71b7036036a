//! The document encoder and decoder, exercised on concrete values and
//! cross-checked against an independent JSON implementation.

use claude_confirm::decode::{decode_popup_request, decode_user_response};
use claude_confirm::encode::{encode_popup_request, encode_user_response};
use claude_confirm::types::{EnvContext, PopupRequest, Section, UserResponse};

fn ur(confirmed: bool, sel: Vec<usize>, input: &str, images: Vec<&str>) -> UserResponse {
    UserResponse {
        confirmed,
        selected_sections: sel,
        user_input: input.to_string(),
        images: images.into_iter().map(|s| s.to_string()).collect(),
    }
}

fn assert_ur_eq(a: &UserResponse, b: &UserResponse) {
    assert_eq!(a.confirmed, b.confirmed);
    assert_eq!(a.selected_sections, b.selected_sections);
    assert_eq!(a.user_input, b.user_input);
    assert_eq!(a.images, b.images);
}

#[test]
fn user_response_round_trip_empty() {
    let u = ur(false, vec![], "", vec![]);
    let doc = encode_user_response(&u);
    let back = decode_user_response(&doc).expect("must decode");
    assert_ur_eq(&u, &back);
}

#[test]
fn user_response_round_trip_full() {
    let u = ur(true, vec![0, 2, 5], "please also add docs", vec!["img-a", "img-b"]);
    let doc = encode_user_response(&u);
    let back = decode_user_response(&doc).expect("must decode");
    assert_ur_eq(&u, &back);
}

#[test]
fn user_response_round_trip_special_characters() {
    let u = ur(
        true,
        vec![1],
        "a \"quoted\" path C:\\tmp\nline2\ttabbed\u{1}control",
        vec!["emoji \u{1F600} and chinese 中文"],
    );
    let doc = encode_user_response(&u);
    let back = decode_user_response(&doc).expect("must decode");
    assert_ur_eq(&u, &back);
}

#[test]
fn encoded_answer_is_wellformed_json_for_serde() {
    let u = ur(true, vec![0, 1], "note \"x\"\n", vec!["one"]);
    let doc = encode_user_response(&u);
    let v: serde_json::Value = serde_json::from_str(&doc).expect("independent parser accepts it");
    assert_eq!(v["confirmed"], serde_json::Value::Bool(true));
    assert_eq!(v["selectedSections"][0], serde_json::Value::from(0u64));
    assert_eq!(v["selectedSections"][1], serde_json::Value::from(1u64));
    assert_eq!(v["userInput"], serde_json::Value::String("note \"x\"\n".to_string()));
    assert_eq!(v["images"][0], serde_json::Value::String("one".to_string()));
}

#[test]
fn decoder_accepts_independent_serde_output() {
    let mut m = serde_json::Map::new();
    m.insert("confirmed".to_string(), serde_json::Value::Bool(true));
    m.insert(
        "selectedSections".to_string(),
        serde_json::Value::Array(vec![serde_json::Value::from(3u64)]),
    );
    m.insert(
        "userInput".to_string(),
        serde_json::Value::String("tab\there \u{3} low".to_string()),
    );
    m.insert(
        "images".to_string(),
        serde_json::Value::Array(vec![serde_json::Value::String("i".to_string())]),
    );
    let doc = serde_json::Value::Object(m).to_string();
    let back = decode_user_response(&doc).expect("must decode serde output");
    assert!(back.confirmed);
    assert_eq!(back.selected_sections, vec![3]);
    assert_eq!(back.user_input, "tab\there \u{3} low");
    assert_eq!(back.images, vec!["i".to_string()]);
}

#[test]
fn decoder_tolerates_whitespace_and_field_order() {
    let doc = " {\n  \"images\": [],\n  \"userInput\": \"\",\n  \"selectedSections\": [ 1 , 2 ],\n  \"confirmed\": false\n}\n";
    let back = decode_user_response(doc).expect("must decode");
    assert!(!back.confirmed);
    assert_eq!(back.selected_sections, vec![1, 2]);
}

#[test]
fn decoder_applies_defaults_for_missing_fields() {
    let back = decode_user_response("{\"confirmed\":true}").expect("must decode");
    assert!(back.confirmed);
    assert!(back.selected_sections.is_empty());
    assert!(back.user_input.is_empty());
    assert!(back.images.is_empty());
}

#[test]
fn decoder_handles_unicode_escapes() {
    let back =
        decode_user_response("{\"confirmed\":true,\"userInput\":\"A\\u0041\\u000a\\u0009!\"}")
            .expect("must decode");
    assert_eq!(back.user_input, "AA\n\t!");
}

#[test]
fn decoder_rejects_garbage() {
    assert!(decode_user_response("").is_none());
    assert!(decode_user_response("   \n  ").is_none());
    assert!(decode_user_response("not json").is_none());
    assert!(decode_user_response("{\"confirmed\":true} trailing").is_none());
    assert!(decode_user_response("{\"selectedSections\":[1]}").is_none()); // confirmed missing
    assert!(decode_user_response("{\"confirmed\":true,\"confirmed\":false}").is_none());
}

#[test]
fn decoder_skips_unknown_fields() {
    let back = decode_user_response("{\"confirmed\":true,\"extra\":1}").expect("must decode");
    assert!(back.confirmed);
    let back = decode_user_response(
        "{\"extra\": {\"a\": [1, \"x\", null, true, -2.5e3], \"b\": {}}, \"confirmed\": false, \"more\": \"s\\\"t\"}",
    )
    .expect("must decode around nested unknown values");
    assert!(!back.confirmed);
    assert!(back.selected_sections.is_empty());
    let back = decode_popup_request(
        "{\"id\":\"i\",\"zzz\":[[[1]]],\"message\":\"m\",\"future\":-0.5}",
    )
    .expect("must decode");
    assert_eq!(back.id, "i");
    assert_eq!(back.message, "m");
    // a malformed unknown value still fails the whole parse
    assert!(decode_user_response("{\"confirmed\":true,\"bad\":[}").is_none());
    assert!(decode_user_response("{\"confirmed\":true,\"bad\":1.}").is_none());
}

#[test]
fn popup_request_document_is_exact() {
    let req = PopupRequest {
        id: "abc-123".to_string(),
        message: "All done \"ok\"\n".to_string(),
        sections: vec![Section {
            title: "T1".to_string(),
            content: "C1".to_string(),
            selected: true,
        }],
        is_markdown: false,
        env_context: None,
    };
    let doc = encode_popup_request(&req);
    assert_eq!(
        doc,
        "{\"id\":\"abc-123\",\"message\":\"All done \\\"ok\\\"\\n\",\"sections\":[{\"title\":\"T1\",\"content\":\"C1\",\"selected\":true}],\"isMarkdown\":false,\"envContext\":null}"
    );
}

#[test]
fn popup_request_document_round_trips_through_serde() {
    let req = PopupRequest {
        id: "id-9".to_string(),
        message: "m".to_string(),
        sections: vec![
            Section { title: "a".to_string(), content: "b\\c".to_string(), selected: false },
            Section { title: "d".to_string(), content: "e".to_string(), selected: true },
        ],
        is_markdown: true,
        env_context: Some(EnvContext {
            cwd: Some("/work/proj".to_string()),
            project_name: Some("proj".to_string()),
            terminal: None,
            pid: Some(42),
        }),
    };
    let doc = encode_popup_request(&req);
    let v: serde_json::Value = serde_json::from_str(&doc).expect("independent parser accepts it");
    assert_eq!(v["id"], serde_json::Value::String("id-9".to_string()));
    assert_eq!(v["isMarkdown"], serde_json::Value::Bool(true));
    assert_eq!(v["sections"][0]["content"], serde_json::Value::String("b\\c".to_string()));
    assert_eq!(v["sections"][1]["selected"], serde_json::Value::Bool(true));
    assert_eq!(v["envContext"]["cwd"], serde_json::Value::String("/work/proj".to_string()));
    assert_eq!(v["envContext"]["projectName"], serde_json::Value::String("proj".to_string()));
    assert_eq!(v["envContext"]["terminal"], serde_json::Value::Null);
    assert_eq!(v["envContext"]["pid"], serde_json::Value::from(42u64));
}

fn assert_section_eq(a: &Section, b: &Section) {
    assert_eq!(a.title, b.title);
    assert_eq!(a.content, b.content);
    assert_eq!(a.selected, b.selected);
}

#[test]
fn popup_request_round_trip() {
    let req = PopupRequest {
        id: "rt-1".to_string(),
        message: "line1\nline2 \"q\"".to_string(),
        sections: vec![
            Section { title: "A".to_string(), content: "a\tbody".to_string(), selected: true },
            Section { title: "B".to_string(), content: "b".to_string(), selected: false },
        ],
        is_markdown: false,
        env_context: Some(EnvContext {
            cwd: Some("/w".to_string()),
            project_name: None,
            terminal: Some("term".to_string()),
            pid: Some(9),
        }),
    };
    let doc = encode_popup_request(&req);
    let back = decode_popup_request(&doc).expect("must decode");
    assert_eq!(back.id, req.id);
    assert_eq!(back.message, req.message);
    assert_eq!(back.sections.len(), 2);
    assert_section_eq(&back.sections[0], &req.sections[0]);
    assert_section_eq(&back.sections[1], &req.sections[1]);
    assert_eq!(back.is_markdown, req.is_markdown);
    let env = back.env_context.expect("context kept");
    assert_eq!(env.cwd.as_deref(), Some("/w"));
    assert_eq!(env.project_name, None);
    assert_eq!(env.terminal.as_deref(), Some("term"));
    assert_eq!(env.pid, Some(9));
}

#[test]
fn popup_request_round_trip_widest_pid() {
    let req = PopupRequest {
        id: "w".to_string(),
        message: "m".to_string(),
        sections: vec![],
        is_markdown: true,
        env_context: Some(EnvContext {
            cwd: None,
            project_name: None,
            terminal: None,
            pid: Some(u64::MAX),
        }),
    };
    let doc = encode_popup_request(&req);
    let back = decode_popup_request(&doc).expect("must decode");
    assert_eq!(back.env_context.expect("context kept").pid, Some(u64::MAX));
}

#[test]
fn popup_request_round_trip_minimal() {
    let req = PopupRequest {
        id: "x".to_string(),
        message: "m".to_string(),
        sections: vec![],
        is_markdown: true,
        env_context: None,
    };
    let doc = encode_popup_request(&req);
    let back = decode_popup_request(&doc).expect("must decode");
    assert_eq!(back.id, "x");
    assert!(back.sections.is_empty());
    assert!(back.is_markdown);
    assert!(back.env_context.is_none());
}

#[test]
fn popup_request_decoder_applies_defaults_and_rejects_damage() {
    let back = decode_popup_request("{\"id\":\"i\",\"message\":\"m\"}").expect("must decode");
    assert!(back.is_markdown, "markdown defaults to true");
    assert!(back.sections.is_empty());
    assert!(back.env_context.is_none());
    assert!(decode_popup_request("").is_none());
    assert!(decode_popup_request("   ").is_none());
    assert!(decode_popup_request("{\"message\":\"m\"}").is_none(), "id is required");
    assert!(decode_popup_request("{\"id\":\"i\"}").is_none(), "message is required");
    assert!(
        decode_popup_request("{\"id\":\"i\",\"message\":\"m\",\"sections\":[{\"title\":\"t\"}]}")
            .is_none(),
        "a section needs title and content"
    );
}
