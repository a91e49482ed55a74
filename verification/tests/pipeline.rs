use fluent_cli::config::{engine_from_tag, find_by_name, Engine, FlowConfig};
use fluent_cli::dispatch::{
    bearer_header, build_url, dispatch_outcome, plan_conversational, plan_upsert_config,
    u16_string,
};
use fluent_cli::errors::{ConfigError, DispatchError, ParseError};
use fluent_cli::json::{to_json_string, JsonValue};
use fluent_cli::normalize::{normalize, render, OutStream, OutputMode};
use fluent_cli::payload::{
    basename, build_payload, build_question, build_upload, inline_upsert_config, merge_override,
    InlinePolicy, UploadFile,
};
use fluent_cli::resolve::{resolve_placeholders, resolve_token, Env, ResolutionPolicy};

fn obj(fields: Vec<(&str, JsonValue)>) -> JsonValue {
    JsonValue::Obj(
        fields
            .into_iter()
            .map(|(k, v)| (k.to_string(), v))
            .collect(),
    )
}

fn s(v: &str) -> JsonValue {
    JsonValue::Str(v.to_string())
}

fn demo_flow() -> FlowConfig {
    FlowConfig {
        name: "demo".to_string(),
        protocol: "http".to_string(),
        hostname: "localhost".to_string(),
        port: 3000,
        request_path: "/api/".to_string(),
        upsert_path: Some("/upsert/".to_string()),
        chat_id: "abc".to_string(),
        engine: Engine::Flowise,
        bearer_token: "secret".to_string(),
        override_config: obj(vec![]),
    }
}

#[test]
fn placeholder_resolution_replaces_set_references() {
    let mut env = Env::new();
    env.push_var("GREETING".to_string(), "hello".to_string());
    let tree = obj(vec![
        ("a", s("AMBER_GREETING")),
        ("b", JsonValue::Arr(vec![s("AMBER_MISSING"), s("plain")])),
        ("c", obj(vec![("nested", s("AMBER_GREETING"))])),
    ]);
    let resolved = resolve_placeholders(tree, &env);
    let expected = obj(vec![
        ("a", s("hello")),
        ("b", JsonValue::Arr(vec![s("AMBER_MISSING"), s("plain")])),
        ("c", obj(vec![("nested", s("hello"))])),
    ]);
    assert_eq!(to_json_string(&resolved), to_json_string(&expected));
}

#[test]
fn placeholder_resolution_is_idempotent_on_a_nested_tree() {
    let mut env = Env::new();
    env.push_var("ONE".to_string(), "1".to_string());
    env.push_var("TWO".to_string(), "2".to_string());
    let tree = obj(vec![
        ("x", s("AMBER_ONE")),
        ("y", JsonValue::Arr(vec![s("AMBER_TWO"), s("AMBER_UNSET")])),
        ("z", obj(vec![("deep", s("AMBER_ONE"))])),
    ]);
    let once = resolve_placeholders(tree, &env);
    let once_text = to_json_string(&once);
    let twice = resolve_placeholders(once, &env);
    assert_eq!(to_json_string(&twice), once_text);
}

#[test]
fn literal_token_is_returned_unchanged() {
    let env = Env::new();
    let token = "plain-secret".to_string();
    let r = resolve_token(&token, &env, ResolutionPolicy::FallbackToLiteral).unwrap();
    assert_eq!(r, "plain-secret");
}

#[test]
fn unset_reference_falls_back_to_the_original_field() {
    let env = Env::new();
    let token = "AMBER_NOT_SET".to_string();
    let r = resolve_token(&token, &env, ResolutionPolicy::FallbackToLiteral).unwrap();
    assert_eq!(r, "AMBER_NOT_SET");
}

#[test]
fn set_reference_resolves_to_the_environment_value() {
    let mut env = Env::new();
    env.push_var("API_KEY".to_string(), "k-123".to_string());
    let token = "AMBER_API_KEY".to_string();
    let r = resolve_token(&token, &env, ResolutionPolicy::FallbackToLiteral).unwrap();
    assert_eq!(r, "k-123");
}

#[test]
fn strict_policy_refuses_an_unset_reference() {
    let env = Env::new();
    let token = "AMBER_NOT_SET".to_string();
    let r = resolve_token(&token, &env, ResolutionPolicy::Strict);
    assert!(r.is_err());
}

#[test]
fn question_without_context_is_verbatim() {
    let q = build_question("hello", None);
    assert_eq!(q, "hello");
}

#[test]
fn question_with_context_holds_both_in_order() {
    let ctx = "the context".to_string();
    let q = build_question("the request", Some(&ctx));
    assert_eq!(q, "\nthe request\nthe context\n");
    let req_at = q.find("the request").unwrap();
    let ctx_at = q.find("the context").unwrap();
    assert!(req_at < ctx_at);
}

#[test]
fn conversational_scenario_builds_the_documented_request() {
    let flow = demo_flow();
    let env = Env::new();
    let plan = plan_conversational(
        &flow,
        &env,
        "hello",
        None,
        None,
        ResolutionPolicy::FallbackToLiteral,
    )
    .unwrap();
    assert!(plan.url.ends_with("/api/abc"));
    assert_eq!(plan.url, "http://localhost:3000/api/abc");
    assert_eq!(plan.auth_header, "Bearer secret");
    assert_eq!(plan.body, "{\"question\":\"hello\",\"overrideConfig\":{}}");

    let response = obj(vec![
        ("text", s("hi")),
        ("question", s("hello")),
        ("chatId", s("abc")),
        ("chatMessageId", s("m1")),
        ("sessionId", s("s1")),
    ]);
    let record = normalize(Engine::Flowise, &response, OutputMode::Default).unwrap();
    let rendered = render(&record, OutputMode::Default);
    assert_eq!(rendered.stream, OutStream::Stdout);
    assert_eq!(rendered.text, "hi");
}

#[test]
fn inline_upsert_merge_overwrites_and_keeps_keys() {
    let base = obj(vec![
        ("temperature", JsonValue::Num("0.1".to_string())),
        ("topK", JsonValue::Num("3".to_string())),
    ]);
    let inline = obj(vec![("temperature", JsonValue::Num("0.5".to_string()))]);
    let merged = merge_override(base, inline);
    assert_eq!(to_json_string(&merged), "{\"temperature\":0.5,\"topK\":3}");
}

#[test]
fn merge_with_non_object_inline_keeps_the_base() {
    let base = obj(vec![("topK", JsonValue::Num("3".to_string()))]);
    let merged = merge_override(base, s("not an object"));
    assert_eq!(to_json_string(&merged), "{\"topK\":3}");
}

#[test]
fn code_blocks_are_extracted_in_order_and_trimmed() {
    let record = normalized_of("Intro\n```rust\n  let x = 1;  \n```\nmiddle\n```\nsecond block\n```\ntail");
    let blocks = record.code_blocks.unwrap();
    assert_eq!(blocks.len(), 2);
    assert_eq!(blocks[0], "let x = 1;");
    assert_eq!(blocks[1], "second block");
}

fn normalized_of(text: &str) -> fluent_cli::normalize::NormalizedResponse {
    let response = obj(vec![
        ("text", s(text)),
        ("question", s("q")),
        ("chatId", s("c")),
        ("chatMessageId", s("m")),
        ("sessionId", s("s")),
    ]);
    normalize(Engine::Flowise, &response, OutputMode::ParseCode).unwrap()
}

#[test]
fn text_without_fences_yields_no_blocks() {
    let record = normalized_of("no code here at all");
    assert_eq!(record.code_blocks.unwrap().len(), 0);
}

#[test]
fn parse_code_render_prints_one_block_per_line() {
    let record = normalized_of("```a\none\n```\n```b\ntwo\n```");
    let rendered = render(&record, OutputMode::ParseCode);
    assert_eq!(rendered.stream, OutStream::Stdout);
    assert_eq!(rendered.text, "one\ntwo\n");
}

#[test]
fn full_output_serializes_the_whole_record() {
    let response = obj(vec![
        ("text", s("hi")),
        ("question", s("hello")),
        ("chatId", s("abc")),
        ("chatMessageId", s("m1")),
        ("sessionId", s("s1")),
    ]);
    let record = normalize(Engine::Flowise, &response, OutputMode::Full).unwrap();
    let rendered = render(&record, OutputMode::Full);
    assert_eq!(rendered.stream, OutStream::Stdout);
    assert_eq!(
        rendered.text,
        "{\"text\":\"hi\",\"question\":\"hello\",\"chatId\":\"abc\",\"sessionId\":\"s1\",\"memoryType\":null}"
    );
}

#[test]
fn markdown_output_goes_to_the_error_stream() {
    let response = obj(vec![
        ("text", s("# title")),
        ("question", s("q")),
        ("chatId", s("c")),
        ("chatMessageId", s("m")),
        ("sessionId", s("s")),
    ]);
    let record = normalize(Engine::Webhook, &response, OutputMode::Markdown).unwrap();
    let rendered = render(&record, OutputMode::Markdown);
    assert_eq!(rendered.stream, OutStream::Stderr);
    assert_eq!(rendered.text, "# title");
}

#[test]
fn missing_schema_field_is_a_schema_mismatch() {
    let response = obj(vec![("text", s("hi"))]);
    let err = normalize(Engine::Flowise, &response, OutputMode::Default).unwrap_err();
    assert_eq!(err, ParseError::SchemaMismatch);
}

#[test]
fn langflow_schema_reads_nested_result_text() {
    let response = obj(vec![
        ("result", obj(vec![("text", s("nested answer"))])),
        ("session_id", s("s9")),
    ]);
    let record = normalize(Engine::Langflow, &response, OutputMode::Default).unwrap();
    assert_eq!(record.response_text, "nested answer");
    assert_eq!(record.session_id, "s9");
    assert_eq!(record.question, "");
}

#[test]
fn langflow_flat_schema_is_a_mismatch() {
    let response = obj(vec![("text", s("hi")), ("session_id", s("s9"))]);
    assert!(normalize(Engine::Langflow, &response, OutputMode::Default).is_err());
}

#[test]
fn malformed_inline_json_aborts_under_the_abort_policy() {
    let err = inline_upsert_config(None, InlinePolicy::Abort).unwrap_err();
    assert_eq!(err, ParseError::InvalidInlineJson);
}

#[test]
fn malformed_inline_json_substitutes_an_empty_object() {
    let v = inline_upsert_config(None, InlinePolicy::SubstituteEmpty).unwrap();
    assert_eq!(to_json_string(&v), "{}");
}

#[test]
fn upsert_config_plan_targets_the_upsert_path() {
    let flow = demo_flow();
    let env = Env::new();
    let inline = obj(vec![("temperature", JsonValue::Num("0.5".to_string()))]);
    let plan =
        plan_upsert_config(&flow, &env, inline, ResolutionPolicy::FallbackToLiteral).unwrap();
    assert_eq!(plan.url, "http://localhost:3000/upsert/abc");
    assert_eq!(
        plan.body,
        "{\"overrideConfig\":{\"temperature\":0.5}}"
    );
}

#[test]
fn upload_element_encodes_the_file() {
    let element = build_upload("/tmp/dir/pic.png", b"hello".to_vec());
    let text = to_json_string(&element);
    assert_eq!(
        text,
        "{\"data\":\"data:image/png;base64,aGVsbG8=\",\"type\":\"file\",\"name\":\"pic.png\",\"mime\":\"image/png\"}"
    );
}

#[test]
fn payload_with_upload_carries_a_single_element_list() {
    let upload = UploadFile {
        path: "a/b.bin".to_string(),
        data: vec![0u8],
    };
    let body = build_payload("q", None, obj(vec![]), Some(&upload));
    let text = to_json_string(&body);
    assert!(text.starts_with("{\"question\":\"q\",\"overrideConfig\":{},\"uploads\":[{\"data\":\"data:image/png;base64,"));
    assert!(text.contains("\"name\":\"b.bin\""));
}

#[test]
fn basename_takes_the_part_after_the_last_slash() {
    assert_eq!(basename("a/b/c.txt"), "c.txt");
    assert_eq!(basename("plain"), "plain");
    assert_eq!(basename("dir/"), "");
}

#[test]
fn url_is_assembled_from_all_address_fields() {
    let url = build_url("https", "example.org", 8443, "/chat/", "id9");
    assert_eq!(url, "https://example.org:8443/chat/id9");
}

#[test]
fn port_numbers_print_in_decimal() {
    assert_eq!(u16_string(0), "0");
    assert_eq!(u16_string(65535), "65535");
}

#[test]
fn bearer_header_prefixes_the_token() {
    assert_eq!(bearer_header("tok"), "Bearer tok");
}

#[test]
fn engine_tags_map_to_the_closed_set() {
    assert_eq!(engine_from_tag("flowise"), Some(Engine::Flowise));
    assert_eq!(engine_from_tag("langflow"), Some(Engine::Langflow));
    assert_eq!(engine_from_tag("webhook"), Some(Engine::Webhook));
    assert_eq!(engine_from_tag("other"), None);
}

#[test]
fn find_by_name_returns_the_named_flow() {
    let mut a = demo_flow();
    a.name = "first".to_string();
    let b = demo_flow();
    let flows = vec![a, b];
    let found = find_by_name(&flows, "demo").unwrap();
    assert_eq!(found.name, "demo");
    let missing = find_by_name(&flows, "nope").unwrap_err();
    assert_eq!(missing, ConfigError::NotFound);
}

#[test]
fn non_2xx_statuses_surface_as_http_errors() {
    let ok = dispatch_outcome(204, "done".to_string()).unwrap();
    assert_eq!(ok, "done");
    let err = dispatch_outcome(404, "missing".to_string()).unwrap_err();
    assert_eq!(err, DispatchError::HttpError(404, "missing".to_string()));
}

#[test]
fn serializer_escapes_strings() {
    let v = obj(vec![("k", s("a\"b\\c\nd"))]);
    assert_eq!(to_json_string(&v), "{\"k\":\"a\\\"b\\\\c\\nd\"}");
}

#[test]
fn serializer_writes_scalars_and_arrays() {
    let v = JsonValue::Arr(vec![
        JsonValue::Null,
        JsonValue::Bool(true),
        JsonValue::Bool(false),
        JsonValue::Num("1.5".to_string()),
    ]);
    assert_eq!(to_json_string(&v), "[null,true,false,1.5]");
}
