use vllm_bench::json::JsonValue;
use vllm_bench::pooling::{
    assemble_multimodal_text, build_chat_content_json, chat_content_from, BackendKind,
    PoolingBackend, PoolingResponse, PoolingUsage, ReplyStep, RequestFuncInput,
};

fn to_serde(v: &JsonValue) -> serde_json::Value {
    match v {
        JsonValue::Null => serde_json::Value::Null,
        JsonValue::Number(n) => {
            if *n >= 0 {
                serde_json::Value::from(*n as u64)
            } else {
                serde_json::Value::from(*n as i64)
            }
        }
        JsonValue::Text(s) => serde_json::Value::String(s.clone()),
        JsonValue::Array(items) => serde_json::Value::Array(items.iter().map(to_serde).collect()),
        JsonValue::Object(members) => {
            let mut map = serde_json::Map::new();
            for (k, v) in members {
                map.insert(k.clone(), to_serde(v));
            }
            serde_json::Value::Object(map)
        }
        JsonValue::Raw(text) => serde_json::from_str(text).unwrap(),
    }
}

fn text(s: &str) -> JsonValue {
    JsonValue::Text(s.to_string())
}

fn obj(members: Vec<(&str, JsonValue)>) -> JsonValue {
    JsonValue::Object(members.into_iter().map(|(k, v)| (k.to_string(), v)).collect())
}

fn input(prompt: &str) -> RequestFuncInput {
    RequestFuncInput {
        prompt: prompt.to_string(),
        api_url: "http://localhost:8000/v1/embeddings".to_string(),
        prompt_len: 7,
        model: "base-model".to_string(),
        model_name: None,
        prompt_token_ids: None,
        multi_modal_content: None,
        extra_body: None,
        extra_headers: Vec::new(),
        request_id: "req-1".to_string(),
    }
}

fn backend(kind: BackendKind) -> PoolingBackend {
    PoolingBackend { kind }
}

#[test]
fn openai_embeddings_with_text() {
    let p = backend(BackendKind::OpenaiEmbeddings).build_payload(&input("hello there"));
    assert_eq!(p, obj(vec![("model", text("base-model")), ("input", text("hello there"))]));
}

#[test]
fn openai_embeddings_prefers_token_ids_and_model_name() {
    let mut inp = input("");
    inp.prompt_token_ids = Some(vec![1, 2, 4_000_000_000]);
    inp.model_name = Some("served-name".to_string());
    let p = backend(BackendKind::OpenaiEmbeddings).build_payload(&inp);
    assert_eq!(
        p,
        obj(vec![
            ("model", text("served-name")),
            (
                "input",
                JsonValue::Array(vec![
                    JsonValue::Number(1),
                    JsonValue::Number(2),
                    JsonValue::Number(4_000_000_000)
                ])
            ),
        ])
    );
    assert_eq!(
        serde_json::to_string(&to_serde(&p)).unwrap(),
        r#"{"input":[1,2,4000000000],"model":"served-name"}"#
    );
}

#[test]
fn vllm_pooling_truncates() {
    let p = backend(BackendKind::VllmPooling).build_payload(&input("abc"));
    assert_eq!(
        p,
        obj(vec![
            ("model", text("base-model")),
            ("input", text("abc")),
            ("truncate_prompt_tokens", JsonValue::Number(-1)),
        ])
    );
}

#[test]
fn vllm_rerank_uses_prompt_as_query() {
    let mut inp = input("what is rust");
    inp.prompt_token_ids = Some(vec![9, 9]);
    let b = backend(BackendKind::VllmRerank);
    let p = b.build_payload(&inp);
    assert_eq!(
        p,
        obj(vec![
            ("model", text("base-model")),
            ("query", text("what is rust")),
            ("truncate_prompt_tokens", JsonValue::Number(-1)),
        ])
    );
    assert!(!b.rerank_query_missing(&inp));
}

#[test]
fn rerank_query_missing_only_for_empty_prompt_with_tokens() {
    let b = backend(BackendKind::VllmRerank);
    let mut inp = input("");
    assert!(!b.rerank_query_missing(&inp));
    inp.prompt_token_ids = Some(vec![1]);
    assert!(b.rerank_query_missing(&inp));
    assert!(!backend(BackendKind::VllmPooling).rerank_query_missing(&inp));
    let p = b.build_payload(&inp);
    assert_eq!(
        serde_json::to_string(&to_serde(&p)).unwrap(),
        r#"{"model":"base-model","query":"","truncate_prompt_tokens":-1}"#
    );
}

#[test]
fn embeddings_chat_text_only() {
    let p = backend(BackendKind::OpenaiEmbeddingsChat).build_payload(&input("hi \"you\""));
    let content = JsonValue::Array(vec![obj(vec![("type", text("text")), ("text", text("hi \"you\""))])]);
    assert_eq!(
        p,
        obj(vec![
            ("model", text("base-model")),
            ("messages", JsonValue::Array(vec![obj(vec![("role", text("user")), ("content", content)])])),
        ])
    );
}

#[test]
fn embeddings_chat_multimodal_fragments_are_spliced() {
    let mut inp = input("look \"here\"\n");
    inp.multi_modal_content = Some(vec![
        r#"{"type":"image_url","image_url":{"url":"data:image/png;base64,AAAA"}}"#.to_string(),
        r#"{"type":"image_url","image_url":{"url":"http://x/y.png"}}"#.to_string(),
    ]);
    let expected_text = String::from(r#"[{"type":"text","text":"look \"here\"\n"}"#)
        + r#",{"type":"image_url","image_url":{"url":"data:image/png;base64,AAAA"}}"#
        + r#",{"type":"image_url","image_url":{"url":"http://x/y.png"}}]"#;
    let expected_text = expected_text.as_str();
    let assembled = assemble_multimodal_text(&inp.prompt, inp.multi_modal_content.as_ref().unwrap());
    assert_eq!(assembled, expected_text);
    let content = build_chat_content_json(&inp);
    assert_eq!(content, JsonValue::Raw(expected_text.to_string()));
    let parsed = to_serde(&content);
    assert_eq!(parsed[0]["text"], serde_json::Value::String("look \"here\"\n".to_string()));
    assert_eq!(parsed.as_array().unwrap().len(), 3);
    let p = backend(BackendKind::OpenaiEmbeddingsChat).build_payload(&inp);
    assert_eq!(
        p,
        obj(vec![
            ("model", text("base-model")),
            (
                "messages",
                JsonValue::Array(vec![obj(vec![
                    ("role", text("user")),
                    ("content", JsonValue::Raw(expected_text.to_string()))
                ])])
            ),
        ])
    );
}

#[test]
fn embeddings_chat_empty_fragment_list() {
    let mut inp = input("p");
    inp.multi_modal_content = Some(Vec::new());
    let content = build_chat_content_json(&inp);
    assert_eq!(content, JsonValue::Raw(r#"[{"type":"text","text":"p"}]"#.to_string()));
}

#[test]
fn embeddings_chat_bad_fragment_falls_back_to_text() {
    let mut inp = input("plain");
    inp.multi_modal_content = Some(vec!["{not json".to_string()]);
    let content = build_chat_content_json(&inp);
    assert_eq!(content, JsonValue::Array(vec![obj(vec![("type", text("text")), ("text", text("plain"))])]));
}

#[test]
fn chat_content_from_each_parse_result() {
    let mut inp = input("q");
    let fallback = JsonValue::Array(vec![obj(vec![("type", text("text")), ("text", text("q"))])]);
    assert_eq!(chat_content_from(&inp, "ignored".to_string(), true), fallback);
    inp.multi_modal_content = Some(vec!["1".to_string()]);
    assert_eq!(chat_content_from(&inp, "[x]".to_string(), true), JsonValue::Raw("[x]".to_string()));
    assert_eq!(chat_content_from(&inp, "[x]".to_string(), false), fallback);
}

#[test]
fn extra_body_overrides_and_extends() {
    let mut inp = input("abc");
    inp.extra_body = Some(obj(vec![
        ("truncate_prompt_tokens", JsonValue::Number(128)),
        ("encoding_format", text("float")),
        ("dimensions", JsonValue::Number(64)),
        ("encoding_format", text("base64")),
    ]));
    let p = backend(BackendKind::VllmPooling).build_payload(&inp);
    assert_eq!(
        p,
        obj(vec![
            ("model", text("base-model")),
            ("input", text("abc")),
            ("truncate_prompt_tokens", JsonValue::Number(128)),
            ("encoding_format", text("base64")),
            ("dimensions", JsonValue::Number(64)),
        ])
    );
}

#[test]
fn extra_body_that_is_not_an_object_is_ignored() {
    let mut inp = input("abc");
    inp.extra_body = Some(JsonValue::Raw("[1,2]".to_string()));
    let p = backend(BackendKind::OpenaiEmbeddings).build_payload(&inp);
    assert_eq!(p, obj(vec![("model", text("base-model")), ("input", text("abc"))]));
}

#[test]
fn extra_body_values_are_carried_whole() {
    let mut inp = input("abc");
    inp.extra_body = Some(obj(vec![
        ("nested", obj(vec![("a", JsonValue::Array(vec![JsonValue::Null, text("b")]))])),
        ("ratio", JsonValue::Raw("0.5".to_string())),
    ]));
    let p = backend(BackendKind::OpenaiEmbeddings).build_payload(&inp);
    assert_eq!(
        serde_json::to_string(&to_serde(&p)).unwrap(),
        r#"{"input":"abc","model":"base-model","nested":{"a":[null,"b"]},"ratio":0.5}"#
    );
}

#[test]
fn truncate_is_only_sent_to_vllm_backends() {
    for kind in [
        BackendKind::OpenaiEmbeddings,
        BackendKind::OpenaiEmbeddingsChat,
        BackendKind::VllmPooling,
        BackendKind::VllmRerank,
    ] {
        let p = to_serde(&backend(kind).build_payload(&input("x")));
        let has = p.get("truncate_prompt_tokens").is_some();
        let vllm = matches!(kind, BackendKind::VllmPooling | BackendKind::VllmRerank);
        assert_eq!(has, vllm);
        if vllm {
            assert_eq!(p["truncate_prompt_tokens"], serde_json::Value::from(-1));
        }
    }
}

#[test]
fn is_pooling_kinds() {
    assert!(BackendKind::OpenaiEmbeddings.is_pooling());
    assert!(BackendKind::OpenaiEmbeddingsChat.is_pooling());
    assert!(BackendKind::VllmPooling.is_pooling());
    assert!(BackendKind::VllmRerank.is_pooling());
    assert!(!BackendKind::OpenaiCompletions.is_pooling());
    assert!(!BackendKind::OpenaiChatCompletions.is_pooling());
}

#[test]
fn outcome_of_a_request_that_failed_to_send() {
    let mut out = PoolingBackend::new_outcome(&input("x"));
    assert_eq!(out.prompt_len, 7);
    assert!(!out.success);
    assert_eq!(out.error, "");
    PoolingBackend::record_send_failure(&mut out, "connection refused");
    assert_eq!(out.error, "Request failed: connection refused");
    assert!(!out.success);
    assert_eq!(out.prompt_len, 7);
}

#[test]
fn outcome_of_a_success_with_usage() {
    let mut out = PoolingBackend::new_outcome(&input("x"));
    assert_eq!(PoolingBackend::record_status(&mut out, 200), ReplyStep::ReadUsage);
    assert!(out.success);
    PoolingBackend::record_usage(
        &mut out,
        Some(PoolingResponse { usage: Some(PoolingUsage { prompt_tokens: Some(42) }) }),
    );
    assert_eq!(out.prompt_len, 42);
    assert_eq!(out.error, "");
}

#[test]
fn outcome_keeps_client_prompt_len_without_usage() {
    for parsed in [
        None,
        Some(PoolingResponse { usage: None }),
        Some(PoolingResponse { usage: Some(PoolingUsage { prompt_tokens: None }) }),
    ] {
        let mut out = PoolingBackend::new_outcome(&input("x"));
        assert_eq!(PoolingBackend::record_status(&mut out, 299), ReplyStep::ReadUsage);
        PoolingBackend::record_usage(&mut out, parsed);
        assert_eq!(out.prompt_len, 7);
        assert!(out.success);
    }
}

#[test]
fn outcome_of_an_error_status() {
    for status in [199u16, 300, 404, 500] {
        let mut out = PoolingBackend::new_outcome(&input("x"));
        assert_eq!(PoolingBackend::record_status(&mut out, status), ReplyStep::ReadErrorBody);
        assert!(!out.success);
    }
    let mut out = PoolingBackend::new_outcome(&input("x"));
    PoolingBackend::record_status(&mut out, 400);
    PoolingBackend::record_error_body(&mut out, "400 Bad Request", "{\"error\":\"bad\"}");
    assert_eq!(out.error, "HTTP 400 Bad Request: {\"error\":\"bad\"}");
    assert_eq!(out.prompt_len, 7);
}
