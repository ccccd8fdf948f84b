use vllm_bench::json::JsonValue;
use vllm_bench::mock::{
    chat_completions, completions, detokenize, estimate_prompt_tokens, models, tokenize,
    ChatCompletionRequest, CompletionRequest, DetokenizeRequest, Prompt, StreamKind, StreamStep,
    TokenStream, TokenizeRequest,
};

fn to_serde(v: &JsonValue) -> serde_json::Value {
    match v {
        JsonValue::Null => serde_json::Value::Null,
        JsonValue::Number(n) => {
            if *n >= 0 {
                serde_json::Value::from(*n as u64)
            } else {
                serde_json::Value::from(*n as i64)
            }
        }
        JsonValue::Text(s) => serde_json::Value::String(s.clone()),
        JsonValue::Array(items) => serde_json::Value::Array(items.iter().map(to_serde).collect()),
        JsonValue::Object(members) => {
            let mut map = serde_json::Map::new();
            for (k, v) in members {
                map.insert(k.clone(), to_serde(v));
            }
            serde_json::Value::Object(map)
        }
        JsonValue::Raw(text) => serde_json::from_str(text).unwrap(),
    }
}

fn event_data(step: &StreamStep) -> Option<String> {
    match step {
        StreamStep::SendJson(v) => Some(to_serde(v).to_string()),
        StreamStep::SendText(t) => Some(t.clone()),
        _ => None,
    }
}

fn run(mut stream: TokenStream) -> Vec<StreamStep> {
    let mut steps = Vec::new();
    loop {
        let step = stream.next_step();
        if step == StreamStep::Finished {
            break;
        }
        steps.push(step);
        assert!(steps.len() < 10_000);
    }
    assert_eq!(stream.next_step(), StreamStep::Finished);
    steps
}

fn completion_request(prompt: Option<Prompt>, max_tokens: Option<usize>) -> CompletionRequest {
    CompletionRequest { model: Some("mock-model".to_string()), prompt, max_tokens, stream: Some(true) }
}

#[test]
fn models_lists_the_mock_model() {
    let m = models();
    assert_eq!(m.data.len(), 1);
    assert_eq!(m.data[0].id, "mock-model");
    assert_eq!(m.data[0].root, "mock-model");
    assert_eq!(m.data[0].object, "model");
}

#[test]
fn prompt_estimate() {
    assert_eq!(estimate_prompt_tokens(&None), 32);
    assert_eq!(estimate_prompt_tokens(&Some(Prompt::Other)), 32);
    assert_eq!(estimate_prompt_tokens(&Some(Prompt::Text(String::new()))), 0);
    assert_eq!(estimate_prompt_tokens(&Some(Prompt::Text("  one two\tthree \n".to_string()))), 3);
}

#[test]
fn tokenize_counts_words() {
    let r = tokenize(&TokenizeRequest { model: None, prompt: Some("the quick  brown fox".to_string()) });
    assert_eq!(r.count, 4);
    assert_eq!(r.tokens, vec![0, 1, 2, 3]);
    let r = tokenize(&TokenizeRequest { model: None, prompt: None });
    assert_eq!(r.count, 0);
    assert!(r.tokens.is_empty());
    let r = tokenize(&TokenizeRequest { model: None, prompt: Some(String::new()) });
    assert_eq!(r.count, 0);
}

#[test]
fn detokenize_writes_placeholder_words() {
    let r = detokenize(&DetokenizeRequest { model: None, tokens: Some(vec![17, 4, 99]) });
    assert_eq!(r.prompt, "w0 w1 w2");
    let r = detokenize(&DetokenizeRequest { model: None, tokens: None });
    assert_eq!(r.prompt, "");
    let r = detokenize(&DetokenizeRequest { model: None, tokens: Some(Vec::new()) });
    assert_eq!(r.prompt, "");
}

#[test]
fn detokenize_then_tokenize_keeps_the_count() {
    for n in [0usize, 1, 2, 11, 250] {
        let d = detokenize(&DetokenizeRequest { model: None, tokens: Some(vec![5; n]) });
        let t = tokenize(&TokenizeRequest { model: None, prompt: Some(d.prompt) });
        assert_eq!(t.count, n);
    }
}

#[test]
fn completion_stream_of_three_tokens() {
    let steps = run(TokenStream::new(StreamKind::Completion, "abc".to_string(), 3, 5));
    assert_eq!(steps.len(), 2 + 5 + 2);
    assert_eq!(steps[0], StreamStep::WaitFirstToken);
    assert_eq!(steps[1], StreamStep::StartTicking);
    assert_eq!(
        event_data(&steps[2]).unwrap(),
        r#"{"choices":[{"finish_reason":null,"index":0,"text":" tok0"}],"id":"cmpl-abc","object":"text_completion"}"#
    );
    assert_eq!(steps[3], StreamStep::WaitTick);
    assert_eq!(
        event_data(&steps[4]).unwrap(),
        r#"{"choices":[{"finish_reason":null,"index":0,"text":" tok1"}],"id":"cmpl-abc","object":"text_completion"}"#
    );
    assert_eq!(steps[5], StreamStep::WaitTick);
    assert_eq!(
        event_data(&steps[6]).unwrap(),
        r#"{"choices":[{"finish_reason":null,"index":0,"text":" tok2"}],"id":"cmpl-abc","object":"text_completion"}"#
    );
    assert_eq!(
        event_data(&steps[7]).unwrap(),
        r#"{"choices":[],"id":"cmpl-abc","object":"text_completion","usage":{"completion_tokens":3,"prompt_tokens":5,"total_tokens":8}}"#
    );
    assert_eq!(steps[8], StreamStep::SendText("[DONE]".to_string()));
}

#[test]
fn chat_stream_of_two_tokens() {
    let steps = run(TokenStream::new(StreamKind::Chat, "id9".to_string(), 2, 32));
    assert_eq!(steps.len(), 2 + 3 + 2);
    assert_eq!(
        event_data(&steps[2]).unwrap(),
        r#"{"choices":[{"delta":{"content":" tok0"},"finish_reason":null,"index":0}],"id":"chatcmpl-id9","object":"chat.completion.chunk"}"#
    );
    assert_eq!(steps[3], StreamStep::WaitTick);
    assert_eq!(
        event_data(&steps[4]).unwrap(),
        r#"{"choices":[{"delta":{"content":" tok1"},"finish_reason":null,"index":0}],"id":"chatcmpl-id9","object":"chat.completion.chunk"}"#
    );
    assert_eq!(
        event_data(&steps[5]).unwrap(),
        r#"{"choices":[],"id":"chatcmpl-id9","object":"chat.completion.chunk","usage":{"completion_tokens":2,"prompt_tokens":32,"total_tokens":34}}"#
    );
    assert_eq!(event_data(&steps[6]).unwrap(), "[DONE]");
}

#[test]
fn stream_without_tokens() {
    let steps = run(TokenStream::new(StreamKind::Completion, "z".to_string(), 0, 0));
    assert_eq!(steps.len(), 4);
    assert_eq!(steps[0], StreamStep::WaitFirstToken);
    assert_eq!(steps[1], StreamStep::StartTicking);
    assert_eq!(
        event_data(&steps[2]).unwrap(),
        r#"{"choices":[],"id":"cmpl-z","object":"text_completion","usage":{"completion_tokens":0,"prompt_tokens":0,"total_tokens":0}}"#
    );
    assert_eq!(event_data(&steps[3]).unwrap(), "[DONE]");
}

#[test]
fn stream_of_one_token_has_no_tick() {
    let steps = run(TokenStream::new(StreamKind::Chat, "q".to_string(), 1, 1));
    assert_eq!(steps.len(), 5);
    assert!(!steps.contains(&StreamStep::WaitTick));
}

#[test]
fn long_stream_shape() {
    let n = 100usize;
    let steps = run(TokenStream::new(StreamKind::Completion, "long".to_string(), n, 7));
    assert_eq!(steps.len(), 2 * n - 1 + 4);
    let chunks: Vec<String> = steps.iter().filter_map(event_data).collect();
    assert_eq!(chunks.len(), n + 2);
    for (i, chunk) in chunks.iter().take(n).enumerate() {
        let v: serde_json::Value = serde_json::from_str(chunk).unwrap();
        assert_eq!(v["choices"][0]["text"], serde_json::Value::String(format!(" tok{i}")));
        assert_eq!(v["id"], serde_json::Value::String("cmpl-long".to_string()));
    }
    let ticks = steps.iter().filter(|s| **s == StreamStep::WaitTick).count();
    assert_eq!(ticks, n - 1);
}

fn first_chunk_id(stream: TokenStream) -> String {
    let steps = run(stream);
    let v: serde_json::Value = serde_json::from_str(&event_data(&steps[2]).unwrap()).unwrap();
    v["id"].as_str().unwrap().to_string()
}

#[test]
fn completions_uses_max_tokens_or_default_and_a_fresh_id() {
    let s = completions(
        4,
        &completion_request(Some(Prompt::Text("a b c".to_string())), None),
        "r1".to_string(),
    );
    let steps = run(s);
    assert_eq!(steps.len(), 2 * 4 - 1 + 4);
    let usage: serde_json::Value =
        serde_json::from_str(&event_data(&steps[steps.len() - 2]).unwrap()).unwrap();
    assert_eq!(usage["usage"]["completion_tokens"], 4);
    assert_eq!(usage["usage"]["prompt_tokens"], 3);
    assert_eq!(usage["usage"]["total_tokens"], 7);

    let s = completions(4, &completion_request(Some(Prompt::Other), Some(2)), "r2".to_string());
    let steps = run(s);
    assert_eq!(steps.len(), 2 * 2 - 1 + 4);
    let usage: serde_json::Value =
        serde_json::from_str(&event_data(&steps[steps.len() - 2]).unwrap()).unwrap();
    assert_eq!(usage["usage"]["prompt_tokens"], 32);

    let a = first_chunk_id(completions(1, &completion_request(None, None), "abc-123".to_string()));
    assert_eq!(a, "cmpl-abc-123");
}

#[test]
fn chat_completions_token_count_precedence() {
    let req = |mct: Option<usize>, mt: Option<usize>| ChatCompletionRequest {
        model: None,
        max_completion_tokens: mct,
        max_tokens: mt,
        stream: Some(true),
    };
    let count = |r: ChatCompletionRequest| {
        let steps = run(chat_completions(6, &r, "c".to_string()));
        let usage: serde_json::Value =
            serde_json::from_str(&event_data(&steps[steps.len() - 2]).unwrap()).unwrap();
        assert_eq!(usage["usage"]["prompt_tokens"], 32);
        usage["usage"]["completion_tokens"].as_u64().unwrap()
    };
    assert_eq!(count(req(Some(2), Some(3))), 2);
    assert_eq!(count(req(None, Some(3))), 3);
    assert_eq!(count(req(None, None)), 6);
    let id = first_chunk_id(chat_completions(1, &req(None, None), "xyz".to_string()));
    assert_eq!(id, "chatcmpl-xyz");
}

fn events_without_id(stream: TokenStream) -> Vec<String> {
    run(stream)
        .iter()
        .map(|step| match step {
            StreamStep::SendJson(v) => {
                let mut value = to_serde(v);
                value["id"] = serde_json::Value::String(String::new());
                value.to_string()
            }
            StreamStep::SendText(t) => t.clone(),
            other => format!("{:?}", other),
        })
        .collect()
}

#[test]
fn identical_requests_stream_the_same_events_apart_from_the_id() {
    let request = || completion_request(Some(Prompt::Text("one two".to_string())), Some(5));
    let a = events_without_id(completions(100, &request(), "first".to_string()));
    let b = events_without_id(completions(100, &request(), "second".to_string()));
    assert_eq!(a.len(), 2 * 5 - 1 + 4);
    assert_eq!(a, b);
    let chat = |id: &str| {
        let r = ChatCompletionRequest { model: None, max_completion_tokens: Some(3), max_tokens: None, stream: None };
        events_without_id(chat_completions(100, &r, id.to_string()))
    };
    assert_eq!(chat("p"), chat("q"));
}
