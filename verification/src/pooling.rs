//! Pooling and embedding backends: the JSON body of a request to the
//! `openai-embeddings`, `openai-embeddings-chat`, `vllm-pooling` and
//! `vllm-rerank` endpoints, and what a reply does to the request's outcome.
use vstd::prelude::*;

use crate::escape::{json_escape, push_json_escaped_str};
use crate::json::{
    array_value, distinct_keys, get_member, has_key, items_model, last_value, lemma_merge, member,
    members_model, merge_members, object_merge, object_value, text_value, Json, JsonValue,
};

verus! {

/// The benchmark backends. The pooling backends are the last four.
#[derive(Clone, Copy, Debug, PartialEq, Eq)]
pub enum BackendKind {
    OpenaiCompletions,
    OpenaiChatCompletions,
    OpenaiEmbeddings,
    OpenaiEmbeddingsChat,
    VllmPooling,
    VllmRerank,
}

/// The backends that pooling requests serve.
pub open spec fn is_pooling_kind(kind: BackendKind) -> bool {
    match kind {
        BackendKind::OpenaiEmbeddings
        | BackendKind::OpenaiEmbeddingsChat
        | BackendKind::VllmPooling
        | BackendKind::VllmRerank => true,
        _ => false,
    }
}

/// The vLLM backends, which take `truncate_prompt_tokens`.
pub open spec fn is_vllm_kind(kind: BackendKind) -> bool {
    match kind {
        BackendKind::VllmPooling | BackendKind::VllmRerank => true,
        _ => false,
    }
}

impl BackendKind {
    pub fn is_pooling(&self) -> (b: bool)
        ensures
            b == is_pooling_kind(*self),
    {
        match self {
            BackendKind::OpenaiEmbeddings
            | BackendKind::OpenaiEmbeddingsChat
            | BackendKind::VllmPooling
            | BackendKind::VllmRerank => true,
            _ => false,
        }
    }
}

/// The backend for embedding, pooling and rerank endpoints.
#[derive(Clone, Copy, Debug)]
pub struct PoolingBackend {
    pub kind: BackendKind,
}

/// One benchmark request.
#[derive(Debug, PartialEq)]
pub struct RequestFuncInput {
    pub prompt: String,
    pub api_url: String,
    pub prompt_len: usize,
    pub model: String,
    pub model_name: Option<String>,
    pub prompt_token_ids: Option<Vec<u32>>,
    pub multi_modal_content: Option<Vec<String>>,
    pub extra_body: Option<JsonValue>,
    pub extra_headers: Vec<(String, String)>,
    pub request_id: String,
}

/// The model named in the body: `model_name` where it is set, else `model`.
pub open spec fn model_field(input: RequestFuncInput) -> Seq<char> {
    match input.model_name {
        Some(name) => name@,
        None => input.model@,
    }
}

/// Token ids as JSON numbers.
pub open spec fn token_ids_model(ids: Seq<u32>) -> Seq<Json> {
    Seq::new(ids.len(), |i: int| Json::Number(ids[i] as int))
}

/// The `input` field: the prompt's token ids where there are any, else the
/// prompt text.
pub open spec fn input_field(input: RequestFuncInput) -> Json {
    match input.prompt_token_ids {
        Some(ids) => Json::Array(token_ids_model(ids@)),
        None => Json::Text(input.prompt@),
    }
}

/// Chat content holding the prompt as its one text part.
pub open spec fn text_content(prompt: Seq<char>) -> Json {
    Json::Array(seq![Json::Object(seq![("type"@, Json::Text("text"@)), ("text"@, Json::Text(prompt))])])
}

/// Each fragment after a comma.
pub open spec fn fragments_text(fragments: Seq<Seq<char>>) -> Seq<char>
    decreases fragments.len(),
{
    if fragments.len() == 0 {
        Seq::empty()
    } else {
        fragments_text(fragments.drop_last()).push(',') + fragments.last()
    }
}

/// The views of a list of strings.
pub open spec fn strings_model(v: Seq<String>) -> Seq<Seq<char>> {
    Seq::new(v.len(), |i: int| v[i]@)
}

/// The JSON text of multimodal chat content: an array whose first element
/// is the text part with the escaped prompt, followed by the fragments,
/// which are JSON texts themselves, as they are.
pub open spec fn multimodal_text(prompt: Seq<char>, fragments: Seq<Seq<char>>) -> Seq<char> {
    "[{\"type\":\"text\",\"text\":\""@ + json_escape(prompt) + "\"}"@ + fragments_text(fragments)
        + "]"@
}

/// Whether `serde_json::from_str` reads `text` as a JSON value.
pub uninterp spec fn json_text_is_valid(text: Seq<char>) -> bool;

/// `serde_json::from_str::<serde_json::Value>`, reduced to whether it
/// succeeds. What it accepts (RFC 8259 JSON, nested at most 128 deep) takes
/// pages to state and depends on the text alone, so the contract names it.
#[verifier::external_body]
fn parses_as_json(text: &str) -> (ok: bool)
    ensures
        ok == json_text_is_valid(text@),
{
    serde_json::from_str::<serde_json::Value>(text).is_ok()
}

/// The chat content given whether the assembled multimodal text parsed:
/// the text part alone without multimodal content, the assembled text where
/// it parsed, and the text part alone where it did not.
pub open spec fn chat_content(input: RequestFuncInput, assembled: Seq<char>, parsed: bool) -> Json {
    match input.multi_modal_content {
        None => text_content(input.prompt@),
        Some(_) => if parsed {
            Json::Raw(assembled)
        } else {
            text_content(input.prompt@)
        },
    }
}

/// The multimodal text of a request that has multimodal content.
pub open spec fn multimodal_text_of(input: RequestFuncInput) -> Seq<char> {
    match input.multi_modal_content {
        Some(fragments) => multimodal_text(input.prompt@, strings_model(fragments@)),
        None => Seq::empty(),
    }
}

/// The chat content that a request gets.
pub open spec fn chat_content_of(input: RequestFuncInput) -> Json {
    chat_content(
        input,
        multimodal_text_of(input),
        json_text_is_valid(multimodal_text_of(input)),
    )
}

/// The members of the body before the extra fields are merged in.
pub open spec fn base_members(kind: BackendKind, input: RequestFuncInput, content: Json) -> Seq<
    (Seq<char>, Json),
> {
    let model = ("model"@, Json::Text(model_field(input)));
    let truncate = ("truncate_prompt_tokens"@, Json::Number(-1));
    match kind {
        BackendKind::OpenaiEmbeddings => seq![model, ("input"@, input_field(input))],
        BackendKind::OpenaiEmbeddingsChat => seq![
            model,
            (
                "messages"@,
                Json::Array(
                    seq![Json::Object(seq![("role"@, Json::Text("user"@)), ("content"@, content)])],
                ),
            ),
        ],
        BackendKind::VllmPooling => seq![model, ("input"@, input_field(input)), truncate],
        BackendKind::VllmRerank => seq![model, ("query"@, Json::Text(input.prompt@)), truncate],
        _ => Seq::empty(),
    }
}

/// The extra fields: the members of `extra_body` where it is an object.
pub open spec fn extra_members(input: RequestFuncInput) -> Seq<(Seq<char>, Json)> {
    match input.extra_body {
        Some(v) => match v@ {
            Json::Object(m) => m,
            _ => Seq::empty(),
        },
        None => Seq::empty(),
    }
}

/// The request body, given the chat content.
pub open spec fn payload_model(kind: BackendKind, input: RequestFuncInput, content: Json) -> Json {
    Json::Object(object_merge(base_members(kind, input, content), extra_members(input)))
}

/// The multimodal text: the text part with the escaped prompt, then each
/// fragment after a comma, then the closing bracket.
pub fn assemble_multimodal_text(prompt: &str, fragments: &Vec<String>) -> (text: String)
    ensures
        text@ == multimodal_text(prompt@, strings_model(fragments@)),
{
    let mut json = String::new();
    json.append("[{\"type\":\"text\",\"text\":\"");
    push_json_escaped_str(&mut json, prompt);
    json.append("\"}");
    let ghost head = json@;
    let n = fragments.len();
    let mut i: usize = 0;
    while i < n
        invariant
            n == fragments@.len(),
            i <= n,
            json@ == head + fragments_text(strings_model(fragments@).take(i as int)),
        decreases n - i,
    {
        let ghost before = json@;
        crate::text::push_char(&mut json, ',');
        json.append(fragments[i].as_str());
        proof {
            let f = strings_model(fragments@);
            assert(f.take(i + 1).drop_last() =~= f.take(i as int));
            assert(f.take(i + 1).last() == fragments@[i as int]@);
            assert(json@ =~= head + fragments_text(f.take(i + 1)));
        }
        i = i + 1;
    }
    json.append("]");
    proof {
        assert(strings_model(fragments@).take(n as int) =~= strings_model(fragments@));
    }
    json
}

fn text_content_value(prompt: &String) -> (v: JsonValue)
    ensures
        v@ == text_content(prompt@),
{
    let part = vec![member("type", text_value("text")), member("text", JsonValue::Text(prompt.clone()))];
    let ghost part_model = seq![("type"@, Json::Text("text"@)), ("text"@, Json::Text(prompt@))];
    assert(members_model(part@) =~= part_model);
    let items = vec![object_value(part)];
    assert(items_model(items@) =~= seq![Json::Object(part_model)]);
    array_value(items)
}

/// The chat content, given the assembled multimodal text and whether it
/// parsed as JSON.
pub fn chat_content_from(input: &RequestFuncInput, assembled: String, parsed: bool) -> (v: JsonValue)
    ensures
        v@ == chat_content(*input, assembled@, parsed),
{
    match &input.multi_modal_content {
        None => text_content_value(&input.prompt),
        Some(_) => {
            if parsed {
                JsonValue::Raw(assembled)
            } else {
                text_content_value(&input.prompt)
            }
        },
    }
}

/// Builds the chat content of an `openai-embeddings-chat` body: always a
/// content array. Multimodal fragments are spliced in as raw JSON text next
/// to the text part; where the result does not parse, the text part alone.
pub fn build_chat_content_json(input: &RequestFuncInput) -> (v: JsonValue)
    ensures
        v@ == chat_content_of(*input),
{
    match &input.multi_modal_content {
        None => chat_content_from(input, String::new(), false),
        Some(fragments) => {
            let assembled = assemble_multimodal_text(input.prompt.as_str(), fragments);
            let parsed = parses_as_json(assembled.as_str());
            chat_content_from(input, assembled, parsed)
        },
    }
}

fn token_ids_value(ids: &Vec<u32>) -> (v: JsonValue)
    ensures
        v@ == Json::Array(token_ids_model(ids@)),
{
    let mut items: Vec<JsonValue> = Vec::new();
    let n = ids.len();
    let mut i: usize = 0;
    while i < n
        invariant
            n == ids@.len(),
            i <= n,
            items@.len() == i,
            forall|j: int| 0 <= j < i ==> #[trigger] items@[j]@ == Json::Number(ids@[j] as int),
        decreases n - i,
    {
        items.push(JsonValue::Number(ids[i] as i128));
        i = i + 1;
    }
    assert(items_model(items@) =~= token_ids_model(ids@));
    array_value(items)
}

fn input_field_value(input: &RequestFuncInput) -> (v: JsonValue)
    ensures
        v@ == input_field(*input),
{
    match &input.prompt_token_ids {
        Some(ids) => token_ids_value(ids),
        None => JsonValue::Text(input.prompt.clone()),
    }
}

impl PoolingBackend {
    /// Whether a rerank request has no text query to send: its prompt is
    /// empty and only token ids are at hand, which rerank cannot use.
    pub fn rerank_query_missing(&self, input: &RequestFuncInput) -> (b: bool)
        ensures
            b == (self.kind == BackendKind::VllmRerank && input.prompt@.len() == 0
                && input.prompt_token_ids is Some),
    {
        match self.kind {
            BackendKind::VllmRerank => input.prompt.as_str().is_empty()
                && input.prompt_token_ids.is_some(),
            _ => false,
        }
    }

    /// The request body, given the chat content (which only the
    /// `openai-embeddings-chat` body holds): the backend's own members, then
    /// the members of an object `extra_body` set over them in order.
    pub fn payload_with_content(&self, input: &RequestFuncInput, content: JsonValue) -> (v:
        JsonValue)
        requires
            is_pooling_kind(self.kind),
        ensures
            v@ == payload_model(self.kind, *input, content@),
    {
        let ghost content_model = content@;
        let model = match &input.model_name {
            Some(name) => name.clone(),
            None => input.model.clone(),
        };
        proof {
            reveal_strlit("model");
            reveal_strlit("input");
            reveal_strlit("messages");
            reveal_strlit("query");
            reveal_strlit("truncate_prompt_tokens");
        }
        let mut members: Vec<(String, JsonValue)> = match self.kind {
            BackendKind::OpenaiEmbeddings => {
                let m = vec![
                    member("model", JsonValue::Text(model)),
                    member("input", input_field_value(input)),
                ];
                assert(members_model(m@) =~= base_members(self.kind, *input, content_model));
                m
            },
            BackendKind::OpenaiEmbeddingsChat => {
                let message = vec![member("role", text_value("user")), member("content", content)];
                let ghost message_model = seq![
                    ("role"@, Json::Text("user"@)),
                    ("content"@, content_model),
                ];
                assert(members_model(message@) =~= message_model);
                let messages = vec![object_value(message)];
                assert(items_model(messages@) =~= seq![Json::Object(message_model)]);
                let m = vec![member("model", JsonValue::Text(model)), member("messages", array_value(messages))];
                assert(members_model(m@) =~= base_members(self.kind, *input, content_model));
                m
            },
            BackendKind::VllmPooling => {
                let m = vec![
                    member("model", JsonValue::Text(model)),
                    member("input", input_field_value(input)),
                    member("truncate_prompt_tokens", JsonValue::Number(-1)),
                ];
                assert(members_model(m@) =~= base_members(self.kind, *input, content_model));
                m
            },
            _ => {
                let m = vec![
                    member("model", JsonValue::Text(model)),
                    member("query", JsonValue::Text(input.prompt.clone())),
                    member("truncate_prompt_tokens", JsonValue::Number(-1)),
                ];
                assert(members_model(m@) =~= base_members(self.kind, *input, content_model));
                m
            },
        };
        let ghost base = members_model(members@);
        proof {
            lemma_base_members_distinct(self.kind, *input, content_model);
        }
        match &input.extra_body {
            Some(extra) => {
                let copy = extra.deep_copy();
                match copy {
                    JsonValue::Object(fields) => {
                        proof {
                            crate::json::lemma_object_model(fields);
                        }
                        merge_members(&mut members, fields);
                    },
                    _ => {
                        assert(object_merge(base, Seq::empty()) == base);
                    },
                }
            },
            None => {
                assert(object_merge(base, Seq::empty()) == base);
            },
        }
        object_value(members)
    }

    /// The JSON body of a pooling request.
    pub fn build_payload(&self, input: &RequestFuncInput) -> (v: JsonValue)
        requires
            is_pooling_kind(self.kind),
        ensures
            v@ == payload_model(self.kind, *input, chat_content_of(*input)),
    {
        match self.kind {
            BackendKind::OpenaiEmbeddingsChat => {
                let content = build_chat_content_json(input);
                self.payload_with_content(input, content)
            },
            _ => {
                let v = self.payload_with_content(input, JsonValue::Null);
                assert(base_members(self.kind, *input, Json::Null) == base_members(
                    self.kind,
                    *input,
                    chat_content_of(*input),
                ));
                v
            },
        }
    }
}

/// The `usage` object of a pooling reply, as far as it is read.
#[derive(Debug, PartialEq)]
pub struct PoolingUsage {
    pub prompt_tokens: Option<u64>,
}

/// A pooling reply, as far as it is read.
#[derive(Debug, PartialEq)]
pub struct PoolingResponse {
    pub usage: Option<PoolingUsage>,
}

/// What a request comes to, apart from its timings.
#[derive(Debug, PartialEq)]
pub struct RequestOutcome {
    pub prompt_len: usize,
    pub success: bool,
    pub error: String,
}

/// What the client does after the reply's status line.
#[derive(Debug, PartialEq)]
pub enum ReplyStep {
    /// Read the body for the server's usage figures.
    ReadUsage,
    /// Read the body as the error text.
    ReadErrorBody,
}

/// A successful HTTP status: 200 to 299.
pub open spec fn status_is_success(status: u16) -> bool {
    200 <= status && status < 300
}

/// The prompt length that a parsed reply reports, if it reports one.
pub open spec fn reported_prompt_len(parsed: Option<PoolingResponse>) -> Option<usize> {
    match parsed {
        Some(reply) => match reply.usage {
            Some(usage) => match usage.prompt_tokens {
                Some(tokens) => Some(tokens as usize),
                None => None,
            },
            None => None,
        },
        None => None,
    }
}

impl PoolingBackend {
    /// The outcome before the request is sent: the client's own prompt
    /// length, no success and no error.
    pub fn new_outcome(input: &RequestFuncInput) -> (out: RequestOutcome)
        ensures
            out.prompt_len == input.prompt_len,
            !out.success,
            out.error@ == Seq::<char>::empty(),
    {
        RequestOutcome { prompt_len: input.prompt_len, success: false, error: String::new() }
    }

    /// The request could not be sent: the error says why, and nothing else
    /// changes.
    pub fn record_send_failure(outcome: &mut RequestOutcome, message: &str)
        ensures
            final(outcome).error@ == "Request failed: "@ + message@,
            final(outcome).prompt_len == old(outcome).prompt_len,
            final(outcome).success == old(outcome).success,
    {
        let mut error = String::from_str("Request failed: ");
        error.append(message);
        outcome.error = error;
    }

    /// The reply's status: a success status marks the request a success and
    /// has the body read for usage; any other has it read as the error.
    pub fn record_status(outcome: &mut RequestOutcome, status: u16) -> (next: ReplyStep)
        ensures
            status_is_success(status) ==> next is ReadUsage && final(outcome).success,
            !status_is_success(status) ==> next is ReadErrorBody && final(outcome).success == old(
                outcome,
            ).success,
            final(outcome).prompt_len == old(outcome).prompt_len,
            final(outcome).error == old(outcome).error,
    {
        if 200 <= status && status < 300 {
            outcome.success = true;
            ReplyStep::ReadUsage
        } else {
            ReplyStep::ReadErrorBody
        }
    }

    /// The body of a successful reply, parsed where it parsed: the server's
    /// prompt token count replaces the client's where the reply reports
    /// one; otherwise the client's stays.
    pub fn record_usage(outcome: &mut RequestOutcome, parsed: Option<PoolingResponse>)
        ensures
            final(outcome).prompt_len == (match reported_prompt_len(parsed) {
                Some(n) => n,
                None => old(outcome).prompt_len,
            }),
            final(outcome).success == old(outcome).success,
            final(outcome).error == old(outcome).error,
    {
        if let Some(reply) = parsed {
            if let Some(usage) = reply.usage {
                if let Some(tokens) = usage.prompt_tokens {
                    outcome.prompt_len = tokens as usize;
                }
            }
        }
    }

    /// The body of a failed reply: the error names the status and gives the
    /// body.
    pub fn record_error_body(outcome: &mut RequestOutcome, status_text: &str, body: &str)
        ensures
            final(outcome).error@ == "HTTP "@ + status_text@ + ": "@ + body@,
            final(outcome).prompt_len == old(outcome).prompt_len,
            final(outcome).success == old(outcome).success,
    {
        let mut error = String::from_str("HTTP ");
        error.append(status_text);
        error.append(": ");
        error.append(body);
        outcome.error = error;
    }
}

proof fn lemma_base_members_distinct(kind: BackendKind, input: RequestFuncInput, content: Json)
    ensures
        distinct_keys(base_members(kind, input, content)),
{
    reveal_strlit("model");
    reveal_strlit("input");
    reveal_strlit("messages");
    reveal_strlit("query");
    reveal_strlit("truncate_prompt_tokens");
    assert("model"@[0] != "input"@[0]);
    assert("model"@.len() != "messages"@.len());
    assert("model"@[0] != "query"@[0]);
    assert("truncate_prompt_tokens"@.len() != "model"@.len());
    assert("truncate_prompt_tokens"@.len() != "input"@.len());
    assert("truncate_prompt_tokens"@.len() != "query"@.len());
}

proof fn lemma_get_listed(m: Seq<(Seq<char>, Json)>, i: int)
    requires
        distinct_keys(m),
        0 <= i < m.len(),
    ensures
        get_member(m, m[i].0) == Some(m[i].1),
{
    let k = crate::json::key_index(m, m[i].0);
    assert(has_key(m, m[i].0));
    if k != i {
        assert(m[k].0 == m[i].0);
    }
}

proof fn lemma_get_unlisted(m: Seq<(Seq<char>, Json)>, key: Seq<char>)
    requires
        forall|i: int| 0 <= i < m.len() ==> #[trigger] m[i].0 != key,
    ensures
        get_member(m, key) == None::<Json>,
{
}

/// Every field of a pooling body: the names are distinct, and each field
/// holds the value of the last member of an object `extra_body` so named,
/// or else the backend's own value.
pub proof fn lemma_payload_fields(kind: BackendKind, input: RequestFuncInput, content: Json, key: Seq<char>)
    ensures
        distinct_keys(payload_model(kind, input, content)->Object_0),
        get_member(payload_model(kind, input, content)->Object_0, key) == (match last_value(
            extra_members(input),
            key,
        ) {
            Some(v) => Some(v),
            None => get_member(base_members(kind, input, content), key),
        }),
{
    lemma_base_members_distinct(kind, input, content);
    lemma_merge(base_members(kind, input, content), extra_members(input), key);
}

/// `truncate_prompt_tokens` is set to -1 exactly for the vLLM backends,
/// unless `extra_body` sets it.
pub proof fn lemma_truncate_only_for_vllm(kind: BackendKind, input: RequestFuncInput, content: Json)
    requires
        is_pooling_kind(kind),
        !has_key(extra_members(input), "truncate_prompt_tokens"@),
    ensures
        get_member(payload_model(kind, input, content)->Object_0, "truncate_prompt_tokens"@) == if is_vllm_kind(kind) {
            Some(Json::Number(-1))
        } else {
            None::<Json>
        },
{
    let key = "truncate_prompt_tokens"@;
    let base = base_members(kind, input, content);
    lemma_payload_fields(kind, input, content, key);
    lemma_base_members_distinct(kind, input, content);
    crate::json::lemma_last_value_has_key(extra_members(input), key);
    reveal_strlit("model");
    reveal_strlit("input");
    reveal_strlit("messages");
    reveal_strlit("query");
    reveal_strlit("truncate_prompt_tokens");
    if is_vllm_kind(kind) {
        lemma_get_listed(base, 2);
    } else {
        assert("truncate_prompt_tokens"@.len() != "model"@.len());
        assert("truncate_prompt_tokens"@.len() != "input"@.len());
        assert("truncate_prompt_tokens"@.len() != "messages"@.len());
        lemma_get_unlisted(base, key);
    }
}

/// The `input` field of the `openai-embeddings` and `vllm-pooling` bodies
/// holds the prompt's token ids where there are any, else the prompt text,
/// unless `extra_body` sets it.
pub proof fn lemma_input_prefers_token_ids(kind: BackendKind, input: RequestFuncInput, content: Json)
    requires
        kind == BackendKind::OpenaiEmbeddings || kind == BackendKind::VllmPooling,
        !has_key(extra_members(input), "input"@),
    ensures
        get_member(payload_model(kind, input, content)->Object_0, "input"@) == Some(
            match input.prompt_token_ids {
                Some(ids) => Json::Array(token_ids_model(ids@)),
                None => Json::Text(input.prompt@),
            },
        ),
{
    lemma_payload_fields(kind, input, content, "input"@);
    lemma_base_members_distinct(kind, input, content);
    crate::json::lemma_last_value_has_key(extra_members(input), "input"@);
    lemma_get_listed(base_members(kind, input, content), 1);
}

/// The assembled multimodal text is the text part's opening, then a valid
/// JSON string body that stands for exactly the prompt, then the closing of
/// the text part, the fragments and the closing bracket.
pub proof fn lemma_multimodal_text_holds_prompt(prompt: Seq<char>, fragments: Seq<Seq<char>>)
    ensures
        (exists|body: Seq<char>|
            multimodal_text(prompt, fragments) == "[{\"type\":\"text\",\"text\":\""@ + body
                + "\"}"@ + fragments_text(fragments) + "]"@ && #[trigger] crate::escape::json_unescape(
                body,
            ) == Some(prompt)),
{
    crate::escape::lemma_escape_roundtrip(prompt);
    let body = json_escape(prompt);
    assert(crate::escape::json_unescape(body) == Some(prompt));
}

/// Every pooling body names the served model: `model_name` where it is set,
/// else `model`, unless `extra_body` sets `model`.
pub proof fn lemma_model_is_served_name(kind: BackendKind, input: RequestFuncInput, content: Json)
    requires
        is_pooling_kind(kind),
        !has_key(extra_members(input), "model"@),
    ensures
        get_member(payload_model(kind, input, content)->Object_0, "model"@) == Some(
            Json::Text(
                match input.model_name {
                    Some(name) => name@,
                    None => input.model@,
                },
            ),
        ),
{
    lemma_payload_fields(kind, input, content, "model"@);
    lemma_base_members_distinct(kind, input, content);
    crate::json::lemma_last_value_has_key(extra_members(input), "model"@);
    lemma_get_listed(base_members(kind, input, content), 0);
}

/// The total length of the fragments, each counted with the comma before it.
pub open spec fn fragments_len(fragments: Seq<Seq<char>>) -> nat
    decreases fragments.len(),
{
    if fragments.len() == 0 {
        0
    } else {
        fragments_len(fragments.drop_last()) + fragments.last().len() + 1
    }
}

/// Where fragment `i` (with its comma) starts among the fragments.
pub open spec fn fragment_offset(fragments: Seq<Seq<char>>, i: int) -> int {
    fragments_len(fragments.take(i)) as int
}

proof fn lemma_fragments_layout(fragments: Seq<Seq<char>>)
    ensures
        fragments_text(fragments).len() == fragments_len(fragments),
        forall|i: int|
            0 <= i < fragments.len() ==> {
                &&& #[trigger] fragment_offset(fragments, i) + fragments[i].len() + 1 <= fragments_len(
                    fragments,
                )
                &&& fragments_text(fragments)[fragment_offset(fragments, i) as int] == ','
                &&& fragments_text(fragments).subrange(
                    fragment_offset(fragments, i) + 1,
                    fragment_offset(fragments, i) + 1 + fragments[i].len(),
                ) == fragments[i]
            },
    decreases fragments.len(),
{
    if fragments.len() > 0 {
        let prev = fragments.drop_last();
        lemma_fragments_layout(prev);
        let t = fragments_text(fragments);
        let pt = fragments_text(prev);
        let last = fragments.last();
        assert forall|i: int| 0 <= i < fragments.len() implies {
            &&& #[trigger] fragment_offset(fragments, i) + fragments[i].len() + 1 <= fragments_len(
                fragments,
            )
            &&& fragments_text(fragments)[fragment_offset(fragments, i) as int] == ','
            &&& fragments_text(fragments).subrange(
                fragment_offset(fragments, i) + 1,
                fragment_offset(fragments, i) + 1 + fragments[i].len(),
            ) == fragments[i]
        } by {
            if i < prev.len() {
                assert(fragments.take(i) =~= prev.take(i));
                assert(prev[i] == fragments[i]);
                let o = fragment_offset(prev, i);
                assert(fragment_offset(prev, i) + prev[i].len() + 1 <= fragments_len(prev));
                assert(t[o as int] == pt[o as int]);
                assert(t.subrange(o + 1, o + 1 + fragments[i].len()) =~= pt.subrange(
                    o + 1,
                    o + 1 + prev[i].len(),
                ));
            } else {
                assert(fragments.take(i) =~= prev);
                assert(t.subrange(pt.len() as int + 1, pt.len() as int + 1 + last.len()) =~= last);
            }
        }
    }
}

/// The assembled multimodal text is the text part, then every fragment in
/// order, each after a comma and none left out, then `]`: fragment `i`
/// stands right after a comma at its offset, which is the sum of the
/// lengths (plus one) of the fragments before it, and the text ends one
/// character after the last fragment.
pub proof fn lemma_multimodal_text_keeps_every_fragment(prompt: Seq<char>, fragments: Seq<Seq<char>>)
    ensures
        ({
            let head = "[{\"type\":\"text\",\"text\":\""@ + json_escape(prompt) + "\"}"@;
            let text = multimodal_text(prompt, fragments);
            &&& text.len() == head.len() + fragments_len(fragments) + 1
            &&& text.subrange(0, head.len() as int) == head
            &&& text[text.len() - 1] == ']'
            &&& forall|i: int|
                0 <= i < fragments.len() ==> {
                    &&& text[head.len() + #[trigger] fragment_offset(fragments, i)] == ','
                    &&& text.subrange(
                        head.len() + fragment_offset(fragments, i) + 1,
                        head.len() + fragment_offset(fragments, i) + 1 + fragments[i].len(),
                    ) == fragments[i]
                }
        }),
{
    lemma_fragments_layout(fragments);
    let head = "[{\"type\":\"text\",\"text\":\""@ + json_escape(prompt) + "\"}"@;
    let f = fragments_text(fragments);
    let text = multimodal_text(prompt, fragments);
    assert(text =~= head + f + "]"@);
    reveal_strlit("]");
    assert(text.subrange(0, head.len() as int) =~= head);
    assert forall|i: int| 0 <= i < fragments.len() implies {
        &&& text[head.len() + #[trigger] fragment_offset(fragments, i)] == ','
        &&& text.subrange(
            head.len() + fragment_offset(fragments, i) + 1,
            head.len() + fragment_offset(fragments, i) + 1 + fragments[i].len(),
        ) == fragments[i]
    } by {
        let o = fragment_offset(fragments, i);
        assert(text[head.len() + o] == f[o as int]);
        assert(text.subrange(head.len() + o + 1, head.len() + o + 1 + fragments[i].len())
            =~= f.subrange(o + 1, o + 1 + fragments[i].len()));
    }
}

} // verus!
