//! The request logic of the deterministic mock LLM server: the static model
//! list, the whitespace tokenizer, and the token streams of the completion
//! endpoints. Timing and transport are the caller's.
use vstd::prelude::*;

use crate::json::{
    array_value, items_model, member, members_model, object_value, text_value, Json, JsonValue,
};
use crate::text::{count_words, placeholder_text, placeholder_words, word_count};

verus! {

/// The `prompt` field of a completion request: a JSON string, or any other
/// JSON value.
#[derive(Debug, PartialEq)]
pub enum Prompt {
    Text(String),
    Other,
}

/// The fields of a completion request that the server reads.
#[derive(Debug, PartialEq)]
pub struct CompletionRequest {
    pub model: Option<String>,
    pub prompt: Option<Prompt>,
    pub max_tokens: Option<usize>,
    pub stream: Option<bool>,
}

/// The fields of a chat completion request that the server reads.
#[derive(Debug, PartialEq)]
pub struct ChatCompletionRequest {
    pub model: Option<String>,
    pub max_completion_tokens: Option<usize>,
    pub max_tokens: Option<usize>,
    pub stream: Option<bool>,
}

#[derive(Debug, PartialEq)]
pub struct TokenizeRequest {
    pub model: Option<String>,
    pub prompt: Option<String>,
}

#[derive(Debug, PartialEq)]
pub struct DetokenizeRequest {
    pub model: Option<String>,
    pub tokens: Option<Vec<u64>>,
}

#[derive(Debug, PartialEq)]
pub struct ModelEntry {
    pub id: String,
    pub root: String,
    pub object: String,
}

#[derive(Debug, PartialEq)]
pub struct ModelsResponse {
    pub data: Vec<ModelEntry>,
}

#[derive(Debug, PartialEq)]
pub struct TokenizeResponse {
    pub tokens: Vec<u64>,
    pub count: usize,
}

#[derive(Debug, PartialEq)]
pub struct DetokenizeResponse {
    pub prompt: String,
}

/// The prompt tokens charged for a chat request, whatever its messages.
pub const CHAT_PROMPT_TOKENS: usize = 32;

/// The prompt tokens charged where the prompt is not a JSON string.
pub const DEFAULT_PROMPT_TOKENS: usize = 32;

/// The static model list: one model, `mock-model`.
pub fn models() -> (res: ModelsResponse)
    ensures
        res.data@.len() == 1,
        res.data@[0].id@ == "mock-model"@,
        res.data@[0].root@ == "mock-model"@,
        res.data@[0].object@ == "model"@,
{
    let entry = ModelEntry {
        id: String::from_str("mock-model"),
        root: String::from_str("mock-model"),
        object: String::from_str("model"),
    };
    let mut data: Vec<ModelEntry> = Vec::new();
    data.push(entry);
    ModelsResponse { data }
}

/// The prompt tokens that a completion request is charged: the words of a
/// string prompt, and a fixed default for any other prompt or none.
pub open spec fn prompt_token_estimate(prompt: Option<Prompt>) -> nat {
    match prompt {
        Some(Prompt::Text(s)) => word_count(s@),
        _ => DEFAULT_PROMPT_TOKENS as nat,
    }
}

/// Estimates the prompt tokens of a completion request: one per
/// whitespace-delimited word of a string prompt, else the default.
pub fn estimate_prompt_tokens(prompt: &Option<Prompt>) -> (n: usize)
    ensures
        n == prompt_token_estimate(*prompt),
{
    match prompt {
        Some(Prompt::Text(s)) => {
            if s.as_str().is_empty() {
                0
            } else {
                count_words(s.as_str())
            }
        },
        _ => DEFAULT_PROMPT_TOKENS,
    }
}

/// The trivial tokenizer: one token per whitespace-delimited word of the
/// prompt (none without a prompt), with ids counting up from 0.
pub fn tokenize(request: &TokenizeRequest) -> (res: TokenizeResponse)
    ensures
        res.count == (match request.prompt {
            Some(p) => word_count(p@),
            None => 0,
        }),
        res.tokens@.len() == res.count,
        forall|i: int| 0 <= i < res.tokens@.len() ==> #[trigger] res.tokens@[i] == i,
{
    let count: usize = match &request.prompt {
        Some(p) => {
            if p.as_str().is_empty() {
                0
            } else {
                count_words(p.as_str())
            }
        },
        None => 0,
    };
    let mut tokens: Vec<u64> = Vec::new();
    let mut i: usize = 0;
    while i < count
        invariant
            i <= count,
            tokens@.len() == i,
            forall|j: int| 0 <= j < i ==> #[trigger] tokens@[j] == j,
        decreases count - i,
    {
        tokens.push(i as u64);
        i = i + 1;
    }
    TokenizeResponse { tokens, count }
}

/// The trivial detokenizer: as many placeholder words `w0 w1 ...` as there
/// are tokens (none without tokens).
pub fn detokenize(request: &DetokenizeRequest) -> (res: DetokenizeResponse)
    ensures
        res.prompt@ == placeholder_text(
            match request.tokens {
                Some(t) => t@.len(),
                None => 0,
            },
        ),
{
    let n: usize = match &request.tokens {
        Some(t) => t.len(),
        None => 0,
    };
    DetokenizeResponse { prompt: placeholder_words(n) }
}

/// Tokenizing what the detokenizer wrote for `n` tokens counts `n` tokens.
pub proof fn lemma_detokenize_then_tokenize(n: nat)
    ensures
        word_count(placeholder_text(n)) == n,
{
    crate::text::lemma_placeholder_word_count(n);
}

/// Which endpoint a token stream answers.
#[derive(Clone, Copy, Debug, PartialEq, Eq)]
pub enum StreamKind {
    Completion,
    Chat,
}

/// The prefix of the chunk ids of a stream.
pub open spec fn id_prefix(kind: StreamKind) -> Seq<char> {
    match kind {
        StreamKind::Completion => "cmpl-"@,
        StreamKind::Chat => "chatcmpl-"@,
    }
}

/// The `object` field of the chunks of a stream.
pub open spec fn chunk_object(kind: StreamKind) -> Seq<char> {
    match kind {
        StreamKind::Completion => "text_completion"@,
        StreamKind::Chat => "chat.completion.chunk"@,
    }
}

/// The text of token `i`: a space, `tok`, and the index.
pub open spec fn token_text(i: nat) -> Seq<char> {
    " tok"@ + crate::text::decimal(i)
}

/// The chunk that carries token `i`.
pub open spec fn token_chunk(kind: StreamKind, id: Seq<char>, i: nat) -> Json {
    let choice = match kind {
        StreamKind::Completion => Json::Object(
            seq![
                ("text"@, Json::Text(token_text(i))),
                ("index"@, Json::Number(0)),
                ("finish_reason"@, Json::Null),
            ],
        ),
        StreamKind::Chat => Json::Object(
            seq![
                ("delta"@, Json::Object(seq![("content"@, Json::Text(token_text(i)))])),
                ("index"@, Json::Number(0)),
                ("finish_reason"@, Json::Null),
            ],
        ),
    };
    Json::Object(
        seq![
            ("id"@, Json::Text(id_prefix(kind) + id)),
            ("object"@, Json::Text(chunk_object(kind))),
            ("choices"@, Json::Array(seq![choice])),
        ],
    )
}

/// The usage chunk that follows the tokens.
pub open spec fn usage_chunk(kind: StreamKind, id: Seq<char>, n: nat, p: nat) -> Json {
    Json::Object(
        seq![
            ("id"@, Json::Text(id_prefix(kind) + id)),
            ("object"@, Json::Text(chunk_object(kind))),
            ("choices"@, Json::Array(Seq::empty())),
            (
                "usage"@,
                Json::Object(
                    seq![
                        ("completion_tokens"@, Json::Number(n as int)),
                        ("prompt_tokens"@, Json::Number(p as int)),
                        ("total_tokens"@, Json::Number((n + p) as int)),
                    ],
                ),
            ),
        ],
    )
}

/// One step of a token stream.
pub enum StepModel {
    /// Wait the first-token delay.
    WaitFirstToken,
    /// Start the token clock; its first tick is at once.
    StartTicking,
    /// Wait for the next tick of the token clock.
    WaitTick,
    /// Send this JSON value as an event.
    SendJson(Json),
    /// Send this text as an event.
    SendText(Seq<char>),
    /// The stream has ended.
    Finished,
}

/// The token part of a stream of `k` tokens: each token chunk, with a tick
/// between one and the next.
pub open spec fn token_steps(kind: StreamKind, id: Seq<char>, k: nat) -> Seq<StepModel>
    decreases k,
{
    if k == 0 {
        Seq::empty()
    } else if k == 1 {
        seq![StepModel::SendJson(token_chunk(kind, id, 0))]
    } else {
        token_steps(kind, id, (k - 1) as nat) + seq![
            StepModel::WaitTick,
            StepModel::SendJson(token_chunk(kind, id, (k - 1) as nat)),
        ]
    }
}

/// The whole stream: the first-token delay, the start of the clock, the
/// tokens, the usage chunk and the `[DONE]` sentinel.
pub open spec fn stream_script(kind: StreamKind, id: Seq<char>, n: nat, p: nat) -> Seq<StepModel> {
    seq![StepModel::WaitFirstToken, StepModel::StartTicking] + token_steps(kind, id, n) + seq![
        StepModel::SendJson(usage_chunk(kind, id, n, p)),
        StepModel::SendText("[DONE]"@),
    ]
}

/// The number of token steps of `n` tokens.
pub open spec fn token_steps_len(n: nat) -> nat {
    if n == 0 {
        0
    } else {
        (2 * n - 1) as nat
    }
}

/// The shape of the token part: its length, each token chunk at an even
/// place in order, and a tick between consecutive tokens.
pub proof fn lemma_token_steps(kind: StreamKind, id: Seq<char>, k: nat)
    ensures
        token_steps(kind, id, k).len() == token_steps_len(k),
        forall|i: int|
            0 <= i < k ==> #[trigger] token_steps(kind, id, k)[2 * i] == StepModel::SendJson(
                token_chunk(kind, id, i as nat),
            ),
        forall|i: int| 0 <= i < k - 1 ==> #[trigger] token_steps(kind, id, k)[2 * i + 1] == StepModel::WaitTick,
    decreases k,
{
    if k > 1 {
        lemma_token_steps(kind, id, (k - 1) as nat);
        let prev = token_steps(kind, id, (k - 1) as nat);
        let cur = token_steps(kind, id, k);
        assert forall|i: int| 0 <= i < k implies #[trigger] cur[2 * i] == StepModel::SendJson(
            token_chunk(kind, id, i as nat),
        ) by {
            if i < k - 1 {
                assert(cur[2 * i] == prev[2 * i]);
            }
        }
        assert forall|i: int| 0 <= i < k - 1 implies #[trigger] cur[2 * i + 1] == StepModel::WaitTick by {
            if i < k - 2 {
                assert(cur[2 * i + 1] == prev[2 * i + 1]);
            }
        }
    }
}

/// The shape of a whole stream of `n` tokens: the delay, the clock start,
/// token `i` at place `2 + 2i`, a tick after every token but the last, then
/// the usage chunk with `n` completion and `p` prompt tokens, then `[DONE]`.
pub proof fn lemma_stream_shape(kind: StreamKind, id: Seq<char>, n: nat, p: nat)
    ensures
        stream_script(kind, id, n, p).len() == token_steps_len(n) + 4,
        stream_script(kind, id, n, p)[0] == StepModel::WaitFirstToken,
        stream_script(kind, id, n, p)[1] == StepModel::StartTicking,
        forall|i: int|
            0 <= i < n ==> #[trigger] stream_script(kind, id, n, p)[2 + 2 * i] == StepModel::SendJson(
                token_chunk(kind, id, i as nat),
            ),
        forall|i: int| 0 <= i < n - 1 ==> #[trigger] stream_script(kind, id, n, p)[3 + 2 * i] == StepModel::WaitTick,
        stream_script(kind, id, n, p)[token_steps_len(n) + 2int] == StepModel::SendJson(
            usage_chunk(kind, id, n, p),
        ),
        stream_script(kind, id, n, p)[token_steps_len(n) + 3int] == StepModel::SendText("[DONE]"@),
{
    lemma_token_steps(kind, id, n);
    let t = token_steps(kind, id, n);
    let s = stream_script(kind, id, n, p);
    assert forall|i: int| 0 <= i < n implies #[trigger] s[2 + 2 * i] == StepModel::SendJson(
        token_chunk(kind, id, i as nat),
    ) by {
        assert(s[2 + 2 * i] == t[2 * i]);
    }
    assert forall|i: int| 0 <= i < n - 1 implies #[trigger] s[3 + 2 * i] == StepModel::WaitTick by {
        assert(s[3 + 2 * i] == t[2 * i + 1]);
    }
}

/// A chunk with the value of its leading `id` member blanked.
pub open spec fn without_id(j: Json) -> Json {
    match j {
        Json::Object(m) => if m.len() > 0 && m[0].0 == "id"@ {
            Json::Object(m.update(0, ("id"@, Json::Text(Seq::empty()))))
        } else {
            j
        },
        _ => j,
    }
}

/// A step with the request id of a sent chunk blanked.
pub open spec fn step_without_id(step: StepModel) -> StepModel {
    match step {
        StepModel::SendJson(j) => StepModel::SendJson(without_id(j)),
        _ => step,
    }
}

proof fn lemma_chunks_without_id(kind: StreamKind, id1: Seq<char>, id2: Seq<char>, i: nat, n: nat, p: nat)
    ensures
        without_id(token_chunk(kind, id1, i)) == without_id(token_chunk(kind, id2, i)),
        without_id(usage_chunk(kind, id1, n, p)) == without_id(usage_chunk(kind, id2, n, p)),
{
    let t1 = token_chunk(kind, id1, i)->Object_0;
    let t2 = token_chunk(kind, id2, i)->Object_0;
    assert(t1.update(0, ("id"@, Json::Text(Seq::empty()))) =~= t2.update(
        0,
        ("id"@, Json::Text(Seq::empty())),
    ));
    let u1 = usage_chunk(kind, id1, n, p)->Object_0;
    let u2 = usage_chunk(kind, id2, n, p)->Object_0;
    assert(u1.update(0, ("id"@, Json::Text(Seq::empty()))) =~= u2.update(
        0,
        ("id"@, Json::Text(Seq::empty())),
    ));
}

/// The mock server is deterministic apart from the request id: two streams
/// of the same kind, token count and prompt token count (as two identical
/// requests to `completions` or `chat_completions` start) take the same
/// steps in the same order, and send the same events once the `id` of each
/// chunk is blanked.
pub proof fn lemma_stream_same_but_id(kind: StreamKind, id1: Seq<char>, id2: Seq<char>, n: nat, p: nat)
    ensures
        stream_script(kind, id1, n, p).len() == stream_script(kind, id2, n, p).len(),
        forall|i: int|
            0 <= i < stream_script(kind, id1, n, p).len() ==> #[trigger] step_without_id(
                stream_script(kind, id1, n, p)[i],
            ) == step_without_id(stream_script(kind, id2, n, p)[i]),
{
    lemma_stream_shape(kind, id1, n, p);
    lemma_stream_shape(kind, id2, n, p);
    let s1 = stream_script(kind, id1, n, p);
    let s2 = stream_script(kind, id2, n, p);
    let len = token_steps_len(n);
    assert forall|i: int| 0 <= i < s1.len() implies #[trigger] step_without_id(s1[i])
        == step_without_id(s2[i]) by {
        if 2 <= i < 2 + len {
            let j = (i - 2) / 2;
            if (i - 2) % 2 == 0 {
                assert(i == 2 + 2 * j);
                lemma_chunks_without_id(kind, id1, id2, j as nat, n, p);
            } else {
                assert(i == 3 + 2 * j);
            }
        } else if i == 2 + len {
            lemma_chunks_without_id(kind, id1, id2, 0, n, p);
        }
    }
}

/// One step of a token stream, as the server performs it.
#[derive(Debug, PartialEq)]
pub enum StreamStep {
    WaitFirstToken,
    StartTicking,
    WaitTick,
    SendJson(JsonValue),
    SendText(String),
    Finished,
}

impl View for StreamStep {
    type V = StepModel;

    open spec fn view(&self) -> StepModel {
        match self {
            StreamStep::WaitFirstToken => StepModel::WaitFirstToken,
            StreamStep::StartTicking => StepModel::StartTicking,
            StreamStep::WaitTick => StepModel::WaitTick,
            StreamStep::SendJson(v) => StepModel::SendJson(v@),
            StreamStep::SendText(t) => StepModel::SendText(t@),
            StreamStep::Finished => StepModel::Finished,
        }
    }
}

fn chunk_head(kind: StreamKind, id: &String) -> (m: Vec<(String, JsonValue)>)
    ensures
        members_model(m@) == seq![
            ("id"@, Json::Text(id_prefix(kind) + id@)),
            ("object"@, Json::Text(chunk_object(kind))),
        ],
{
    let mut full_id = match kind {
        StreamKind::Completion => String::from_str("cmpl-"),
        StreamKind::Chat => String::from_str("chatcmpl-"),
    };
    full_id.append(id.as_str());
    let object = match kind {
        StreamKind::Completion => text_value("text_completion"),
        StreamKind::Chat => text_value("chat.completion.chunk"),
    };
    let m = vec![member("id", JsonValue::Text(full_id)), member("object", object)];
    assert(members_model(m@) =~= seq![
        ("id"@, Json::Text(id_prefix(kind) + id@)),
        ("object"@, Json::Text(chunk_object(kind))),
    ]);
    m
}

fn token_chunk_value(kind: StreamKind, id: &String, i: u64) -> (v: JsonValue)
    ensures
        v@ == token_chunk(kind, id@, i as nat),
{
    let mut text = String::from_str(" tok");
    crate::text::push_decimal(&mut text, i);
    let ghost text_model = text@;
    let choice_members = match kind {
        StreamKind::Completion => {
            let m = vec![
                member("text", JsonValue::Text(text)),
                member("index", JsonValue::Number(0)),
                member("finish_reason", JsonValue::Null),
            ];
            assert(members_model(m@) =~= seq![
                ("text"@, Json::Text(token_text(i as nat))),
                ("index"@, Json::Number(0)),
                ("finish_reason"@, Json::Null),
            ]);
            m
        },
        StreamKind::Chat => {
            let delta = vec![member("content", JsonValue::Text(text))];
            assert(members_model(delta@) =~= seq![("content"@, Json::Text(token_text(i as nat)))]);
            let m = vec![
                member("delta", object_value(delta)),
                member("index", JsonValue::Number(0)),
                member("finish_reason", JsonValue::Null),
            ];
            assert(members_model(m@) =~= seq![
                ("delta"@, Json::Object(seq![("content"@, Json::Text(token_text(i as nat)))])),
                ("index"@, Json::Number(0)),
                ("finish_reason"@, Json::Null),
            ]);
            m
        },
    };
    let ghost choice_model = Json::Object(members_model(choice_members@));
    let choices = vec![object_value(choice_members)];
    assert(items_model(choices@) =~= seq![choice_model]);
    let mut m = chunk_head(kind, id);
    let ghost head = members_model(m@);
    m.push(member("choices", array_value(choices)));
    assert(members_model(m@) =~= head.push(("choices"@, Json::Array(seq![choice_model]))));
    assert(members_model(m@) =~= seq![
        ("id"@, Json::Text(id_prefix(kind) + id@)),
        ("object"@, Json::Text(chunk_object(kind))),
        ("choices"@, Json::Array(seq![choice_model])),
    ]);
    object_value(m)
}

fn usage_chunk_value(kind: StreamKind, id: &String, n: usize, p: usize) -> (v: JsonValue)
    requires
        n + p <= usize::MAX,
    ensures
        v@ == usage_chunk(kind, id@, n as nat, p as nat),
{
    let usage = vec![
        member("completion_tokens", JsonValue::Number(n as i128)),
        member("prompt_tokens", JsonValue::Number(p as i128)),
        member("total_tokens", JsonValue::Number((n + p) as i128)),
    ];
    let ghost usage_model = seq![
        ("completion_tokens"@, Json::Number(n as int)),
        ("prompt_tokens"@, Json::Number(p as int)),
        ("total_tokens"@, Json::Number((n + p) as int)),
    ];
    assert(members_model(usage@) =~= usage_model);
    let empty: Vec<JsonValue> = Vec::new();
    assert(items_model(empty@) =~= Seq::<Json>::empty());
    let mut m = chunk_head(kind, id);
    let ghost head = members_model(m@);
    m.push(member("choices", array_value(empty)));
    m.push(member("usage", object_value(usage)));
    assert(members_model(m@) =~= head.push(("choices"@, Json::Array(Seq::empty()))).push(
        ("usage"@, Json::Object(usage_model)),
    ));
    assert(members_model(m@) =~= seq![
        ("id"@, Json::Text(id_prefix(kind) + id@)),
        ("object"@, Json::Text(chunk_object(kind))),
        ("choices"@, Json::Array(Seq::empty())),
        ("usage"@, Json::Object(usage_model)),
    ]);
    object_value(m)
}

/// A token stream in progress: what it answers, its request id, how many
/// tokens it sends and how many prompt tokens it reports, and how far it
/// has got.
pub struct TokenStream {
    kind: StreamKind,
    request_id: String,
    num_tokens: usize,
    prompt_tokens: usize,
    position: u128,
}

impl TokenStream {
    #[verifier::type_invariant]
    spec fn well_formed(self) -> bool {
        &&& self.position <= token_steps_len(self.num_tokens as nat) + 4
        &&& self.num_tokens + self.prompt_tokens <= usize::MAX
    }

    pub closed spec fn kind(self) -> StreamKind {
        self.kind
    }

    pub closed spec fn request_id(self) -> Seq<char> {
        self.request_id@
    }

    pub closed spec fn num_tokens(self) -> nat {
        self.num_tokens as nat
    }

    pub closed spec fn prompt_tokens(self) -> nat {
        self.prompt_tokens as nat
    }

    /// How many steps have been taken.
    pub closed spec fn position(self) -> nat {
        self.position as nat
    }

    /// Every step of this stream, first to last.
    pub open spec fn script(self) -> Seq<StepModel> {
        stream_script(self.kind(), self.request_id(), self.num_tokens(), self.prompt_tokens())
    }

    /// A stream that has taken no step yet. The usage chunk reports
    /// `num_tokens + prompt_tokens`, which must fit in a `usize`.
    pub fn new(kind: StreamKind, request_id: String, num_tokens: usize, prompt_tokens: usize) -> (s:
        Self)
        requires
            num_tokens + prompt_tokens <= usize::MAX,
        ensures
            s.kind() == kind,
            s.request_id() == request_id@,
            s.num_tokens() == num_tokens,
            s.prompt_tokens() == prompt_tokens,
            s.position() == 0,
    {
        TokenStream { kind, request_id, num_tokens, prompt_tokens, position: 0 }
    }

    /// The next step of the stream, which the stream then counts as taken;
    /// once every step is taken the stream stays finished.
    pub fn next_step(&mut self) -> (step: StreamStep)
        ensures
            final(self).kind() == old(self).kind(),
            final(self).request_id() == old(self).request_id(),
            final(self).num_tokens() == old(self).num_tokens(),
            final(self).prompt_tokens() == old(self).prompt_tokens(),
            old(self).position() < old(self).script().len() ==> {
                &&& step@ == old(self).script()[old(self).position() as int]
                &&& final(self).position() == old(self).position() + 1
            },
            old(self).position() >= old(self).script().len() ==> {
                &&& step@ == StepModel::Finished
                &&& final(self).position() == old(self).position()
            },
    {
        proof {
            use_type_invariant(&*self);
            lemma_stream_shape(
                self.kind,
                self.request_id@,
                self.num_tokens as nat,
                self.prompt_tokens as nat,
            );
        }
        let n = self.num_tokens;
        let token_len: u128 = if n == 0 {
            0
        } else {
            2 * (n as u128) - 1
        };
        let pos = self.position;
        let step = if pos == 0 {
            StreamStep::WaitFirstToken
        } else if pos == 1 {
            StreamStep::StartTicking
        } else if pos < 2 + token_len {
            let j = pos - 2;
            if j % 2 == 0 {
                let i: u64 = (j / 2) as u64;
                assert(2 + 2 * (i as int) == pos);
                StreamStep::SendJson(token_chunk_value(self.kind, &self.request_id, i))
            } else {
                assert(3 + 2 * ((j / 2) as int) == pos);
                StreamStep::WaitTick
            }
        } else if pos == 2 + token_len {
            StreamStep::SendJson(usage_chunk_value(self.kind, &self.request_id, n, self.prompt_tokens))
        } else if pos == 3 + token_len {
            StreamStep::SendText(String::from_str("[DONE]"))
        } else {
            StreamStep::Finished
        };
        if pos < 4 + token_len {
            self.position = pos + 1;
        }
        step
    }
}

/// The tokens a completion streams: `max_tokens` of the request, else the
/// server's default.
pub open spec fn completion_token_count(request: CompletionRequest, default_num_tokens: usize) -> nat {
    match request.max_tokens {
        Some(n) => n as nat,
        None => default_num_tokens as nat,
    }
}

/// The tokens a chat completion streams: `max_completion_tokens`, else
/// `max_tokens`, else the server's default.
pub open spec fn chat_token_count(request: ChatCompletionRequest, default_num_tokens: usize) -> nat {
    match request.max_completion_tokens {
        Some(n) => n as nat,
        None => match request.max_tokens {
            Some(n) => n as nat,
            None => default_num_tokens as nat,
        },
    }
}

/// Starts the token stream that answers a completion request, under the
/// given request id (the server draws a fresh random one per request).
pub fn completions(
    default_num_tokens: usize,
    request: &CompletionRequest,
    request_id: String,
) -> (s: TokenStream)
    requires
        completion_token_count(*request, default_num_tokens) + prompt_token_estimate(
            request.prompt,
        ) <= usize::MAX,
    ensures
        s.kind() == StreamKind::Completion,
        s.num_tokens() == completion_token_count(*request, default_num_tokens),
        s.prompt_tokens() == prompt_token_estimate(request.prompt),
        s.request_id() == request_id@,
        s.position() == 0,
{
    let num_tokens = match request.max_tokens {
        Some(n) => n,
        None => default_num_tokens,
    };
    let prompt_tokens = estimate_prompt_tokens(&request.prompt);
    TokenStream::new(StreamKind::Completion, request_id, num_tokens, prompt_tokens)
}

/// Starts the token stream that answers a chat completion request, under
/// the given request id; the prompt is charged a fixed number of tokens.
pub fn chat_completions(
    default_num_tokens: usize,
    request: &ChatCompletionRequest,
    request_id: String,
) -> (s: TokenStream)
    requires
        chat_token_count(*request, default_num_tokens) + CHAT_PROMPT_TOKENS <= usize::MAX,
    ensures
        s.kind() == StreamKind::Chat,
        s.num_tokens() == chat_token_count(*request, default_num_tokens),
        s.prompt_tokens() == CHAT_PROMPT_TOKENS,
        s.request_id() == request_id@,
        s.position() == 0,
{
    let num_tokens = match request.max_completion_tokens {
        Some(n) => n,
        None => match request.max_tokens {
            Some(n) => n,
            None => default_num_tokens,
        },
    };
    TokenStream::new(StreamKind::Chat, request_id, num_tokens, CHAT_PROMPT_TOKENS)
}

/// A completion streams exactly `max_tokens` tokens where the request sets
/// it, whatever the server default; the default only where it does not.
pub proof fn lemma_completion_token_count(request: CompletionRequest, default_num_tokens: usize)
    ensures
        request.max_tokens is Some ==> completion_token_count(request, default_num_tokens)
            == request.max_tokens->0,
        request.max_tokens is None ==> completion_token_count(request, default_num_tokens)
            == default_num_tokens,
{
}

/// A chat completion streams exactly `max_completion_tokens` tokens where
/// the request sets it, whatever `max_tokens` and the default; else exactly
/// `max_tokens` where set; else the default.
pub proof fn lemma_chat_token_count(request: ChatCompletionRequest, default_num_tokens: usize)
    ensures
        request.max_completion_tokens is Some ==> chat_token_count(request, default_num_tokens)
            == request.max_completion_tokens->0,
        request.max_completion_tokens is None && request.max_tokens is Some ==> chat_token_count(
            request,
            default_num_tokens,
        ) == request.max_tokens->0,
        request.max_completion_tokens is None && request.max_tokens is None ==> chat_token_count(
            request,
            default_num_tokens,
        ) == default_num_tokens,
{
}

/// A string prompt is charged one token per whitespace-separated word, for
/// every length, the same count that `tokenize` gives the same text; any
/// other prompt, or none, is charged 32.
pub proof fn lemma_prompt_estimate_counts_words(prompt: Option<Prompt>)
    ensures
        prompt matches Some(Prompt::Text(s)) ==> prompt_token_estimate(prompt) == word_count(s@),
        !(prompt matches Some(Prompt::Text(_))) ==> prompt_token_estimate(prompt) == 32,
{
}

} // verus!
