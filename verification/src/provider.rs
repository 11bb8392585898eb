//! Model providers: how one is set up, what it is asked, and how its answer is
//! read.

use vstd::prelude::*;

use crate::adapter::AdapterError;
use crate::json_value::{
    json_array, json_as_i64, json_as_text, json_at, json_empty_object, json_from_str, json_get,
    json_set, json_string,
};
use crate::text::{cat, chars_of, ends_with, is_empty_text, owned, same_text, text_between, trim};

verus! {

#[derive(Clone, Copy, Debug, PartialEq, Eq, Structural)]
pub enum ProviderKind {
    OpenAiCompatible,
    Ollama,
}

/// The kind of provider that a name stands for.
pub open spec fn kind_named(value: Seq<char>) -> Option<ProviderKind> {
    if value == "openai"@ || value == "openai-compatible"@ || value == "openrouter"@ || value
        == "groq"@ {
        Some(ProviderKind::OpenAiCompatible)
    } else if value == "ollama"@ {
        Some(ProviderKind::Ollama)
    } else {
        None
    }
}

impl ProviderKind {
    /// The kind of provider that a name stands for.
    pub fn parse(value: &str) -> (r: Result<ProviderKind, AdapterError>)
        ensures
            match r {
                Ok(k) => kind_named(value@) == Some(k),
                Err(e) => kind_named(value@) is None && (e matches AdapterError::InvalidAction(m)
                    && m@ == "unknown provider: "@ + value@),
            },
    {
        if same_text(value, "openai") || same_text(value, "openai-compatible") || same_text(
            value,
            "openrouter",
        ) || same_text(value, "groq") {
            Ok(ProviderKind::OpenAiCompatible)
        } else if same_text(value, "ollama") {
            Ok(ProviderKind::Ollama)
        } else {
            Err(AdapterError::InvalidAction(cat("unknown provider: ", value)))
        }
    }
}

/// What the environment says about the provider.
pub struct ProviderEnv {
    pub api_key: Option<String>,
    pub base_url: Option<String>,
    pub model: Option<String>,
}

/// Something that completes prompts.
pub trait LlmProvider {
    spec fn model(&self) -> Seq<char>;

    spec fn url(&self) -> Seq<char>;

    fn model_id(&self) -> (r: &str)
        ensures
            r@ == self.model(),
    ;

    fn base_url(&self) -> (r: &str)
        ensures
            r@ == self.url(),
    ;
}

/// A provider that speaks the chat completions protocol.
pub struct OpenAiCompatibleProvider {
    api_key: Option<String>,
    model_id: String,
    base_url: String,
}

/// The settings of a provider.
pub struct ProviderModel {
    pub api_key: Option<Seq<char>>,
    pub model_id: Seq<char>,
    pub base_url: Seq<char>,
}

impl View for OpenAiCompatibleProvider {
    type V = ProviderModel;

    closed spec fn view(&self) -> ProviderModel {
        ProviderModel {
            api_key: crate::text::text_option(self.api_key),
            model_id: self.model_id@,
            base_url: self.base_url@,
        }
    }
}

/// `s` without the slashes at its end.
pub open spec fn without_slashes(s: Seq<char>) -> Seq<char>
    decreases s.len(),
{
    if s.len() > 0 && s.last() == '/' {
        without_slashes(s.drop_last())
    } else {
        s
    }
}

/// A base address without white space around it and slashes at its end.
pub open spec fn normal_base(url: Seq<char>) -> Seq<char> {
    without_slashes(crate::text::trimmed(url))
}

/// The model that is asked where none is named.
pub open spec fn model_or_default(model: Seq<char>) -> Seq<char> {
    if crate::text::trimmed(model).len() == 0 {
        "google/gemini-flash-1.5"@
    } else {
        model
    }
}

/// A key counts without the white space around it, and not at all where
/// nothing is left.
pub open spec fn usable_key(key: Option<Seq<char>>) -> Option<Seq<char>> {
    match key {
        Some(k) => if crate::text::trimmed(k).len() == 0 {
            None
        } else {
            Some(crate::text::trimmed(k))
        },
        None => None,
    }
}

/// The settings that a key, an address and a model come to.
pub open spec fn settings(key: Option<Seq<char>>, url: Seq<char>, model: Seq<char>) -> ProviderModel {
    ProviderModel {
        api_key: usable_key(key),
        model_id: model_or_default(model),
        base_url: normal_base(url),
    }
}

/// A base address without white space around it and slashes at its end.
pub fn normalize_base_url(base_url: &str) -> (r: String)
    ensures
        r@ == normal_base(base_url@),
{
    let bare = trim(base_url);
    let cs = chars_of(bare.as_str());
    let mut to: usize = cs.len();
    proof {
        assert(cs@.take(cs@.len() as int) =~= cs@);
    }
    while to > 0 && cs[to - 1] == '/'
        invariant
            to <= cs.len(),
            without_slashes(cs@) == without_slashes(cs@.take(to as int)),
        decreases to,
    {
        proof {
            assert(cs@.take(to as int).drop_last() =~= cs@.take(to - 1));
        }
        to = to - 1;
    }
    let r = text_between(cs.as_slice(), 0, to);
    proof {
        assert(r@ =~= cs@.take(to as int));
    }
    r
}

/// The address that completions are asked of.
pub open spec fn completions_url(base: Seq<char>) -> Seq<char> {
    if "/chat/completions"@.is_suffix_of(base) {
        base
    } else {
        base + "/chat/completions"@
    }
}

/// The address that completions are asked of.
pub fn chat_completions_url(base_url: &str) -> (r: String)
    ensures
        r@ == completions_url(base_url@),
{
    if ends_with(base_url, "/chat/completions") {
        owned(base_url)
    } else {
        cat(base_url, "/chat/completions")
    }
}

fn usable(key: &Option<String>) -> (r: Option<String>)
    ensures
        crate::text::text_option(r) == usable_key(crate::text::text_option(*key)),
{
    match key {
        Some(k) => {
            let bare = trim(k.as_str());
            if is_empty_text(bare.as_str()) {
                None
            } else {
                Some(bare)
            }
        },
        None => None,
    }
}

/// A request for a completion.
#[derive(Debug)]
pub struct CompletionRequest {
    pub url: String,
    pub referer: &'static str,
    pub title: &'static str,
    pub bearer: Option<String>,
    pub body: serde_json::Value,
}

/// The body of a request: the model, and one message of the user with the
/// prompt.
pub open spec fn is_completion_body(
    body: serde_json::Value,
    model: Seq<char>,
    prompt: Seq<char>,
) -> bool {
    &&& crate::json_value::json_object(body)
    &&& crate::json_value::json_member(body, "model"@) == Some(
        crate::json_value::json_of_text(model),
    )
    &&& exists|message: serde_json::Value|
        {
            &&& #[trigger] is_user_message(message, prompt)
            &&& crate::json_value::json_member(body, "messages"@) == Some(
                crate::json_value::json_of_items(seq![message]),
            )
        }
    &&& forall|k: Seq<char>|
        k != "model"@ && k != "messages"@ ==> (#[trigger] crate::json_value::json_member(
            body,
            k,
        )) is None
}

/// A message of the user with the prompt.
pub open spec fn is_user_message(message: serde_json::Value, prompt: Seq<char>) -> bool {
    &&& crate::json_value::json_object(message)
    &&& crate::json_value::json_member(message, "role"@) == Some(
        crate::json_value::json_of_text("user"@),
    )
    &&& crate::json_value::json_member(message, "content"@) == Some(
        crate::json_value::json_of_text(prompt),
    )
    &&& forall|k: Seq<char>|
        k != "role"@ && k != "content"@ ==> (#[trigger] crate::json_value::json_member(
            message,
            k,
        )) is None
}

/// The body of a request for a completion.
pub fn completion_body(model: &str, prompt: &str) -> (r: serde_json::Value)
    ensures
        is_completion_body(r, model@, prompt@),
{
    proof {
        reveal_strlit("model");
        reveal_strlit("messages");
        reveal_strlit("role");
        reveal_strlit("content");
        assert("model"@.len() != "messages"@.len());
        assert("role"@.len() != "content"@.len());
    }
    let message = json_set(json_empty_object(), "role", json_string("user"));
    let message = json_set(message, "content", json_string(prompt));
    let ghost said = message;
    proof {
        assert(is_user_message(said, prompt@));
    }
    let mut items: Vec<serde_json::Value> = Vec::new();
    items.push(message);
    proof {
        assert(items@ =~= seq![said]);
    }
    let body = json_set(json_empty_object(), "model", json_string(model));
    json_set(body, "messages", json_array(items))
}

impl OpenAiCompatibleProvider {
    /// A provider with the given settings. A blank model stands for the
    /// default one, a blank key for none.
    pub fn new(api_key: Option<String>, base_url: &str, model_id: &str) -> (r:
        OpenAiCompatibleProvider)
        ensures
            r@ == settings(crate::text::text_option(api_key), base_url@, model_id@),
    {
        let bare = trim(model_id);
        let model = if is_empty_text(bare.as_str()) {
            owned("google/gemini-flash-1.5")
        } else {
            owned(model_id)
        };
        OpenAiCompatibleProvider {
            api_key: usable(&api_key),
            model_id: model,
            base_url: normalize_base_url(base_url),
        }
    }

    /// The request that completes a prompt.
    pub fn request(&self, prompt: &str) -> (r: CompletionRequest)
        ensures
            r.url@ == completions_url(self@.base_url),
            r.referer@ == "https://github.com/nikita/v9r"@,
            r.title@ == "v9r Orchestrator"@,
            crate::text::text_option(r.bearer) == self@.api_key,
            is_completion_body(r.body, self@.model_id, prompt@),
    {
        CompletionRequest {
            url: chat_completions_url(self.base_url.as_str()),
            referer: "https://github.com/nikita/v9r",
            title: "v9r Orchestrator",
            bearer: match &self.api_key {
                Some(k) => Some(owned(k.as_str())),
                None => None,
            },
            body: completion_body(self.model_id.as_str(), prompt),
        }
    }
}

impl LlmProvider for OpenAiCompatibleProvider {
    open spec fn model(&self) -> Seq<char> {
        self@.model_id
    }

    open spec fn url(&self) -> Seq<char> {
        self@.base_url
    }

    fn model_id(&self) -> (r: &str) {
        self.model_id.as_str()
    }

    fn base_url(&self) -> (r: &str) {
        self.base_url.as_str()
    }
}

/// The text at `choices[0].message.content` of an answer.
pub open spec fn answer_content(answer: serde_json::Value) -> Option<Seq<char>> {
    match crate::json_value::json_member(answer, "choices"@) {
        None => None,
        Some(choices) => match crate::json_value::json_element(choices, 0) {
            None => None,
            Some(choice) => match crate::json_value::json_member(choice, "message"@) {
                None => None,
                Some(message) => match crate::json_value::json_member(message, "content"@) {
                    None => None,
                    Some(content) => crate::json_value::json_text(content),
                },
            },
        },
    }
}

fn content_of(answer: &serde_json::Value) -> (r: Option<String>)
    ensures
        crate::text::text_option(r) == answer_content(*answer),
{
    match json_get(answer, "choices") {
        None => None,
        Some(choices) => match json_at(choices, 0) {
            None => None,
            Some(choice) => match json_get(choice, "message") {
                None => None,
                Some(message) => match json_get(message, "content") {
                    None => None,
                    Some(content) => json_as_text(content),
                },
            },
        },
    }
}

/// The completion, or the error where an answer holds none.
pub fn completion_from(content: Option<String>) -> (r: Result<String, AdapterError>)
    ensures
        match content {
            Some(c) => r matches Ok(s) && s == c,
            None => r matches Err(e) && (e matches AdapterError::InvalidResponse(m) && m@
                == "missing choices[0].message.content"@),
        },
{
    match content {
        Some(c) => Ok(c),
        None => Err(
            AdapterError::InvalidResponse(owned("missing choices[0].message.content")),
        ),
    }
}

/// Reads the answer of a provider. `success` says whether its status is one of
/// success, `status` is the text of that status.
pub fn completion_reply(success: bool, status: &str, body: &str) -> (r: Result<
    String,
    AdapterError,
>)
    ensures
        if !success {
            r matches Err(e) && (e matches AdapterError::ApiStatus { status: s, body: b } && s@
                == status@ && b@ == body@)
        } else {
            match crate::json_value::json_text_document(body@) {
                Err(reason) => r matches Err(e) && (e matches AdapterError::InvalidResponse(m)
                    && m@ == reason),
                Ok(answer) => match answer_content(answer) {
                    Some(c) => r matches Ok(s) && s@ == c,
                    None => r matches Err(e) && (e matches AdapterError::InvalidResponse(m) && m@
                        == "missing choices[0].message.content"@),
                },
            }
        },
{
    if !success {
        return Err(AdapterError::ApiStatus { status: owned(status), body: owned(body) });
    }
    match json_from_str(body) {
        Err(m) => Err(AdapterError::InvalidResponse(m)),
        Ok(answer) => completion_from(content_of(&answer)),
    }
}

/// The number at `usage.total_tokens` of an answer, 0 where it gives none.
pub open spec fn answer_tokens(answer: serde_json::Value) -> int {
    match crate::json_value::json_member(answer, "usage"@) {
        None => 0,
        Some(usage) => match crate::json_value::json_member(usage, "total_tokens"@) {
            None => 0,
            Some(total) => match crate::json_value::json_integer(total) {
                Some(n) => if n < 0 {
                    0
                } else {
                    n as int
                },
                None => 0,
            },
        },
    }
}

/// The tokens that a count comes to, 0 where there is none to go by.
pub fn counted_tokens(total: Option<i64>) -> (r: u64)
    ensures
        r == (match total {
            Some(n) => if n < 0 {
                0int
            } else {
                n as int
            },
            None => 0,
        }),
{
    match total {
        Some(n) => if n < 0 {
            0
        } else {
            n as u64
        },
        None => 0,
    }
}

/// The tokens that the answer of a provider says it has used, 0 where it does
/// not say.
pub fn reply_tokens(body: &str) -> (r: u64)
    ensures
        r == (match crate::json_value::json_text_document(body@) {
            Err(_) => 0,
            Ok(answer) => answer_tokens(answer),
        }),
{
    match json_from_str(body) {
        Err(_) => 0,
        Ok(answer) => match json_get(&answer, "usage") {
            None => 0,
            Some(usage) => match json_get(usage, "total_tokens") {
                None => 0,
                Some(total) => counted_tokens(json_as_i64(total)),
            },
        },
    }
}

/// A client of one provider.
pub struct LlmClient {
    pub provider: OpenAiCompatibleProvider,
}

/// The first of two texts that is there.
pub open spec fn either(a: Option<Seq<char>>, b: Option<Seq<char>>) -> Option<Seq<char>> {
    match a {
        Some(x) => Some(x),
        None => b,
    }
}

/// The first of three texts that is there.
pub open spec fn either_or(a: Option<Seq<char>>, b: Option<Seq<char>>, c: Seq<char>) -> Seq<char> {
    match either(a, b) {
        Some(x) => x,
        None => c,
    }
}

fn first_of(a: &Option<String>, b: &Option<String>) -> (r: Option<String>)
    ensures
        crate::text::text_option(r) == either(
            crate::text::text_option(*a),
            crate::text::text_option(*b),
        ),
{
    match a {
        Some(x) => Some(owned(x.as_str())),
        None => match b {
            Some(y) => Some(owned(y.as_str())),
            None => None,
        },
    }
}

fn first_or(a: &Option<String>, b: &Option<String>, c: &str) -> (r: String)
    ensures
        r@ == either_or(crate::text::text_option(*a), crate::text::text_option(*b), c@),
{
    match first_of(a, b) {
        Some(x) => x,
        None => owned(c),
    }
}

/// The settings that a configuration comes to: what is given goes before the
/// environment, and that before the defaults of the kind. Only Ollama does
/// without a key.
pub open spec fn configured(
    kind: ProviderKind,
    model: Option<Seq<char>>,
    url: Option<Seq<char>>,
    key: Option<Seq<char>>,
    env: ProviderEnv,
) -> Option<ProviderModel> {
    let key = either(key, crate::text::text_option(env.api_key));
    let env_url = crate::text::text_option(env.base_url);
    let env_model = crate::text::text_option(env.model);
    match kind {
        ProviderKind::OpenAiCompatible => if usable_key(key) is None {
            None
        } else {
            Some(
                settings(
                    key,
                    either_or(url, env_url, "https://openrouter.ai/api/v1"@),
                    either_or(model, env_model, "google/gemini-flash-1.5"@),
                ),
            )
        },
        ProviderKind::Ollama => Some(
            settings(
                key,
                either_or(url, env_url, "http://localhost:11434/v1"@),
                either_or(model, env_model, "llama3"@),
            ),
        ),
    }
}

impl LlmClient {
    /// A client of the default provider; it needs a key.
    pub fn new(api_key: String, model_id: String) -> (r: Result<LlmClient, AdapterError>)
        ensures
            match r {
                Ok(c) => crate::text::trimmed(api_key@).len() > 0 && c.provider@ == settings(
                    Some(api_key@),
                    "https://openrouter.ai/api/v1"@,
                    model_id@,
                ),
                Err(e) => crate::text::trimmed(api_key@).len() == 0 && e
                    == AdapterError::MissingApiKey,
            },
    {
        let bare = trim(api_key.as_str());
        if is_empty_text(bare.as_str()) {
            return Err(AdapterError::MissingApiKey);
        }
        Ok(
            LlmClient::openai_compatible(
                Some(api_key),
                "https://openrouter.ai/api/v1",
                model_id.as_str(),
            ),
        )
    }

    /// A client as the environment says.
    pub fn from_env(env: &ProviderEnv) -> (r: Result<LlmClient, AdapterError>)
        ensures
            match r {
                Ok(c) => configured(ProviderKind::OpenAiCompatible, None, None, None, *env) == Some(
                    c.provider@,
                ),
                Err(e) => configured(ProviderKind::OpenAiCompatible, None, None, None, *env) is None
                    && e == AdapterError::MissingApiKey,
            },
    {
        LlmClient::from_config(ProviderKind::OpenAiCompatible, None, None, None, env)
    }

    /// A client of the given kind of provider.
    pub fn from_config(
        provider: ProviderKind,
        model_id: Option<String>,
        base_url: Option<String>,
        api_key: Option<String>,
        env: &ProviderEnv,
    ) -> (r: Result<LlmClient, AdapterError>)
        ensures
            ({
                let want = configured(
                    provider,
                    crate::text::text_option(model_id),
                    crate::text::text_option(base_url),
                    crate::text::text_option(api_key),
                    *env,
                );
                match r {
                    Ok(c) => want == Some(c.provider@),
                    Err(e) => want is None && e == AdapterError::MissingApiKey,
                }
            }),
    {
        let key = first_of(&api_key, &env.api_key);
        match provider {
            ProviderKind::OpenAiCompatible => {
                if usable(&key).is_none() {
                    return Err(AdapterError::MissingApiKey);
                }
                let url = first_or(&base_url, &env.base_url, "https://openrouter.ai/api/v1");
                let model = first_or(&model_id, &env.model, "google/gemini-flash-1.5");
                Ok(LlmClient::openai_compatible(key, url.as_str(), model.as_str()))
            },
            ProviderKind::Ollama => {
                let url = first_or(&base_url, &env.base_url, "http://localhost:11434/v1");
                let model = first_or(&model_id, &env.model, "llama3");
                Ok(LlmClient::openai_compatible(key, url.as_str(), model.as_str()))
            },
        }
    }

    /// A client of a provider at the given address.
    pub fn openai_compatible(api_key: Option<String>, base_url: &str, model_id: &str) -> (r:
        LlmClient)
        ensures
            r.provider@ == settings(crate::text::text_option(api_key), base_url@, model_id@),
    {
        LlmClient { provider: OpenAiCompatibleProvider::new(api_key, base_url, model_id) }
    }

    pub fn model_id(&self) -> (r: &str)
        ensures
            r@ == self.provider@.model_id,
    {
        self.provider.model_id()
    }

    pub fn base_url(&self) -> (r: &str)
        ensures
            r@ == self.provider@.base_url,
    {
        self.provider.base_url()
    }
}

/// The address of a provider never ends with a slash.
pub proof fn lemma_base_has_no_trailing_slash(url: Seq<char>)
    ensures
        normal_base(url).len() > 0 ==> normal_base(url).last() != '/',
{
    lemma_without_slashes(crate::text::trimmed(url));
}

proof fn lemma_without_slashes(s: Seq<char>)
    ensures
        without_slashes(s).len() > 0 ==> without_slashes(s).last() != '/',
    decreases s.len(),
{
    if s.len() > 0 && s.last() == '/' {
        lemma_without_slashes(s.drop_last());
    }
}

} // verus!
