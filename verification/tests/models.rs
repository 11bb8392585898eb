use v9r::adapter::AdapterError;
use v9r::execution::Effect;
use v9r::guard::{ActionStep, ReplyRun};
use v9r::manifest::Manifest;
use v9r::provider::{
    chat_completions_url, completion_body, completion_from, completion_reply, counted_tokens,
    normalize_base_url, reply_tokens, LlmClient, OpenAiCompatibleProvider, ProviderEnv, ProviderKind,
};
use v9r::task::{Task, TaskStatus};
use v9r::trace::TaskEvent;

fn text(s: &str) -> Option<String> {
    Some(s.to_string())
}

fn bare() -> ProviderEnv {
    ProviderEnv { api_key: None, base_url: None, model: None }
}

fn full() -> ProviderEnv {
    ProviderEnv { api_key: text(" env-key "), base_url: text("http://env/v1/"), model: text("env-model") }
}

fn task() -> Task {
    Task::new(
        Manifest {
            allow_read: Vec::new(),
            allow_write: Vec::new(),
            allow_exec: Vec::new(),
            token_limit: 100,
            max_steps: 5,
            timeout_ms: 1000,
            mandatory_artifacts: Vec::new(),
            test_commands: Vec::new(),
        },
        "/work".to_string(),
    )
}

#[test]
fn providers_are_known_by_name() {
    for name in ["openai", "openai-compatible", "openrouter", "groq"] {
        assert_eq!(ProviderKind::parse(name).unwrap(), ProviderKind::OpenAiCompatible);
    }
    assert_eq!(ProviderKind::parse("ollama").unwrap(), ProviderKind::Ollama);
    for name in ["", "OpenAI", "ollama "] {
        match ProviderKind::parse(name) {
            Err(AdapterError::InvalidAction(m)) => assert_eq!(m, format!("unknown provider: {name}")),
            _ => panic!("{name} is no provider"),
        }
    }
}

#[test]
fn what_is_given_goes_before_the_environment() {
    let given = LlmClient::from_config(
        ProviderKind::OpenAiCompatible,
        text("m"),
        text(" http://given/v1// "),
        text("k"),
        &full(),
    )
    .ok()
    .unwrap();
    assert_eq!(given.model_id(), "m");
    assert_eq!(given.base_url(), "http://given/v1");
    assert_eq!(given.provider.request("hi").bearer.as_deref(), Some("k"));

    let env = LlmClient::from_env(&full()).ok().unwrap();
    assert_eq!(env.model_id(), "env-model");
    assert_eq!(env.base_url(), "http://env/v1");
    assert_eq!(env.provider.request("hi").bearer.as_deref(), Some("env-key"));

    let key_only = ProviderEnv { api_key: text("k"), base_url: None, model: None };
    let defaults = LlmClient::from_env(&key_only).ok().unwrap();
    assert_eq!(defaults.model_id(), "google/gemini-flash-1.5");
    assert_eq!(defaults.base_url(), "https://openrouter.ai/api/v1");

    let ollama =
        LlmClient::from_config(ProviderKind::Ollama, None, None, None, &bare()).ok().unwrap();
    assert_eq!(ollama.model_id(), "llama3");
    assert_eq!(ollama.base_url(), "http://localhost:11434/v1");
    assert_eq!(ollama.provider.request("hi").bearer, None);
}

#[test]
fn only_ollama_does_without_a_key() {
    assert!(matches!(LlmClient::from_env(&bare()), Err(AdapterError::MissingApiKey)));
    let blank = ProviderEnv { api_key: text("  "), base_url: None, model: None };
    assert!(matches!(LlmClient::from_env(&blank), Err(AdapterError::MissingApiKey)));
    assert!(matches!(
        LlmClient::from_config(ProviderKind::OpenAiCompatible, None, None, text(" "), &full()),
        Err(AdapterError::MissingApiKey)
    ));
    assert!(matches!(
        LlmClient::new("\t".to_string(), "m".to_string()),
        Err(AdapterError::MissingApiKey)
    ));
    let client = LlmClient::new("k".to_string(), " ".to_string()).ok().unwrap();
    assert_eq!(client.model_id(), "google/gemini-flash-1.5");
}

#[test]
fn addresses_of_completions() {
    assert_eq!(normalize_base_url("  http://a/v1///\n"), "http://a/v1");
    assert_eq!(normalize_base_url("///"), "");
    assert_eq!(chat_completions_url("http://a/v1"), "http://a/v1/chat/completions");
    assert_eq!(
        chat_completions_url("http://a/v1/chat/completions"),
        "http://a/v1/chat/completions"
    );
}

#[test]
fn requests_carry_the_prompt() {
    let body = completion_body("m", "do \"it\"");
    assert_eq!(
        body.to_string(),
        "{\"messages\":[{\"content\":\"do \\\"it\\\"\",\"role\":\"user\"}],\"model\":\"m\"}"
    );
    let provider = OpenAiCompatibleProvider::new(text("  "), "http://a/", "m");
    let request = provider.request("do \"it\"");
    assert_eq!(request.url, "http://a/chat/completions");
    assert_eq!(request.referer, "https://github.com/nikita/v9r");
    assert_eq!(request.title, "v9r Orchestrator");
    assert_eq!(request.bearer, None);
    assert_eq!(request.body, body);
}

#[test]
fn used_tokens_are_counted() {
    assert_eq!(reply_tokens("{\"usage\":{\"prompt_tokens\":3,\"total_tokens\":17}}"), 17);
    for silent in [
        "{",
        "{}",
        "{\"usage\":{}}",
        "{\"usage\":{\"total_tokens\":\"17\"}}",
        "{\"usage\":{\"total_tokens\":-1}}",
    ] {
        assert_eq!(reply_tokens(silent), 0, "{silent}");
    }
    assert_eq!(counted_tokens(Some(i64::MAX)), i64::MAX as u64);
    assert_eq!(counted_tokens(Some(i64::MIN)), 0);
    assert_eq!(counted_tokens(None), 0);
}

#[test]
fn answers_are_read() {
    let body = "{\"choices\":[{\"message\":{\"content\":\"done\"}},{}]}";
    assert_eq!(completion_reply(true, "200 OK", body).ok().unwrap(), "done");
    match completion_reply(false, "500 Internal Server Error", body) {
        Err(AdapterError::ApiStatus { status, body: b }) => {
            assert_eq!(status, "500 Internal Server Error");
            assert_eq!(b, body);
        }
        _ => panic!("an answer without success was taken"),
    }
    for lacking in [
        "{}",
        "[]",
        "{\"choices\":[]}",
        "{\"choices\":[{}]}",
        "{\"choices\":[{\"message\":{}}]}",
        "{\"choices\":[{\"message\":{\"content\":null}}]}",
    ] {
        match completion_reply(true, "200 OK", lacking) {
            Err(AdapterError::InvalidResponse(m)) => {
                assert_eq!(m, "missing choices[0].message.content")
            }
            _ => panic!("{lacking} was taken"),
        }
    }
    match completion_reply(true, "200 OK", "{") {
        Err(AdapterError::InvalidResponse(m)) => {
            assert_eq!(m, serde_json::from_str::<serde_json::Value>("{").unwrap_err().to_string())
        }
        _ => panic!("a broken document was taken"),
    }
    assert_eq!(completion_from(text("x")).ok().unwrap(), "x");
}

#[test]
fn replies_are_carried_out_in_order() {
    let mut t = task();
    t.status = TaskStatus::Failed;
    let mut run = ReplyRun::begin(
        "<write path=\"a\">x</write><execute>ls -l</execute>\
         <finish status=\"Success\">ok</finish><execute>never</execute>",
    )
    .ok()
    .unwrap();
    assert!(matches!(
        run.next(&mut t, false),
        Some(ActionStep::Write { path, content }) if path == "a" && content == "x"
    ));
    assert_eq!(t.status, TaskStatus::Failed);
    assert!(matches!(
        run.next(&mut t, true),
        Some(ActionStep::Execute(c)) if c.program == "ls" && c.args == vec!["-l".to_string()]
    ));
    assert_eq!(t.status, TaskStatus::Running);
    match run.next(&mut t, true) {
        Some(ActionStep::Finish(effects)) => {
            assert!(matches!(effects[0], Effect::SetStatus(TaskStatus::Success)));
            assert!(effects.iter().any(|e| matches!(
                e,
                Effect::Log(TaskEvent::TaskFinished { status: TaskStatus::Success })
            )));
        }
        _ => panic!("the reply finishes the run"),
    }
    assert!(run.next(&mut t, false).is_none());
}

#[test]
fn violations_stay_when_a_reply_goes_on() {
    let mut t = task();
    t.status = TaskStatus::Violation;
    let mut run = ReplyRun::begin("<execute>ls</execute><execute>pwd</execute>").ok().unwrap();
    assert!(run.next(&mut t, false).is_some());
    assert!(run.next(&mut t, true).is_some());
    assert_eq!(t.status, TaskStatus::Violation);
    assert!(run.next(&mut t, true).is_none());
}

#[test]
fn an_action_that_cannot_be_read_ends_the_reply() {
    let mut t = task();
    let mut run =
        ReplyRun::begin("<execute>a \"b</execute><execute>pwd</execute>").ok().unwrap();
    assert!(matches!(
        run.next(&mut t, false),
        Some(ActionStep::Fail(AdapterError::InvalidAction(_)))
    ));
    assert!(run.next(&mut t, false).is_none());
    assert!(matches!(ReplyRun::begin("no tags"), Err(AdapterError::InvalidAction(_))));
}
