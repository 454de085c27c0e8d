use chat_gateway::errors::ChatError;
use chat_gateway::relay::{
    assemble_context, choose_auth, endpoint_url, extract_reply, finish_response, require_backend,
    resolve_model, system_directive, ChatEndpoint, ContextMessage,
};
use chat_gateway::storage::ChatStorage;
use chat_gateway::durable::normalize_database_url;
use chat_gateway::api::{ChatHistoryResponse, ChatRequest, ChatResponse, SessionsResponse};

const DIRECTIVE: &str = "You are an AI assistant. Answer as helpfully and concisely as possible.";

fn text(m: &ContextMessage) -> (&'static str, &str) {
    match m {
        ContextMessage::System(s) => ("system", s),
        ContextMessage::User(s) => ("user", s),
        ContextMessage::Assistant(s) => ("assistant", s),
    }
}

#[test]
fn context_for_empty_history() {
    let ctx = assemble_context(&Vec::new(), "hi");
    assert_eq!(ctx.len(), 2);
    assert_eq!(text(&ctx[0]), ("system", DIRECTIVE));
    assert_eq!(text(&ctx[1]), ("user", "hi"));
}

#[test]
fn context_interleaves_pairs_between_directive_and_new_message() {
    let history = vec![
        ("q1".to_string(), "r1".to_string()),
        ("q2".to_string(), "r2".to_string()),
    ];
    let ctx = assemble_context(&history, "q3");
    let got: Vec<(&str, &str)> = ctx.iter().map(text).collect();
    assert_eq!(
        got,
        vec![
            ("system", DIRECTIVE),
            ("user", "q1"),
            ("assistant", "r1"),
            ("user", "q2"),
            ("assistant", "r2"),
            ("user", "q3"),
        ]
    );
}

#[test]
fn system_directive_is_fixed() {
    assert_eq!(system_directive(), DIRECTIVE);
}

#[test]
fn explicit_model_wins() {
    let registered = vec!["first".to_string()];
    assert_eq!(
        resolve_model(Some("wanted".to_string()), &registered),
        Ok("wanted".to_string())
    );
}

#[test]
fn first_registered_model_is_picked() {
    let registered = vec!["first".to_string(), "second".to_string()];
    assert_eq!(resolve_model(None, &registered), Ok("first".to_string()));
}

#[test]
fn no_model_available_when_nothing_registered_and_no_field() {
    assert_eq!(resolve_model(None, &Vec::new()), Err(ChatError::NoModelAvailable));
    // the submit flow resolves the model before anything is persisted, so
    // this failure leaves the store untouched
    let storage = ChatStorage::new_memory_only();
    assert!(storage.get_all_sessions().is_empty());
    assert!(storage.get_session_pairs("s1").is_empty());
}

#[test]
fn no_backend_available_when_acquisition_fails() {
    match require_backend(None) {
        Err(ChatError::NoBackendAvailable) => {},
        other => panic!("expected NoBackendAvailable, got {:?}", other),
    }
}

#[test]
fn acquired_backend_is_kept() {
    let ep = ChatEndpoint { url: "http://h".to_string(), api_key: None };
    let got = require_backend(Some(ep)).unwrap();
    assert_eq!(got.url, "http://h");
    assert!(got.api_key.is_none());
}

#[test]
fn endpoint_url_trims_trailing_slashes() {
    assert_eq!(endpoint_url("http://h:8080/"), "http://h:8080/chat/completions");
    assert_eq!(endpoint_url("http://h//"), "http://h/chat/completions");
    assert_eq!(endpoint_url("http://h"), "http://h/chat/completions");
}

#[test]
fn endpoint_key_takes_precedence_and_empty_key_sends_none() {
    let inbound = Some("Bearer caller".to_string());
    assert_eq!(choose_auth(&Some("k".to_string()), &inbound), Some("k".to_string()));
    assert_eq!(choose_auth(&Some(String::new()), &inbound), None);
    assert_eq!(choose_auth(&None, &inbound), Some("Bearer caller".to_string()));
    assert_eq!(choose_auth(&None, &None), None);
}

#[test]
fn downstream_error_carries_status_and_body() {
    match finish_response(500, "boom") {
        Err(ChatError::DownstreamError { status, body }) => {
            assert_eq!(status, 500);
            assert_eq!(body, "boom");
        },
        other => panic!("expected DownstreamError, got {:?}", other),
    }
}

#[test]
fn successful_reply_content_is_extracted() {
    let body = "{\"choices\":[{\"message\":{\"content\":\"hello\"}}]}";
    assert_eq!(finish_response(200, body), Ok("hello".to_string()));
}

#[test]
fn structurally_absent_content_becomes_placeholder() {
    assert_eq!(finish_response(200, "{}"), Ok("(no content)".to_string()));
    assert_eq!(finish_response(200, "{\"choices\":[]}"), Ok("(no content)".to_string()));
    assert_eq!(finish_response(200, "not json at all"), Ok("(no content)".to_string()));
    assert_eq!(
        finish_response(200, "{\"choices\":[{\"message\":{\"content\":7}}]}"),
        Ok("(no content)".to_string())
    );
}

#[test]
fn extract_reply_substitutes_only_when_absent() {
    assert_eq!(extract_reply(Some("text".to_string())), "text");
    assert_eq!(extract_reply(None), "(no content)");
}

#[test]
fn submitted_turn_round_trip() {
    let request = ChatRequest {
        session_id: "s1".to_string(),
        user_message: "hi".to_string(),
        model: None,
    };
    let registered = vec!["m1".to_string()];
    let model = resolve_model(request.model, &registered).unwrap();
    assert_eq!(model, "m1");

    let mut storage = ChatStorage::new_memory_only();
    let history = storage.get_session_pairs(&request.session_id);
    assert!(history.is_empty());
    let ctx = assemble_context(&history, &request.user_message);
    assert_eq!(ctx.len(), 2);

    let body = "{\"choices\":[{\"message\":{\"content\":\"hello\"}}]}";
    let reply = finish_response(200, body).unwrap();
    storage.save_conversation(&request.session_id, &request.user_message, &reply);

    let response = ChatResponse { reply };
    assert_eq!(response.reply, "hello");
    assert_eq!(
        storage.get_session_pairs("s1"),
        vec![("hi".to_string(), "hello".to_string())]
    );
}

#[test]
fn failed_submit_records_no_turn() {
    let mut storage = ChatStorage::new_memory_only();
    let outcome = finish_response(500, "upstream exploded");
    assert!(outcome.is_err());
    // the turn is persisted only on success, so the store stays empty
    assert!(storage.get_all_sessions().is_empty());
    storage.save_conversation("other", "q", "r");
    assert_eq!(storage.get_all_sessions(), vec!["other".to_string()]);
}

#[test]
fn history_and_sessions_response_shapes() {
    let h = ChatHistoryResponse {
        session_id: "s".to_string(),
        messages: vec!["User: q".to_string(), "Bot: r".to_string()],
    };
    assert_eq!(h.messages.len(), 2);
    let s = SessionsResponse { sessions: vec!["s".to_string()] };
    assert_eq!(s.sessions, vec!["s".to_string()]);
}

#[test]
fn database_url_normalization() {
    assert_eq!(normalize_database_url("history.db"), "sqlite:history.db?mode=rwc");
    assert_eq!(normalize_database_url("data/history.db"), "sqlite:data/history.db?mode=rwc");
    assert_eq!(normalize_database_url("sqlite:history.db"), "sqlite:history.db?mode=rwc");
    assert_eq!(
        normalize_database_url("file:history.db?cache=shared"),
        "file:history.db?cache=shared&mode=rwc"
    );
    assert_eq!(
        normalize_database_url("sqlite:history.db?mode=ro"),
        "sqlite:history.db?mode=ro"
    );
}
