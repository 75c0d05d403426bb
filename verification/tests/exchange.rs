use chat_memory::exchange::{
    conclude_exchange, prepare_request, Exchange, ExchangeError, Message, Reply, Request,
    ResponseBody,
};
use chat_memory::session::SessionKey;
use chat_memory::store::{StoreError, StoredRecord, StoredTurn, TranscriptStore};
use chat_memory::turn::{Role, Turn};

fn key() -> SessionKey {
    SessionKey { epoch: 1700000000, scope: 4242 }
}

fn message(role: &str, content: &str) -> Message {
    Message { role: role.to_string(), content: content.to_string() }
}

fn answered(content: &str, prompt_tokens: u64, completion_tokens: u64) -> Reply {
    Reply::Answered { content: content.to_string(), prompt_tokens, completion_tokens }
}

fn body(
    error_present: bool,
    error_message: Option<&str>,
    answer: Option<&str>,
    prompt_tokens: Option<i64>,
    completion_tokens: Option<i64>,
) -> ResponseBody {
    ResponseBody {
        error_present,
        error_message: error_message.map(|s| s.to_string()),
        answer: answer.map(|s| s.to_string()),
        prompt_tokens,
        completion_tokens,
    }
}

#[test]
fn classify_reads_an_answer() {
    assert_eq!(
        body(false, None, Some("Paris."), Some(57), Some(3)).classify(),
        answered("Paris.", 57, 3)
    );
    assert_eq!(
        body(false, Some("ignored"), Some(""), Some(0), Some(0)).classify(),
        answered("", 0, 0)
    );
    assert_eq!(
        body(false, None, Some("x"), Some(i64::MAX), Some(1)).classify(),
        answered("x", i64::MAX as u64, 1)
    );
}

#[test]
fn classify_reads_a_refusal() {
    assert_eq!(
        body(true, Some("quota exceeded"), None, None, None).classify(),
        Reply::Refused { message: "quota exceeded".to_string() }
    );
    // An error object wins over whatever else the response holds.
    assert_eq!(
        body(true, Some("bad key"), Some("Paris."), Some(57), Some(3)).classify(),
        Reply::Refused { message: "bad key".to_string() }
    );
}

#[test]
fn classify_reads_a_broken_response() {
    assert_eq!(body(true, None, None, None, None).classify(), Reply::Broken);
    assert_eq!(body(true, None, Some("Paris."), Some(57), Some(3)).classify(), Reply::Broken);
    assert_eq!(body(false, None, None, None, None).classify(), Reply::Broken);
    assert_eq!(body(false, None, None, Some(57), Some(3)).classify(), Reply::Broken);
    assert_eq!(body(false, None, Some("Paris."), None, Some(3)).classify(), Reply::Broken);
    assert_eq!(body(false, None, Some("Paris."), Some(57), None).classify(), Reply::Broken);
    assert_eq!(body(false, None, Some("Paris."), Some(-1), Some(3)).classify(), Reply::Broken);
    assert_eq!(body(false, None, Some("Paris."), Some(57), Some(-3)).classify(), Reply::Broken);
    assert_eq!(body(false, Some("stray"), None, None, None).classify(), Reply::Broken);
}

#[test]
fn request_for_a_new_session_holds_the_prompt_alone() {
    let store = TranscriptStore::new();
    assert_eq!(
        prepare_request(&store, key(), "gpt-3.5-turbo", "What is the capital of France?", 4096),
        Ok(Request {
            model: "gpt-3.5-turbo".to_string(),
            messages: vec![message("user", "What is the capital of France?")],
        })
    );
}

#[test]
fn request_holds_the_window_and_then_the_prompt() {
    let mut store = TranscriptStore::new();
    let transcript = vec![
        Turn::new(Role::User, "oldest".to_string(), 5),
        Turn::new(Role::Assistant, "middle".to_string(), 100),
        Turn::new(Role::User, "newest".to_string(), 5),
    ];
    store.append(key(), &transcript).unwrap();
    let request = prepare_request(&store, key(), "some-model", "and now?", 10).unwrap();
    assert_eq!(request.model, "some-model");
    assert_eq!(
        request.messages,
        vec![message("user", "oldest"), message("user", "newest"), message("user", "and now?")]
    );
    let request = prepare_request(&store, key(), "some-model", "and now?", 0).unwrap();
    assert_eq!(request.messages, vec![message("user", "and now?")]);
    let request = prepare_request(&store, key(), "some-model", "and now?", 110).unwrap();
    assert_eq!(
        request.messages,
        vec![
            message("user", "oldest"),
            message("assistant", "middle"),
            message("user", "newest"),
            message("user", "and now?"),
        ]
    );
}

#[test]
fn request_fails_where_the_transcript_cannot_be_loaded() {
    let mut store = TranscriptStore::new();
    store.put(key(), StoredRecord::Malformed);
    assert_eq!(prepare_request(&store, key(), "m", "q", 10), Err(StoreError::Malformed));
    let bad = StoredTurn { role: "system".to_string(), content: "s".to_string(), tokens: 1 };
    store.put(key(), StoredRecord::Document(vec![bad]));
    assert_eq!(prepare_request(&store, key(), "m", "q", 10), Err(StoreError::UnknownRole(0)));
}

#[test]
fn message_of_a_turn_has_the_role_tag() {
    let turn = Turn::new(Role::Assistant, "text".to_string(), 3);
    assert_eq!(Message::from_turn(&turn), message("assistant", "text"));
    let turn = Turn::new(Role::User, "".to_string(), 0);
    assert_eq!(Message::from_turn(&turn), message("user", ""));
}

#[test]
fn answered_exchange_records_both_turns_with_the_reported_costs() {
    let mut store = TranscriptStore::new();
    let outcome = conclude_exchange(&mut store, key(), "What is 2+2?", answered("4", 14, 1));
    assert_eq!(outcome, Ok(Exchange { answer: "4".to_string(), record_error: None }));
    assert_eq!(
        store.load(key()),
        Ok(vec![
            Turn::new(Role::User, "What is 2+2?".to_string(), 14),
            Turn::new(Role::Assistant, "4".to_string(), 1),
        ])
    );
}

#[test]
fn refused_exchange_leaves_the_record_unchanged() {
    let mut store = TranscriptStore::new();
    store.append(key(), &vec![Turn::new(Role::User, "before".to_string(), 2)]).unwrap();
    let before = store.record(key());
    let reply = Reply::Refused { message: "rate limited".to_string() };
    let outcome = conclude_exchange(&mut store, key(), "again", reply);
    assert_eq!(outcome, Err(ExchangeError::Refused("rate limited".to_string())));
    assert_eq!(store.record(key()), before);
}

#[test]
fn broken_exchange_leaves_the_record_unchanged() {
    let mut store = TranscriptStore::new();
    let other = SessionKey { epoch: 1700000000, scope: 4243 };
    store.append(other, &vec![Turn::new(Role::User, "theirs".to_string(), 2)]).unwrap();
    let outcome = conclude_exchange(&mut store, key(), "hello?", Reply::Broken);
    assert_eq!(outcome, Err(ExchangeError::NoResponse));
    assert_eq!(store.record(key()), None);
    assert_eq!(store.load(other), Ok(vec![Turn::new(Role::User, "theirs".to_string(), 2)]));
}

#[test]
fn answer_is_handed_back_where_it_cannot_be_recorded() {
    let mut store = TranscriptStore::new();
    store.put(key(), StoredRecord::Malformed);
    let outcome = conclude_exchange(&mut store, key(), "q", answered("a", 5, 6));
    assert_eq!(
        outcome,
        Ok(Exchange { answer: "a".to_string(), record_error: Some(StoreError::Malformed) })
    );
    assert_eq!(store.record(key()), Some(StoredRecord::Malformed));
}

#[test]
fn two_invocations_share_one_growing_transcript() {
    let mut store = TranscriptStore::new();
    let first = prepare_request(&store, key(), "m", "My name is Ada.", 4096).unwrap();
    assert_eq!(first.messages, vec![message("user", "My name is Ada.")]);
    conclude_exchange(&mut store, key(), "My name is Ada.", answered("Hello, Ada.", 12, 5))
        .unwrap();

    let second = prepare_request(&store, key(), "m", "What is my name?", 4096).unwrap();
    assert_eq!(
        second.messages,
        vec![
            message("user", "My name is Ada."),
            message("assistant", "Hello, Ada."),
            message("user", "What is my name?"),
        ]
    );
    conclude_exchange(&mut store, key(), "What is my name?", answered("Ada.", 30, 3)).unwrap();

    assert_eq!(
        store.load(key()),
        Ok(vec![
            Turn::new(Role::User, "My name is Ada.".to_string(), 12),
            Turn::new(Role::Assistant, "Hello, Ada.".to_string(), 5),
            Turn::new(Role::User, "What is my name?".to_string(), 30),
            Turn::new(Role::Assistant, "Ada.".to_string(), 3),
        ])
    );
    // The user's turn carries the cost of the whole submission, so under a
    // budget of 40 the third request holds the last three turns only.
    let third = prepare_request(&store, key(), "m", "Thanks.", 40).unwrap();
    assert_eq!(
        third.messages,
        vec![
            message("assistant", "Hello, Ada."),
            message("user", "What is my name?"),
            message("assistant", "Ada."),
            message("user", "Thanks."),
        ]
    );
}

#[test]
fn failed_exchange_between_two_answers_leaves_no_trace() {
    let mut store = TranscriptStore::new();
    conclude_exchange(&mut store, key(), "one", answered("1", 4, 1)).unwrap();
    let _ = conclude_exchange(&mut store, key(), "lost", Reply::Broken);
    let refusal = Reply::Refused { message: "no".to_string() };
    let _ = conclude_exchange(&mut store, key(), "lost too", refusal);
    conclude_exchange(&mut store, key(), "two", answered("2", 9, 1)).unwrap();
    assert_eq!(
        store.load(key()),
        Ok(vec![
            Turn::new(Role::User, "one".to_string(), 4),
            Turn::new(Role::Assistant, "1".to_string(), 1),
            Turn::new(Role::User, "two".to_string(), 9),
            Turn::new(Role::Assistant, "2".to_string(), 1),
        ])
    );
}
