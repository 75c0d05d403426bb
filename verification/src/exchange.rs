//! One exchange with the remote service: what is sent, how the response is
//! read, and what is recorded afterwards.
//!
//! The caller makes the remote call. Before it, `prepare_request` composes
//! what to send from the session's transcript. After it, `conclude_exchange`
//! records the two new turns, and only where the service gave an answer: an
//! exchange that failed leaves every record as it was.

use vstd::prelude::*;
use crate::session::SessionKey;
use crate::store::StoreError;
use crate::store::StoredRecordView;
use crate::store::TranscriptStore;
use crate::store::after_append;
use crate::store::loaded;
use crate::store::record_in;
use crate::turn::Role;
use crate::turn::Turn;
use crate::turn::TurnView;
use crate::turn::tag_of;
use crate::turn::user_tag;
use crate::window::select_window;
use crate::window::window;

verus! {

/// One message as the remote service takes it: the tag of a role, and text.
#[derive(Clone, Debug, PartialEq, Eq)]
pub struct Message {
    pub role: String,
    pub content: String,
}

/// A message as a mathematical value.
pub struct MessageView {
    pub role: Seq<char>,
    pub content: Seq<char>,
}

impl View for Message {
    type V = MessageView;

    open spec fn view(&self) -> MessageView {
        MessageView { role: self.role@, content: self.content@ }
    }
}

impl DeepView for Message {
    type V = MessageView;

    open spec fn deep_view(&self) -> MessageView {
        self@
    }
}

/// What is sent to the remote service: the model to ask, and the messages.
#[derive(Clone, Debug, PartialEq, Eq)]
pub struct Request {
    pub model: String,
    pub messages: Vec<Message>,
}

/// The fields of a response that decide what it means, each as it was found
/// in the response or `None` where it was not there in that form.
#[derive(Clone, Debug, PartialEq, Eq)]
pub struct ResponseBody {
    /// Whether the response holds an error object.
    pub error_present: bool,
    /// The message of the error object, where it is text.
    pub error_message: Option<String>,
    /// The content of the first choice's message, where it is text.
    pub answer: Option<String>,
    /// The reported cost of what was submitted, where it is a whole number.
    pub prompt_tokens: Option<i64>,
    /// The reported cost of what was generated, where it is a whole number.
    pub completion_tokens: Option<i64>,
}

/// A response body as a mathematical value.
pub struct ResponseBodyView {
    pub error_present: bool,
    pub error_message: Option<Seq<char>>,
    pub answer: Option<Seq<char>>,
    pub prompt_tokens: Option<int>,
    pub completion_tokens: Option<int>,
}

impl View for ResponseBody {
    type V = ResponseBodyView;

    open spec fn view(&self) -> ResponseBodyView {
        ResponseBodyView {
            error_present: self.error_present,
            error_message: self.error_message.deep_view(),
            answer: self.answer.deep_view(),
            prompt_tokens: match self.prompt_tokens {
                Some(n) => Some(n as int),
                None => None,
            },
            completion_tokens: match self.completion_tokens {
                Some(n) => Some(n as int),
                None => None,
            },
        }
    }
}

/// What the remote service said.
#[derive(Clone, Debug, PartialEq, Eq)]
pub enum Reply {
    /// An answer, with the cost of all that was submitted and of the answer.
    Answered { content: String, prompt_tokens: u64, completion_tokens: u64 },
    /// An error that the service reported, with its message.
    Refused { message: String },
    /// Nothing that can be read as either.
    Broken,
}

/// A reply as a mathematical value.
pub enum ReplyView {
    Answered { content: Seq<char>, prompt_tokens: nat, completion_tokens: nat },
    Refused { message: Seq<char> },
    Broken,
}

impl View for Reply {
    type V = ReplyView;

    open spec fn view(&self) -> ReplyView {
        match self {
            Reply::Answered { content, prompt_tokens, completion_tokens } => ReplyView::Answered {
                content: content@,
                prompt_tokens: *prompt_tokens as nat,
                completion_tokens: *completion_tokens as nat,
            },
            Reply::Refused { message } => ReplyView::Refused { message: message@ },
            Reply::Broken => ReplyView::Broken,
        }
    }
}

/// An exchange that the service answered.
#[derive(Clone, Debug, PartialEq, Eq)]
pub struct Exchange {
    /// The assistant's answer.
    pub answer: String,
    /// Why the two new turns could not be recorded, where they could not.
    pub record_error: Option<StoreError>,
}

/// Why an exchange gave no answer.
#[derive(Clone, Debug, PartialEq, Eq)]
pub enum ExchangeError {
    /// The service reported an error, with this message.
    Refused(String),
    /// The service gave no response that can be read.
    NoResponse,
}

/// The message that a turn is sent as.
pub open spec fn message_of(turn: TurnView) -> MessageView {
    MessageView { role: tag_of(turn.role), content: turn.content }
}

/// The messages of a request: the context, turn by turn, and then the new
/// prompt as a message of the user.
pub open spec fn request_messages(context: Seq<TurnView>, prompt: Seq<char>) -> Seq<MessageView> {
    Seq::new(
        context.len() + 1,
        |i: int|
            if i < context.len() {
                message_of(context[i])
            } else {
                MessageView { role: user_tag(), content: prompt }
            },
    )
}

/// What a response means. With an error object it is a refusal, which needs
/// the error's message. Without one it is an answer, which needs the content
/// and both costs, neither of them negative. All else is a broken response.
pub open spec fn reply_of(body: ResponseBodyView) -> ReplyView {
    if body.error_present {
        match body.error_message {
            Some(message) => ReplyView::Refused { message },
            None => ReplyView::Broken,
        }
    } else {
        match (body.answer, body.prompt_tokens, body.completion_tokens) {
            (Some(content), Some(submitted), Some(generated)) if submitted >= 0 && generated
                >= 0 => ReplyView::Answered {
                content,
                prompt_tokens: submitted as nat,
                completion_tokens: generated as nat,
            },
            _ => ReplyView::Broken,
        }
    }
}

/// The two turns that an answered exchange adds: the user's prompt at the
/// cost of all that was submitted, then the assistant's answer at its own.
pub open spec fn new_turns(
    prompt: Seq<char>,
    content: Seq<char>,
    prompt_tokens: nat,
    completion_tokens: nat,
) -> Seq<TurnView> {
    seq![
        TurnView { role: Role::User, content: prompt, tokens: prompt_tokens },
        TurnView { role: Role::Assistant, content: content, tokens: completion_tokens },
    ]
}

/// The records after an exchange: an answer appends its two turns for the
/// session, and any other reply changes nothing.
pub open spec fn after_exchange(
    records: Map<SessionKey, StoredRecordView>,
    key: SessionKey,
    prompt: Seq<char>,
    reply: ReplyView,
) -> Map<SessionKey, StoredRecordView> {
    match reply {
        ReplyView::Answered { content, prompt_tokens, completion_tokens } => after_append(
            records,
            key,
            new_turns(prompt, content, prompt_tokens, completion_tokens),
        ),
        _ => records,
    }
}

/// The error with which recording fails for a session, if it fails.
pub open spec fn record_error_of(
    records: Map<SessionKey, StoredRecordView>,
    key: SessionKey,
) -> Option<StoreError> {
    match loaded(record_in(records, key)) {
        Ok(_) => None,
        Err(e) => Some(e),
    }
}

/// An exchange that was not answered leaves every record unchanged.
pub proof fn lemma_failed_exchange_changes_nothing(
    records: Map<SessionKey, StoredRecordView>,
    key: SessionKey,
    prompt: Seq<char>,
    reply: ReplyView,
)
    requires
        !(reply is Answered),
    ensures
        after_exchange(records, key, prompt, reply) == records,
{
}

/// After an answered exchange for a session whose transcript can be loaded,
/// the transcript is the old one followed by the user's turn and the
/// assistant's turn, and every other session's record is as it was.
pub proof fn lemma_answered_exchange_is_recorded(
    records: Map<SessionKey, StoredRecordView>,
    key: SessionKey,
    prompt: Seq<char>,
    content: Seq<char>,
    prompt_tokens: nat,
    completion_tokens: nat,
)
    requires
        loaded(record_in(records, key)) is Ok,
    ensures
        ({
            let reply = ReplyView::Answered { content, prompt_tokens, completion_tokens };
            let after = after_exchange(records, key, prompt, reply);
            &&& loaded(record_in(after, key)) == Ok::<Seq<TurnView>, StoreError>(
                loaded(record_in(records, key))->Ok_0 + new_turns(
                    prompt,
                    content,
                    prompt_tokens,
                    completion_tokens,
                ),
            )
            &&& forall|other: SessionKey|
                other != key ==> #[trigger] record_in(after, other) == record_in(records, other)
        }),
{
    crate::store::lemma_append_then_load(
        records,
        key,
        new_turns(prompt, content, prompt_tokens, completion_tokens),
    );
}

impl Message {
    /// The message that `turn` is sent as.
    pub fn from_turn(turn: &Turn) -> (message: Message)
        ensures
            message@ == message_of(turn@),
    {
        Message { role: turn.role.tag(), content: turn.content.clone() }
    }
}

impl ResponseBody {
    /// Reads what the response means.
    pub fn classify(self) -> (reply: Reply)
        ensures
            reply@ == reply_of(self@),
    {
        if self.error_present {
            match self.error_message {
                Some(message) => Reply::Refused { message },
                None => Reply::Broken,
            }
        } else {
            match (self.answer, self.prompt_tokens, self.completion_tokens) {
                (Some(content), Some(submitted), Some(generated)) => {
                    if submitted >= 0 && generated >= 0 {
                        Reply::Answered {
                            content,
                            prompt_tokens: submitted as u64,
                            completion_tokens: generated as u64,
                        }
                    } else {
                        Reply::Broken
                    }
                },
                _ => Reply::Broken,
            }
        }
    }
}

/// Composes the request for a new prompt: it asks `model`, and its messages
/// are the context window of the session's transcript under `budget`
/// followed by `prompt` as a message of the user. It fails where the
/// session's transcript cannot be loaded, with the load's error, and only
/// there.
pub fn prepare_request(
    store: &TranscriptStore,
    key: SessionKey,
    model: &str,
    prompt: &str,
    budget: u64,
) -> (outcome: Result<Request, StoreError>)
    ensures
        match loaded(record_in(store@, key)) {
            Ok(transcript) => outcome matches Ok(request) && request.model@ == model@
                && request.messages.deep_view() == request_messages(
                window(transcript, budget as nat),
                prompt@,
            ),
            Err(e) => outcome == Err::<Request, StoreError>(e),
        },
{
    match store.load(key) {
        Ok(transcript) => {
            let context = select_window(&transcript, budget);
            let mut messages: Vec<Message> = Vec::new();
            let mut i: usize = 0;
            while i < context.len()
                invariant
                    0 <= i <= context.len(),
                    messages.len() == i,
                    forall|k: int| 0 <= k < i ==> (#[trigger] messages[k])@ == message_of(context[k]@),
                decreases context.len() - i,
            {
                messages.push(Message::from_turn(&context[i]));
                i = i + 1;
            }
            messages.push(Message { role: Role::User.tag(), content: prompt.to_owned() });
            assert(messages.deep_view() =~= request_messages(context.deep_view(), prompt@));
            Ok(Request { model: model.to_owned(), messages })
        },
        Err(e) => Err(e),
    }
}

/// Concludes an exchange for a session whose prompt was `prompt`.
///
/// An answer is handed back, and its two turns are appended to the session's
/// transcript; where that transcript cannot be loaded the answer is handed
/// back all the same, with the reason why nothing was recorded. A refusal
/// or a broken response gives an error and leaves every record unchanged.
pub fn conclude_exchange(
    store: &mut TranscriptStore,
    key: SessionKey,
    prompt: &str,
    reply: Reply,
) -> (outcome: Result<Exchange, ExchangeError>)
    ensures
        final(store)@ == after_exchange(old(store)@, key, prompt@, reply@),
        !(reply@ is Answered) ==> final(store)@ == old(store)@,
        match reply@ {
            ReplyView::Answered { content, .. } => outcome matches Ok(done) && done.answer@
                == content && done.record_error == record_error_of(old(store)@, key),
            ReplyView::Refused { message } => outcome matches Err(ExchangeError::Refused(m)) && m@
                == message,
            ReplyView::Broken => outcome matches Err(ExchangeError::NoResponse),
        },
{
    match reply {
        Reply::Answered { content, prompt_tokens, completion_tokens } => {
            let mut added: Vec<Turn> = Vec::new();
            added.push(Turn::new(Role::User, prompt.to_owned(), prompt_tokens));
            added.push(Turn::new(Role::Assistant, content.clone(), completion_tokens));
            assert(added.deep_view() =~= new_turns(
                prompt@,
                content@,
                prompt_tokens as nat,
                completion_tokens as nat,
            ));
            let record_error = match store.append(key, &added) {
                Ok(_) => None,
                Err(e) => Some(e),
            };
            Ok(Exchange { answer: content, record_error })
        },
        Reply::Refused { message } => Err(ExchangeError::Refused(message)),
        Reply::Broken => Err(ExchangeError::NoResponse),
    }
}

} // verus!
