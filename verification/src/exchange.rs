//! Asking a model: when a request is made again, and how its answer is read.
use crate::json;
use crate::message;
use crate::message::Message;
use crate::provider;
use crate::sse;
use crate::sse::SseDecoder;
use crate::stream;
use crate::stream::{
    ChatCompletionStream, ChatView, ResponsesStream, ResponsesView, StreamFault,
};
use crate::text;
use vstd::prelude::*;
use vstd::string::*;

verus! {

// ---------------------------------------------------------------------------
// Requests

/// What is asked for.
#[derive(Clone, Copy, Debug, PartialEq, Eq, Structural)]
pub enum Asked {
    /// An answer to a conversation.
    Answer,
    /// The models that there are.
    Models,
}

/// How far a request is.
#[derive(Debug)]
pub enum Stage {
    /// It is made.
    Sending,
    /// It is made again with a new login.
    Resending,
    /// It was refused with a status: what is said of that is read.
    Refused(String),
    /// The answer is read as a whole.
    Reading,
    /// The answer is read as it comes.
    Streaming,
    /// It is over.
    Over,
}

/// A request to a model or its provider.
#[derive(Debug)]
pub struct Exchange {
    pub asked: Asked,
    /// Whether it is made as a subscriber of ChatGPT.
    pub subscription: bool,
    pub stage: Stage,
}

/// What comes of a request.
#[derive(Debug)]
pub enum ExchangeEvent {
    /// It could not be made.
    Unsent(String),
    /// Nothing came for so many seconds.
    Idle(u64),
    /// It is answered with a status, as events or not.
    Response { status: u16, status_text: String, event_stream: bool },
    /// What was said of a refusal.
    Body(String),
}

/// What has to be done.
#[derive(Debug)]
pub enum ExchangeAction {
    /// Get a new login, and make the request again.
    Renew,
    /// Read the answer as a whole.
    ReadBody,
    /// Read the answer as it comes.
    ReadStream,
    /// It is over: it went wrong.
    Fail(String),
}

/// What a person is told of who was asked.
pub open spec fn description_of(asked: Asked, subscription: bool) -> Seq<char> {
    match asked {
        Asked::Models => "model catalog request"@,
        Asked::Answer => if subscription {
            "ChatGPT subscription request"@
        } else {
            "model request"@
        },
    }
}

fn description(asked: Asked, subscription: bool) -> (s: &'static str)
    ensures
        s@ == description_of(asked, subscription),
{
    match asked {
        Asked::Models => "model catalog request",
        Asked::Answer => if subscription {
            "ChatGPT subscription request"
        } else {
            "model request"
        },
    }
}

/// Whether a status says that all is well.
pub open spec fn is_success(status: u16) -> bool {
    200 <= status < 300
}

/// What is done with a response.
pub open spec fn judged(e: Exchange, status: u16, status_text: String, event_stream: bool) -> (
    Stage,
    ExchangeAction,
) {
    if e.asked == Asked::Models {
        (Stage::Reading, ExchangeAction::ReadBody)
    } else if !is_success(status) {
        (Stage::Refused(status_text), ExchangeAction::ReadBody)
    } else if e.subscription || event_stream {
        (Stage::Streaming, ExchangeAction::ReadStream)
    } else {
        (Stage::Reading, ExchangeAction::ReadBody)
    }
}

/// What a person is told where a request could not be made.
pub open spec fn unsent_text(e: Exchange, error: Seq<char>) -> Seq<char> {
    description_of(e.asked, e.subscription) + " failed: "@ + error
}

/// What a person is told where nothing came for too long.
pub open spec fn idle_text(e: Exchange, seconds: u64) -> Seq<char> {
    description_of(e.asked, e.subscription) + " received no data for "@ + text::decimal(
        seconds as nat,
    ) + " seconds"@
}

/// What a person is told of a refusal.
pub open spec fn refused_text(e: Exchange, status: Seq<char>, body: Seq<char>) -> Seq<char> {
    let who = if e.subscription {
        "ChatGPT subscription"@
    } else {
        "model"@
    };
    who + " returned "@ + status + ": "@ + provider::compact_of(
        body,
        json::read_json(body),
        |v: json::JsonView| provider::error_of(v),
    )
}

/// Whether something that comes of a request leads on, from where it is.
pub open spec fn leads_on(stage: Stage, event: ExchangeEvent) -> bool {
    match event {
        ExchangeEvent::Unsent(_) | ExchangeEvent::Idle(_) | ExchangeEvent::Response { .. } =>
            stage is Sending || stage is Resending,
        ExchangeEvent::Body(_) => stage is Refused,
    }
}

/// How a request goes on.
pub open spec fn goes_on(
    before: Exchange,
    event: ExchangeEvent,
    after: Exchange,
    action: ExchangeAction,
) -> bool {
    &&& after.asked == before.asked
    &&& after.subscription == before.subscription
    &&& match event {
        ExchangeEvent::Unsent(e) => after.stage is Over && (action matches ExchangeAction::Fail(m)
            && m@ == unsent_text(before, e@)),
        ExchangeEvent::Idle(n) => after.stage is Over && (action matches ExchangeAction::Fail(m)
            && m@ == idle_text(before, n)),
        ExchangeEvent::Response { status, status_text, event_stream } => if before.stage is Sending
            && before.subscription && status == 401 {
            after.stage is Resending && action is Renew
        } else {
            (after.stage, action) == judged(before, status, status_text, event_stream)
        },
        ExchangeEvent::Body(body) => after.stage is Over && (action matches ExchangeAction::Fail(m)
            && before.stage matches Stage::Refused(status) && m@ == refused_text(
            before,
            status@,
            body@,
        )),
    }
}

impl Exchange {
    /// A request about to be made.
    pub fn begin(asked: Asked, subscription: bool) -> (e: Exchange)
        ensures
            e == (Exchange { asked, subscription, stage: Stage::Sending }),
    {
        Exchange { asked, subscription, stage: Stage::Sending }
    }

    /// Goes on with what came of the request; what leads nowhere changes nothing.
    pub fn next(&mut self, event: ExchangeEvent) -> (r: Option<ExchangeAction>)
        ensures
            leads_on(old(self).stage, event) ==> (r matches Some(action) && goes_on(
                *old(self),
                event,
                *final(self),
                action,
            )),
            !leads_on(old(self).stage, event) ==> r is None && *final(self) == *old(self),
    {
        let first = matches!(self.stage, Stage::Sending);
        let awaits = first || matches!(self.stage, Stage::Resending);
        match event {
            ExchangeEvent::Unsent(error) => {
                if !awaits {
                    return None;
                }
                self.stage = Stage::Over;
                let who = description(self.asked, self.subscription);
                Some(ExchangeAction::Fail(text::cat3(who, " failed: ", &error)))
            },
            ExchangeEvent::Idle(seconds) => {
                if !awaits {
                    return None;
                }
                self.stage = Stage::Over;
                let who = description(self.asked, self.subscription);
                Some(ExchangeAction::Fail(provider::idle_message(who, seconds)))
            },
            ExchangeEvent::Response { status, status_text, event_stream } => {
                if !awaits {
                    return None;
                }
                if first && self.subscription && status == 401 {
                    self.stage = Stage::Resending;
                    return Some(ExchangeAction::Renew);
                }
                if let Asked::Models = self.asked {
                    self.stage = Stage::Reading;
                    return Some(ExchangeAction::ReadBody);
                }
                if status < 200 || status >= 300 {
                    self.stage = Stage::Refused(status_text);
                    return Some(ExchangeAction::ReadBody);
                }
                if self.subscription || event_stream {
                    self.stage = Stage::Streaming;
                    Some(ExchangeAction::ReadStream)
                } else {
                    self.stage = Stage::Reading;
                    Some(ExchangeAction::ReadBody)
                }
            },
            ExchangeEvent::Body(body) => {
                let status = match &self.stage {
                    Stage::Refused(status) => status.clone(),
                    _ => {
                        return None;
                    },
                };
                self.stage = Stage::Over;
                let who = if self.subscription {
                    "ChatGPT subscription"
                } else {
                    "model"
                };
                Some(ExchangeAction::Fail(provider::refusal(who, &status, &body)))
            },
        }
    }
}

/// A request is made twice at most, the second time only where a subscriber was not let in, and
/// a request that is over leads nowhere.
pub proof fn requests_are_made_twice_at_most(
    before: Exchange,
    event: ExchangeEvent,
    after: Exchange,
    action: ExchangeAction,
)
    requires
        leads_on(before.stage, event),
        goes_on(before, event, after, action),
    ensures
        action is Renew ==> before.stage is Sending && before.subscription && after.stage is Resending,
        before.stage is Resending ==> !(action is Renew),
        action is Fail <==> after.stage is Over,
        !(before.stage is Over) && !(after.stage is Sending),
{
}

// ---------------------------------------------------------------------------
// Answers that come as events

/// An answer in the making.
#[derive(Debug)]
pub enum AnswerStream {
    Responses(ResponsesStream),
    Chat(ChatCompletionStream),
}

/// An answer in the making.
pub enum AnswerView {
    Responses(ResponsesView),
    Chat(ChatView),
}

impl View for AnswerStream {
    type V = AnswerView;

    open spec fn view(&self) -> AnswerView {
        match *self {
            AnswerStream::Responses(s) => AnswerView::Responses(s@),
            AnswerStream::Chat(s) => AnswerView::Chat(s@),
        }
    }
}

/// What a person is told of a fault in a stream.
pub open spec fn fault_text(s: AnswerView, fault: StreamFault) -> Seq<char> {
    match fault {
        StreamFault::Invalid(m) => (match s {
            AnswerView::Responses(_) => "invalid event in ChatGPT response stream"@,
            AnswerView::Chat(_) => "invalid Chat Completions stream event"@,
        }) + ": "@ + m,
        StreamFault::Failed(m) => m,
        StreamFault::CallIndex => "a tool call of the stream has no usable index"@,
    }
}

/// The answer after an event, and the text to be shown.
pub open spec fn after_event(s: AnswerView, data: Seq<char>) -> Result<
    (AnswerView, Option<Seq<char>>),
    StreamFault,
> {
    match s {
        AnswerView::Responses(r) => match stream::after_data(r, data) {
            Ok((next, shown)) => Ok((AnswerView::Responses(next), shown)),
            Err(f) => Err(f),
        },
        AnswerView::Chat(c) => match stream::after_chat_data(c, data) {
            Ok((next, shown)) => Ok((AnswerView::Chat(next), shown)),
            Err(f) => Err(f),
        },
    }
}

/// What came of some events: the answer, the texts to be shown, and what went wrong.
#[verifier::ext_equal]
pub struct Read {
    pub answer: AnswerView,
    pub shown: Seq<Seq<char>>,
    pub fault: Option<Seq<char>>,
}

/// What came of the first `n` events; those behind one that went wrong are not read.
pub open spec fn after_events(s: AnswerView, events: Seq<Seq<char>>, n: nat) -> Read
    decreases n,
{
    if n == 0 {
        Read { answer: s, shown: Seq::empty(), fault: None }
    } else {
        let before = after_events(s, events, (n - 1) as nat);
        if before.fault is Some {
            before
        } else {
            match after_event(before.answer, events[n - 1]) {
                Ok((answer, Some(t))) => Read { answer, shown: before.shown.push(t), fault: None },
                Ok((answer, None)) => Read { answer, ..before },
                Err(f) => Read { fault: Some(fault_text(before.answer, f)), ..before },
            }
        }
    }
}

/// What came of what was taken out of a stream.
pub open spec fn after_taken(s: AnswerView, t: sse::Taken) -> Read {
    match t.fault {
        Some(detail) => Read {
            answer: s,
            shown: Seq::empty(),
            fault: Some(sse::invalid_text(detail)),
        },
        None => after_events(s, t.events, t.events.len()),
    }
}

proof fn lemma_faulty(s: AnswerView, events: Seq<Seq<char>>, n: nat, m: nat)
    requires
        n <= m,
        after_events(s, events, n).fault is Some,
    ensures
        after_events(s, events, m) == after_events(s, events, n),
    decreases m,
{
    if n < m {
        lemma_faulty(s, events, n, (m - 1) as nat);
    }
}

/// An answer that is read as it comes.
#[derive(Debug)]
pub struct AnswerReader {
    pub decoder: SseDecoder,
    pub stream: AnswerStream,
}

impl AnswerReader {
    /// A reader of an answer of which nothing has come.
    pub fn begin(subscription: bool) -> (r: AnswerReader)
        ensures
            r.decoder.buffer@ == Seq::<u8>::empty(),
            r.stream@ == (if subscription {
                AnswerView::Responses(
                    ResponsesView {
                        text: Seq::empty(),
                        calls: Seq::empty(),
                        completed_output: None,
                    },
                )
            } else {
                AnswerView::Chat(ChatView { text: Seq::empty(), calls: Seq::empty() })
            }),
    {
        let stream = if subscription {
            AnswerStream::Responses(ResponsesStream::new())
        } else {
            AnswerStream::Chat(ChatCompletionStream::new())
        };
        AnswerReader { decoder: SseDecoder::new(), stream }
    }

    fn take_event(&mut self, data: &str) -> (r: Result<Option<String>, String>)
        ensures
            final(self).decoder == old(self).decoder,
            match after_event(old(self).stream@, data@) {
                Ok((answer, shown)) => final(self).stream@ == answer && (r matches Ok(t)
                    && message::opt_view(t) == shown),
                Err(f) => final(self).stream@ == old(self).stream@ && (r matches Err(e) && e@
                    == fault_text(old(self).stream@, f)),
            },
    {
        match &mut self.stream {
            AnswerStream::Responses(s) => match s.push(data) {
                Ok(shown) => Ok(shown),
                Err(e) => Err(e.message("invalid event in ChatGPT response stream")),
            },
            AnswerStream::Chat(s) => match s.push(data) {
                Ok(shown) => Ok(shown),
                Err(e) => Err(e.message("invalid Chat Completions stream event")),
            },
        }
    }

    fn take_events(&mut self, events: &Vec<String>) -> (r: (Vec<String>, Option<String>))
        ensures
            final(self).decoder == old(self).decoder,
            ({
                let read = after_events(old(self).stream@, text::views(events@), events@.len());
                &&& final(self).stream@ == read.answer
                &&& text::views(r.0@) == read.shown
                &&& message::opt_view(r.1) == read.fault
            }),
    {
        let ghost start = self.stream@;
        let ghost all = text::views(events@);
        let ghost decoder = self.decoder;
        let mut shown = text::no_texts();
        let mut i: usize = 0;
        while i < events.len()
            invariant
                i <= events@.len(),
                all == text::views(events@),
                start == old(self).stream@,
                self.decoder == decoder,
                decoder == old(self).decoder,
                after_events(start, all, i as nat) == (Read {
                    answer: self.stream@,
                    shown: text::views(shown@),
                    fault: None,
                }),
            decreases events@.len() - i,
        {
            assert(all[i as int] == events@[i as int]@);
            match self.take_event(&events[i]) {
                Ok(Some(t)) => {
                    shown = text::with(shown, &t);
                },
                Ok(None) => {},
                Err(e) => {
                    proof {
                        lemma_faulty(start, all, (i + 1) as nat, all.len());
                    }
                    return (shown, Some(e));
                },
            }
            i += 1;
        }
        (shown, None)
    }

    /// Reads a chunk of the answer: the texts to be shown, and what went wrong.
    pub fn read(&mut self, chunk: &[u8]) -> (r: (Vec<String>, Option<String>))
        ensures
            ({
                let t = sse::taken(old(self).decoder.buffer@ + chunk@);
                let read = after_taken(old(self).stream@, t);
                &&& final(self).decoder.buffer@ == t.rest
                &&& final(self).stream@ == read.answer
                &&& text::views(r.0@) == read.shown
                &&& message::opt_view(r.1) == read.fault
            }),
    {
        match self.decoder.push(chunk) {
            Ok(events) => self.take_events(&events),
            Err(e) => (text::no_texts(), Some(e.message())),
        }
    }

    /// Reads what is left when nothing more comes.
    pub fn read_rest(&mut self) -> (r: (Vec<String>, Option<String>))
        ensures
            ({
                let t = sse::taken_at_end(old(self).decoder.buffer@);
                let read = after_taken(old(self).stream@, t);
                &&& final(self).decoder.buffer@ == t.rest
                &&& final(self).stream@ == read.answer
                &&& text::views(r.0@) == read.shown
                &&& message::opt_view(r.1) == read.fault
            }),
    {
        match self.decoder.finish() {
            Ok(events) => self.take_events(&events),
            Err(e) => (text::no_texts(), Some(e.message())),
        }
    }

    /// The whole answer.
    pub fn finish(self) -> (r: Result<Message, String>)
        ensures
            match self.stream@ {
                AnswerView::Responses(s) => {
                    let end = stream::at_end(s);
                    match r {
                        Ok(m) => (end.text.len() > 0 || end.calls.len() > 0) && m@
                            == stream::answer_of(end.text, end.calls),
                        Err(e) => end.text.len() == 0 && end.calls.len() == 0 && e@
                            == "ChatGPT returned no message or tool call"@,
                    }
                },
                AnswerView::Chat(s) => {
                    let calls = stream::whole_calls(s.calls, s.calls.len());
                    match r {
                        Ok(m) => (s.text.len() > 0 || calls.len() > 0) && m@ == stream::answer_of(
                            s.text,
                            calls,
                        ),
                        Err(e) => s.text.len() == 0 && calls.len() == 0 && e@
                            == "model returned no message or tool call"@,
                    }
                },
            },
    {
        match self.stream {
            AnswerStream::Responses(s) => s.finish(),
            AnswerStream::Chat(s) => s.finish(),
        }
    }
}

// ---------------------------------------------------------------------------
// Laws

proof fn lemma_first_events(s: AnswerView, a: Seq<Seq<char>>, b: Seq<Seq<char>>, n: nat)
    requires
        n <= a.len(),
    ensures
        after_events(s, a + b, n) == after_events(s, a, n),
    decreases n,
{
    if n > 0 {
        lemma_first_events(s, a, b, (n - 1) as nat);
        assert((a + b)[n - 1] == a[n - 1]);
    }
}

proof fn lemma_more_events(s: AnswerView, a: Seq<Seq<char>>, b: Seq<Seq<char>>, n: nat)
    requires
        n <= b.len(),
        after_events(s, a, a.len()).fault is None,
    ensures
        ({
            let first = after_events(s, a, a.len());
            let second = after_events(first.answer, b, n);
            after_events(s, a + b, a.len() + n) == (Read {
                answer: second.answer,
                shown: first.shown + second.shown,
                fault: second.fault,
            })
        }),
    decreases n,
{
    let first = after_events(s, a, a.len());
    if n == 0 {
        lemma_first_events(s, a, b, a.len());
        assert(first.shown + Seq::<Seq<char>>::empty() == first.shown);
    } else {
        lemma_more_events(s, a, b, (n - 1) as nat);
        assert((a + b)[a.len() + n - 1] == b[n - 1]);
        let before = after_events(first.answer, b, (n - 1) as nat);
        let all = after_events(s, a + b, (a.len() + n - 1) as nat);
        let now = after_events(first.answer, b, n);
        if before.fault is None {
            assert(all.answer == before.answer);
            assert(after_events(s, a + b, a.len() + n).shown == first.shown + now.shown);
        }
    }
}

/// It does not matter in what pieces an answer comes: read in two pieces, it becomes the same answer,
/// shows the same texts and ends in the same fault as read at once.
pub proof fn pieces_of_an_answer_do_not_matter(s: AnswerView, a: Seq<u8>, b: Seq<u8>)
    requires
        after_taken(s, sse::taken(a)).fault is None,
    ensures
        ({
            let first = after_taken(s, sse::taken(a));
            let second = after_taken(first.answer, sse::taken(sse::taken(a).rest + b));
            let whole = after_taken(s, sse::taken(a + b));
            &&& whole.fault == second.fault
            &&& sse::taken(a + b).fault is None ==> whole == (Read {
                answer: second.answer,
                shown: first.shown + second.shown,
                fault: second.fault,
            })
        }),
{
    sse::chunks_do_not_matter(a, b);
    let x = sse::taken(a).events;
    let y = sse::taken(sse::taken(a).rest + b).events;
    if sse::taken(a + b).fault is None {
        lemma_more_events(s, x, y, y.len());
        assert((x + y).len() == x.len() + y.len());
    }
}

/// A subscriber who is not let in is let in anew once; what is refused beyond that is told, with
/// its status and with what was said of it.
pub proof fn a_refusal_is_told(
    sent: Exchange,
    status: u16,
    status_text: String,
    event_stream: bool,
    after: Exchange,
    action: ExchangeAction,
    body: String,
    over: Exchange,
    last: ExchangeAction,
)
    requires
        sent.stage is Sending || sent.stage is Resending,
        sent.asked == Asked::Answer,
        status < 200 || status >= 300,
        status == 401 && sent.subscription ==> sent.stage is Resending,
        goes_on(
            sent,
            ExchangeEvent::Response { status, status_text, event_stream },
            after,
            action,
        ),
        goes_on(after, ExchangeEvent::Body(body), over, last),
    ensures
        action is ReadBody,
        leads_on(after.stage, ExchangeEvent::Body(body)),
        over.stage is Over,
        last matches ExchangeAction::Fail(m) && m@ == (if sent.subscription {
            "ChatGPT subscription"@
        } else {
            "model"@
        }) + " returned "@ + status_text@ + ": "@ + provider::compact_of(
            body@,
            json::read_json(body@),
            |v: json::JsonView| provider::error_of(v),
        ),
{
}

/// An answer is read as it comes where it comes as events or for a subscriber, and else as a whole.
pub proof fn a_good_answer_is_read(
    sent: Exchange,
    status: u16,
    status_text: String,
    event_stream: bool,
    after: Exchange,
    action: ExchangeAction,
)
    requires
        sent.stage is Sending || sent.stage is Resending,
        200 <= status <= 299,
        goes_on(
            sent,
            ExchangeEvent::Response { status, status_text, event_stream },
            after,
            action,
        ),
    ensures
        sent.asked == Asked::Answer && (event_stream || sent.subscription) ==> action is ReadStream
            && after.stage is Streaming,
        sent.asked == Asked::Answer && !event_stream && !sent.subscription ==> action is ReadBody
            && after.stage is Reading,
        sent.asked == Asked::Models ==> action is ReadBody && after.stage is Reading,
{
}

/// A subscriber who is not let in gets a new login the first time.
pub proof fn a_login_is_renewed_once(
    sent: Exchange,
    status: u16,
    status_text: String,
    event_stream: bool,
    after: Exchange,
    action: ExchangeAction,
)
    requires
        sent.stage is Sending || sent.stage is Resending,
        goes_on(
            sent,
            ExchangeEvent::Response { status, status_text, event_stream },
            after,
            action,
        ),
    ensures
        action is Renew <==> sent.stage is Sending && sent.subscription && status == 401,
        action is Renew ==> leads_on(
            after.stage,
            ExchangeEvent::Response { status, status_text, event_stream },
        ),
{
}

/// An event is read behind those before it: the text to be shown comes last, and where it goes
/// wrong, what came before stays and nothing behind it is read.
pub proof fn events_are_read_in_a_row(s: AnswerView, events: Seq<Seq<char>>, event: Seq<char>)
    ensures
        ({
            let before = after_events(s, events, events.len());
            let now = after_events(s, events.push(event), events.len() + 1);
            &&& before.fault is Some ==> now == before
            &&& before.fault is None ==> match after_event(before.answer, event) {
                Ok((answer, shown)) => now.answer == answer && now.fault is None && now.shown
                    == before.shown + (match shown {
                    Some(t) => seq![t],
                    None => Seq::<Seq<char>>::empty(),
                }),
                Err(_) => now.answer == before.answer && now.shown == before.shown
                    && now.fault is Some,
            }
        }),
{
    lemma_first_events(s, events, seq![event], events.len());
    assert(events + seq![event] == events.push(event));
}

/// An event goes to the answer that is being made, and to no other.
pub proof fn an_event_goes_to_its_answer(
    responses: ResponsesView,
    chat: ChatView,
    data: Seq<char>,
)
    ensures
        match stream::after_data(responses, data) {
            Ok((next, shown)) => after_event(AnswerView::Responses(responses), data) == Ok::<
                (AnswerView, Option<Seq<char>>),
                StreamFault,
            >((AnswerView::Responses(next), shown)),
            Err(f) => after_event(AnswerView::Responses(responses), data) == Err::<
                (AnswerView, Option<Seq<char>>),
                StreamFault,
            >(f),
        },
        match stream::after_chat_data(chat, data) {
            Ok((next, shown)) => after_event(AnswerView::Chat(chat), data) == Ok::<
                (AnswerView, Option<Seq<char>>),
                StreamFault,
            >((AnswerView::Chat(next), shown)),
            Err(f) => after_event(AnswerView::Chat(chat), data) == Err::<
                (AnswerView, Option<Seq<char>>),
                StreamFault,
            >(f),
        },
{
}

/// What a stream says went wrong is told as it is said.
pub proof fn what_went_wrong_is_told(s: AnswerView, said: Seq<char>)
    ensures
        fault_text(s, StreamFault::Failed(said)) == said,
        text::finishes_with(fault_text(s, StreamFault::Invalid(said)), said),
{
    let t = fault_text(s, StreamFault::Invalid(said));
    assert(t.skip(t.len() - said.len()) == said);
}

/// What came before a fault in the framing of the events is kept, and nothing of it is shown.
pub proof fn a_broken_frame_leaves_the_answer(s: AnswerView, t: sse::Taken)
    ensures
        t.fault is Some ==> after_taken(s, t).fault is Some && after_taken(s, t).answer == s
            && after_taken(s, t).shown.len() == 0,
        t.fault is None && t.events.len() == 0 ==> after_taken(s, t).fault is None && after_taken(
            s,
            t,
        ).answer == s,
{
}

/// A request as a subscriber that is not let in at first is made once more with a new login, and told
/// as refused where it is not let in again.
pub proof fn a_second_refusal_is_final(
    e: &mut Exchange,
    text: String,
    events: bool,
    r: Option<ExchangeAction>,
)
    requires
        call_ensures(
            Exchange::next,
            (e, ExchangeEvent::Response { status: 401, status_text: text, event_stream: events }),
            r,
        ),
        old(e).asked == Asked::Answer,
        old(e).subscription,
    ensures
        old(e).stage is Sending ==> r == Some(ExchangeAction::Renew) && final(e).stage is Resending,
        old(e).stage is Resending ==> r == Some(ExchangeAction::ReadBody) && final(e).stage
            == Stage::Refused(text),
        final(e).asked == old(e).asked && final(e).subscription == old(e).subscription,
{
}

} // verus!
