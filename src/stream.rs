use vstd::prelude::*;
use crate::status::Status;

verus! {

/// What the transport hands a call on its request side, one item at a time.
#[derive(Debug)]
pub enum Incoming<M> {
    /// A decoded request message.
    Message(M),
    /// A request message that could not be decoded.
    DecodeFailed(Status),
    /// The client ended its stream.
    End,
    /// The call was cancelled or the connection dropped.
    Cancelled,
}

/// What the handler is given on its request side.
#[derive(Debug)]
pub enum ToHandler<M> {
    Deliver(M),
    EndOfInput,
    Fail(Status),
    /// The call is abandoned: the handler's task is dropped, with no end of input.
    Abandon,
}

/// What goes to the wire on the response side.
#[derive(Debug)]
pub enum Frame<M> {
    Message(M),
    /// The handler's stream is exhausted: the trailing status is success.
    End,
    /// The handler failed: its status is the trailing status.
    Failed(Status),
}

/// One step of the request side: whether it is closed afterwards, and what
/// the handler is given.
pub open spec fn request_step<M>(closed: bool, item: Incoming<M>) -> (bool, Option<ToHandler<M>>) {
    if closed {
        (true, None)
    } else {
        match item {
            Incoming::Message(m) => (false, Some(ToHandler::Deliver(m))),
            Incoming::DecodeFailed(s) => (true, Some(ToHandler::Fail(s))),
            Incoming::End => (true, Some(ToHandler::EndOfInput)),
            Incoming::Cancelled => (true, Some(ToHandler::Abandon)),
        }
    }
}

/// What the handler is given, in order, for a sequence of incoming items.
pub open spec fn request_actions<M>(closed: bool, items: Seq<Incoming<M>>) -> Seq<ToHandler<M>>
    decreases items.len(),
{
    if items.len() == 0 {
        seq![]
    } else {
        let (c, a) = request_step(closed, items[0]);
        let rest = request_actions(c, items.drop_first());
        match a {
            Some(x) => seq![x] + rest,
            None => rest,
        }
    }
}

/// One step of the response side: whether it is finished afterwards, and the
/// frame sent. `None` as the item means that the handler's stream is exhausted.
pub open spec fn response_step<M>(finished: bool, item: Option<Result<M, Status>>) -> (bool, Option<Frame<M>>) {
    if finished {
        (true, None)
    } else {
        match item {
            Some(Ok(m)) => (false, Some(Frame::Message(m))),
            Some(Err(s)) => (true, Some(Frame::Failed(s))),
            None => (true, Some(Frame::End)),
        }
    }
}

/// The frames sent, in order, for a sequence of items of the handler's stream.
pub open spec fn response_frames<M>(finished: bool, items: Seq<Option<Result<M, Status>>>) -> Seq<Frame<M>>
    decreases items.len(),
{
    if items.len() == 0 {
        seq![]
    } else {
        let (f, a) = response_step(finished, items[0]);
        let rest = response_frames(f, items.drop_first());
        match a {
            Some(x) => seq![x] + rest,
            None => rest,
        }
    }
}

/// The request side of one call.
#[derive(Debug)]
pub struct RequestStream {
    pub closed: bool,
}

impl RequestStream {
    pub fn new() -> (r: RequestStream)
        ensures
            !r.closed,
    {
        RequestStream { closed: false }
    }

    /// Takes one item from the transport and says what the handler is given,
    /// at once and without holding anything back.
    pub fn on_incoming<M>(&mut self, item: Incoming<M>) -> (r: Option<ToHandler<M>>)
        ensures
            (final(self).closed, r) == request_step(old(self).closed, item),
    {
        if self.closed {
            return None;
        }
        match item {
            Incoming::Message(m) => Some(ToHandler::Deliver(m)),
            Incoming::DecodeFailed(s) => {
                self.closed = true;
                Some(ToHandler::Fail(s))
            },
            Incoming::End => {
                self.closed = true;
                Some(ToHandler::EndOfInput)
            },
            Incoming::Cancelled => {
                self.closed = true;
                Some(ToHandler::Abandon)
            },
        }
    }
}

/// The response side of one call.
#[derive(Debug)]
pub struct ResponseStream {
    pub finished: bool,
}

impl ResponseStream {
    pub fn new() -> (r: ResponseStream)
        ensures
            !r.finished,
    {
        ResponseStream { finished: false }
    }

    /// Takes the next item of the handler's stream (`None` once it is
    /// exhausted) and gives the frame to send, at once.
    pub fn on_item<M>(&mut self, item: Option<Result<M, Status>>) -> (r: Option<Frame<M>>)
        ensures
            (final(self).finished, r) == response_step(old(self).finished, item),
    {
        if self.finished {
            return None;
        }
        match item {
            Some(Ok(m)) => Some(Frame::Message(m)),
            Some(Err(s)) => {
                self.finished = true;
                Some(Frame::Failed(s))
            },
            None => {
                self.finished = true;
                Some(Frame::End)
            },
        }
    }
    /// The transport dropped the call: the handler's stream is dropped and
    /// no frame is sent any more, not even a trailing status.
    pub fn on_cancel(&mut self)
        ensures
            final(self).finished,
    {
        self.finished = true;
    }
}

/// Calls a handler on a decoded request, once, and hands back what it
/// returned; a request that failed to decode fails the call with its status
/// and the handler is not called.
pub fn invoke<Req, Resp, F: FnOnce(Req) -> Result<Resp, Status>>(request: Result<Req, Status>, handler: F) -> (r:
    Result<Resp, Status>)
    requires
        request matches Ok(m) ==> call_requires(handler, (m,)),
    ensures
        match request {
            Ok(m) => call_ensures(handler, (m,), r),
            Err(s) => r == Err::<Resp, Status>(s),
        },
{
    match request {
        Ok(m) => handler(m),
        Err(s) => Err(s),
    }
}

/// Each message arriving as a decoded request message.
pub open spec fn messages_in<M>(msgs: Seq<M>) -> Seq<Incoming<M>> {
    msgs.map_values(|m: M| Incoming::Message(m))
}

/// Each message handed to the handler.
pub open spec fn delivered<M>(msgs: Seq<M>) -> Seq<ToHandler<M>> {
    msgs.map_values(|m: M| ToHandler::Deliver(m))
}

/// Each message produced by the handler's stream.
pub open spec fn produced<M>(msgs: Seq<M>) -> Seq<Option<Result<M, Status>>> {
    msgs.map_values(|m: M| Some(Ok(m)))
}

/// Each message sent as a frame.
pub open spec fn sent<M>(msgs: Seq<M>) -> Seq<Frame<M>> {
    msgs.map_values(|m: M| Frame::Message(m))
}

proof fn lemma_request_closed<M>(items: Seq<Incoming<M>>)
    ensures
        request_actions(true, items) == Seq::<ToHandler<M>>::empty(),
    decreases items.len(),
{
    if items.len() > 0 {
        lemma_request_closed(items.drop_first());
    }
}

/// Once the response side is finished, by the end of the handler's stream,
/// by its failure or by cancellation, no frame is sent for anything that
/// follows.
pub proof fn lemma_response_finished<M>(items: Seq<Option<Result<M, Status>>>)
    ensures
        response_frames(true, items) == Seq::<Frame<M>>::empty(),
    decreases items.len(),
{
    if items.len() > 0 {
        lemma_response_finished(items.drop_first());
    }
}

proof fn lemma_request_messages<M>(msgs: Seq<M>, tail: Seq<Incoming<M>>)
    ensures
        request_actions(false, messages_in(msgs) + tail) == delivered(msgs) + request_actions(
            false,
            tail,
        ),
    decreases msgs.len(),
{
    if msgs.len() > 0 {
        let items = messages_in(msgs) + tail;
        let rest = msgs.drop_first();
        assert(items[0] == Incoming::Message(msgs[0]));
        assert(items.drop_first() =~= messages_in(rest) + tail);
        lemma_request_messages(rest, tail);
        assert(delivered(msgs) =~= seq![ToHandler::Deliver(msgs[0])] + delivered(rest));
        assert(request_actions(false, items) == seq![ToHandler::Deliver(msgs[0])]
            + request_actions(false, messages_in(rest) + tail));
        assert(request_actions(false, items) =~= delivered(msgs) + request_actions(false, tail));
    } else {
        assert(messages_in(msgs) + tail =~= tail);
        assert(delivered(msgs) + request_actions(false, tail) =~= request_actions(false, tail));
    }
}

proof fn lemma_response_messages<M>(msgs: Seq<M>, tail: Seq<Option<Result<M, Status>>>)
    ensures
        response_frames(false, produced(msgs) + tail) == sent(msgs) + response_frames(false, tail),
    decreases msgs.len(),
{
    if msgs.len() > 0 {
        let items = produced(msgs) + tail;
        let rest = msgs.drop_first();
        assert(items[0] == Some(Ok::<M, Status>(msgs[0])));
        assert(items.drop_first() =~= produced(rest) + tail);
        lemma_response_messages(rest, tail);
        assert(sent(msgs) =~= seq![Frame::Message(msgs[0])] + sent(rest));
        assert(response_frames(false, items) == seq![Frame::Message(msgs[0])] + response_frames(
            false,
            produced(rest) + tail,
        ));
        assert(response_frames(false, items) =~= sent(msgs) + response_frames(false, tail));
    } else {
        assert(produced(msgs) + tail =~= tail);
        assert(sent(msgs) + response_frames(false, tail) =~= response_frames(false, tail));
    }
}

/// A client stream of messages followed by its end reaches the handler as
/// exactly those messages, in order, and then the end of input.
pub proof fn lemma_client_stream_in_order<M>(msgs: Seq<M>)
    ensures
        request_actions(false, messages_in(msgs) + seq![Incoming::End]) == delivered(msgs) + seq![
            ToHandler::EndOfInput,
        ],
{
    let tail = seq![Incoming::<M>::End];
    lemma_request_messages(msgs, tail);
    lemma_request_closed(tail.drop_first());
    assert(request_actions(false, tail) =~= seq![ToHandler::<M>::EndOfInput]);
}

/// A client stream cancelled after some messages reaches the handler as those
/// messages and then the abandonment of the call: never an end of input,
/// whatever comes after the cancellation.
pub proof fn lemma_cancel_is_not_end<M>(msgs: Seq<M>, later: Seq<Incoming<M>>)
    ensures
        request_actions(false, messages_in(msgs) + seq![Incoming::Cancelled] + later) == delivered(
            msgs,
        ) + seq![ToHandler::Abandon],
        forall|i: int|
            0 <= i < msgs.len() + 1 ==> !(#[trigger] request_actions(
                false,
                messages_in(msgs) + seq![Incoming::Cancelled] + later,
            )[i] is EndOfInput),
{
    let tail = seq![Incoming::<M>::Cancelled] + later;
    assert(messages_in(msgs) + seq![Incoming::Cancelled] + later =~= messages_in(msgs) + tail);
    lemma_request_messages(msgs, tail);
    assert(tail.drop_first() =~= later);
    lemma_request_closed(later);
    assert(request_actions(false, tail) =~= seq![ToHandler::<M>::Abandon]);
    let all = delivered(msgs) + seq![ToHandler::<M>::Abandon];
    assert forall|i: int| 0 <= i < msgs.len() + 1 implies !(#[trigger] all[i] is EndOfInput) by {
        if i < msgs.len() {
            assert(all[i] == ToHandler::Deliver(msgs[i]));
        }
    }
}

/// A handler stream of messages that is then exhausted goes to the wire as
/// exactly those messages, in order, and then a successful end.
pub proof fn lemma_server_stream_in_order<M>(msgs: Seq<M>)
    ensures
        response_frames(false, produced(msgs) + seq![None]) == sent(msgs) + seq![Frame::End],
{
    let tail = seq![None::<Result<M, Status>>];
    lemma_response_messages(msgs, tail);
    lemma_response_finished(tail.drop_first());
    assert(response_frames(false, tail) =~= seq![Frame::<M>::End]);
}

/// A handler stream that fails after some messages goes to the wire as those
/// messages and then the failure with the handler's status; nothing the
/// stream yields afterwards is sent.
pub proof fn lemma_server_stream_failure<M>(msgs: Seq<M>, s: Status, later: Seq<Option<Result<M, Status>>>)
    ensures
        response_frames(false, produced(msgs) + seq![Some(Err(s))] + later) == sent(msgs) + seq![
            Frame::Failed(s),
        ],
{
    let tail = seq![Some(Err::<M, Status>(s))] + later;
    assert(produced(msgs) + seq![Some(Err(s))] + later =~= produced(msgs) + tail);
    lemma_response_messages(msgs, tail);
    assert(tail.drop_first() =~= later);
    lemma_response_finished(later);
    assert(response_frames(false, tail) =~= seq![Frame::<M>::Failed(s)]);
}

/// What reaches a bidirectional call: an item of the request side, or the
/// next item of the handler's stream.
#[derive(Debug)]
pub enum Event<M, R> {
    Input(Incoming<M>),
    Output(Option<Result<R, Status>>),
}

/// What a bidirectional call does with one event.
#[derive(Debug)]
pub enum Action<M, R> {
    Handler(ToHandler<M>),
    Wire(Frame<R>),
}

/// One step of a bidirectional call: the two sides afterwards, and the action.
/// A cancellation ends both sides at once: the handler is abandoned and
/// nothing more goes to the wire, not even a trailing status.
pub open spec fn exchange_step<M, R>(closed: bool, finished: bool, e: Event<M, R>) -> (bool, bool, Option<Action<M, R>>) {
    match e {
        Event::Input(Incoming::Cancelled) => (true, true, if closed && finished {
            None
        } else {
            Some(Action::Handler(ToHandler::Abandon))
        }),
        Event::Input(i) => {
            let (c, a) = request_step(closed, i);
            (c, finished, match a {
                Some(x) => Some(Action::Handler(x)),
                None => None,
            })
        },
        Event::Output(o) => {
            let (f, a) = response_step(finished, o);
            (closed, f, match a {
                Some(x) => Some(Action::Wire(x)),
                None => None,
            })
        },
    }
}

/// The actions of a bidirectional call, in order, for a sequence of events.
pub open spec fn exchange_actions<M, R>(closed: bool, finished: bool, events: Seq<Event<M, R>>) -> Seq<Action<M, R>>
    decreases events.len(),
{
    if events.len() == 0 {
        seq![]
    } else {
        let (c, f, a) = exchange_step(closed, finished, events[0]);
        let rest = exchange_actions(c, f, events.drop_first());
        match a {
            Some(x) => seq![x] + rest,
            None => rest,
        }
    }
}

/// Both sides of a bidirectional call, each paced on its own.
#[derive(Debug)]
pub struct Exchange {
    pub requests: RequestStream,
    pub responses: ResponseStream,
}

impl Exchange {
    pub fn new() -> (r: Exchange)
        ensures
            !r.requests.closed,
            !r.responses.finished,
    {
        Exchange { requests: RequestStream::new(), responses: ResponseStream::new() }
    }

    /// Takes one event and gives its action at once.
    pub fn on_event<M, R>(&mut self, e: Event<M, R>) -> (r: Option<Action<M, R>>)
        ensures
            (final(self).requests.closed, final(self).responses.finished, r) == exchange_step(
                old(self).requests.closed,
                old(self).responses.finished,
                e,
            ),
            e matches Event::Input(Incoming::Cancelled) ==> final(self).requests.closed
                && final(self).responses.finished,
    {
        match e {
            Event::Input(Incoming::Cancelled) => {
                let live = !(self.requests.closed && self.responses.finished);
                self.requests.closed = true;
                self.responses.on_cancel();
                if live {
                    Some(Action::Handler(ToHandler::Abandon))
                } else {
                    None
                }
            },
            Event::Input(i) => match self.requests.on_incoming(i) {
                Some(x) => Some(Action::Handler(x)),
                None => None,
            },
            Event::Output(o) => match self.responses.on_item(o) {
                Some(x) => Some(Action::Wire(x)),
                None => None,
            },
        }
    }
}

/// Each message arrives and the handler echoes it before the next arrives.
pub open spec fn echo_events<M>(msgs: Seq<M>) -> Seq<Event<M, M>>
    decreases msgs.len(),
{
    if msgs.len() == 0 {
        seq![]
    } else {
        seq![Event::Input(Incoming::Message(msgs[0])), Event::Output(Some(Ok(msgs[0])))]
            + echo_events(msgs.drop_first())
    }
}

/// Each message is handed to the handler and its echo sent right after.
pub open spec fn echo_actions<M>(msgs: Seq<M>) -> Seq<Action<M, M>>
    decreases msgs.len(),
{
    if msgs.len() == 0 {
        seq![]
    } else {
        seq![Action::Handler(ToHandler::Deliver(msgs[0])), Action::Wire(Frame::Message(msgs[0]))]
            + echo_actions(msgs.drop_first())
    }
}

/// A bidirectional call whose handler echoes each message before it reads the
/// next: each message reaches the handler as it arrives and each echo goes to
/// the wire as it is produced, one for one, with nothing held back.
pub proof fn lemma_echo_one_for_one<M>(msgs: Seq<M>)
    ensures
        exchange_actions(false, false, echo_events(msgs)) == echo_actions(msgs),
    decreases msgs.len(),
{
    if msgs.len() > 0 {
        let m = msgs[0];
        let rest = msgs.drop_first();
        let evs = echo_events(msgs);
        let out = Event::<M, M>::Output(Some(Ok(m)));
        assert(evs[0] == Event::<M, M>::Input(Incoming::Message(m)));
        assert(evs.drop_first() =~= seq![out] + echo_events(rest));
        let second = seq![out] + echo_events(rest);
        assert(second[0] == out);
        assert(second.drop_first() =~= echo_events(rest));
        lemma_echo_one_for_one(rest);
        assert(exchange_actions(false, false, second) == seq![Action::<M, M>::Wire(Frame::Message(m))]
            + echo_actions(rest));
        assert(exchange_actions(false, false, evs) =~= echo_actions(msgs));
    }
}

proof fn lemma_exchange_done<M, R>(events: Seq<Event<M, R>>)
    ensures
        exchange_actions(true, true, events) == Seq::<Action<M, R>>::empty(),
    decreases events.len(),
{
    if events.len() > 0 {
        lemma_exchange_done(events.drop_first());
    }
}

/// A cancelled bidirectional call abandons its handler, unless both sides
/// were already done, and does nothing more: whatever follows, in particular
/// any output of the handler, sends nothing to the wire.
pub proof fn lemma_cancel_stops_call<M, R>(closed: bool, finished: bool, later: Seq<Event<M, R>>)
    ensures
        exchange_actions(closed, finished, seq![Event::Input(Incoming::Cancelled)] + later) == (if closed
            && finished {
            Seq::<Action<M, R>>::empty()
        } else {
            seq![Action::Handler(ToHandler::Abandon)]
        }),
        forall|k: int|
            0 <= k < exchange_actions(closed, finished, seq![Event::Input(Incoming::Cancelled)] + later).len()
                ==> !(#[trigger] exchange_actions(
                closed,
                finished,
                seq![Event::Input(Incoming::Cancelled)] + later,
            )[k] is Wire),
{
    let events = seq![Event::<M, R>::Input(Incoming::Cancelled)] + later;
    assert(events[0] == Event::<M, R>::Input(Incoming::Cancelled));
    assert(events.drop_first() =~= later);
    lemma_exchange_done(later);
    if !(closed && finished) {
        assert(exchange_actions(closed, finished, events) =~= seq![Action::<M, R>::Handler(ToHandler::Abandon)]);
    }
}

} // verus!
