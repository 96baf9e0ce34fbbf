//! What passes between a WebSocket and the PTY of a terminal.

use vstd::prelude::*;
use vstd::slice::{slice_subrange, slice_to_vec};
use vstd::string::StrSliceExecFns;

verus! {

/// How many bytes are read from the PTY at once.
pub const PTY_BUFFER_SIZE: usize = 8192;

/// The size of a terminal, in characters and in pixels.
#[derive(Debug, Clone, Copy, PartialEq, Eq, Structural)]
pub struct TerminalSize {
    pub rows: u16,
    pub cols: u16,
    pub pixel_width: u16,
    pub pixel_height: u16,
}

/// A request for another terminal size.
#[derive(Debug, Clone)]
pub struct NeedResize {
    /// The type of the message.
    pub type_str: String,
    pub cols: u16,
    pub rows: u16,
}

/// A sign of life.
#[derive(Debug, Clone)]
pub struct HeartBeat {
    /// The type of the message.
    pub type_str: String,
    pub timestamp: String,
}

/// A message of the WebSocket.
#[derive(Debug, Clone)]
pub enum WsMessage {
    Text(String),
    Binary(Vec<u8>),
    Close,
    /// A ping, a pong or a raw frame.
    Other,
}

/// What a message calls for.
pub enum WsReply {
    /// Nothing more; this came of it: a request for another size, nothing, or an error.
    Handled(Result<Option<NeedResize>, String>),
    /// These bytes are input for the PTY; `ws_written` says what comes of writing them.
    Write(Vec<u8>),
}

/// Decides what a message calls for.
///
/// `heartbeat` and `resize` are what the text of the message is as JSON, if anything: a sign of
/// life is passed over, a request for another size is handed on, and any other text is input for
/// the PTY. So are the bytes of a binary message. A close message is an error.
pub fn handle_ws_message(
    msg: WsMessage,
    heartbeat: Option<HeartBeat>,
    resize: Option<NeedResize>,
) -> (r: WsReply)
    ensures
        match msg {
            WsMessage::Text(text) => if heartbeat is Some {
                r == WsReply::Handled(Ok(None))
            } else if resize is Some {
                r == WsReply::Handled(Ok(resize))
            } else {
                r matches WsReply::Write(bytes) && bytes@ == vstd::utf8::encode_utf8(text@)
            },
            WsMessage::Binary(data) => r == WsReply::Write(data),
            WsMessage::Close => r matches WsReply::Handled(Err(e)) && e@
                == "WebSocket connection closed"@,
            WsMessage::Other => r == WsReply::Handled(Ok(None)),
        },
{
    match msg {
        WsMessage::Text(text) => {
            if heartbeat.is_some() {
                return WsReply::Handled(Ok(None));
            }
            if resize.is_some() {
                return WsReply::Handled(Ok(resize));
            }
            WsReply::Write(text.as_str().as_bytes_vec())
        },
        WsMessage::Binary(data) => WsReply::Write(data),
        WsMessage::Close => WsReply::Handled(Err("WebSocket connection closed".to_owned())),
        WsMessage::Other => WsReply::Handled(Ok(None)),
    }
}

/// What came of a message whose bytes were written to the PTY, or could not be.
pub fn ws_written(written: Result<(), String>) -> (r: Result<Option<NeedResize>, String>)
    ensures
        match written {
            Ok(()) => r == Ok::<Option<NeedResize>, String>(None),
            Err(e) => r matches Err(m) && m@ == "Failed to write to PTY: "@ + e@,
        },
{
    match written {
        Ok(()) => Ok(None),
        Err(e) => {
            let mut message: String = "Failed to write to PTY: ".to_owned();
            message.append(&e);
            Err(message)
        },
    }
}

/// What happened on the way from the WebSocket to the PTY.
pub enum WsEvent {
    /// A message came; as JSON, its text is this sign of life or this request, if anything.
    Message(WsMessage, Option<HeartBeat>, Option<NeedResize>),
    ReceiveFailed(String),
    /// The WebSocket has no more messages.
    Ended,
    /// Bytes were written to the PTY, or could not be.
    Written(Result<(), String>),
    /// The PTY was resized, or could not be.
    Resized(Result<(), String>),
}

/// What is done next on the way from the WebSocket to the PTY.
pub enum WsAction {
    Receive,
    Write(Vec<u8>),
    Resize(TerminalSize),
    /// Nothing more; this is reported, if anything.
    Stop(Option<String>),
}

/// What is done after a message was handled.
pub open spec fn after_handled(handled: Result<Option<NeedResize>, String>, action: WsAction) -> bool {
    match handled {
        Ok(None) => action == WsAction::Receive,
        Ok(Some(resize)) => action == WsAction::Resize(
            TerminalSize { rows: resize.rows, cols: resize.cols, pixel_width: 0, pixel_height: 0 },
        ),
        Err(e) => action matches WsAction::Stop(Some(m)) && m@
            == "Failed to handle WebSocket message: "@ + e@,
    }
}

/// Goes on after a message was handled: a request for another size is met, an error ends the way.
fn follow(handled: Result<Option<NeedResize>, String>) -> (r: WsAction)
    ensures
        after_handled(handled, r),
        match handled {
            Ok(None) => r is Receive,
            Ok(Some(resize)) => r matches WsAction::Resize(size) && size.rows == resize.rows
                && size.cols == resize.cols && size.pixel_width == 0 && size.pixel_height == 0,
            Err(e) => r matches WsAction::Stop(Some(m)) && m@
                == "Failed to handle WebSocket message: "@ + e@,
        },
{
    match handled {
        Ok(None) => WsAction::Receive,
        Ok(Some(resize)) => WsAction::Resize(
            TerminalSize { rows: resize.rows, cols: resize.cols, pixel_width: 0, pixel_height: 0 },
        ),
        Err(e) => {
            let mut message: String = "Failed to handle WebSocket message: ".to_owned();
            message.append(&e);
            WsAction::Stop(Some(message))
        },
    }
}

/// Whether `action` is what follows `event` on the way from the WebSocket to the PTY.
pub open spec fn ws_follows(event: WsEvent, action: WsAction) -> bool {
    match event {
        WsEvent::Message(WsMessage::Text(text), heartbeat, resize) => if heartbeat is Some {
            action == WsAction::Receive
        } else if resize is Some {
            action == WsAction::Resize(
                TerminalSize {
                    rows: resize->0.rows,
                    cols: resize->0.cols,
                    pixel_width: 0,
                    pixel_height: 0,
                },
            )
        } else {
            action matches WsAction::Write(bytes) && bytes@ == vstd::utf8::encode_utf8(text@)
        },
        WsEvent::Message(WsMessage::Binary(data), _, _) => action == WsAction::Write(data),
        WsEvent::Message(WsMessage::Close, _, _) => action matches WsAction::Stop(Some(m)) && m@
            == "Failed to handle WebSocket message: "@ + "WebSocket connection closed"@,
        WsEvent::Message(WsMessage::Other, _, _) => action == WsAction::Receive,
        WsEvent::ReceiveFailed(e) => action matches WsAction::Stop(Some(m)) && m@
            == "Error receiving message from WebSocket: "@ + e@,
        WsEvent::Ended => action == WsAction::Stop(None),
        WsEvent::Written(Ok(())) => action == WsAction::Receive,
        WsEvent::Written(Err(e)) => action matches WsAction::Stop(Some(m)) && m@
            == "Failed to handle WebSocket message: "@ + ("Failed to write to PTY: "@ + e@),
        WsEvent::Resized(_) => action == WsAction::Receive,
    }
}

/// Decides what is done next on the way from the WebSocket to the PTY. Input is written, and the
/// terminal resized where a message asks for it; a resize that fails changes nothing. The way ends
/// with the messages, with a close message, and where receiving or writing fails.
pub fn ws_to_pty_step(event: WsEvent) -> (r: WsAction)
    ensures
        ws_follows(event, r),
        event matches WsEvent::Message(WsMessage::Text(_), Some(_), _) ==> r is Receive,
        event matches WsEvent::Message(WsMessage::Text(_), None, Some(resize)) ==> (
        r matches WsAction::Resize(size) && size.rows == resize.rows && size.cols == resize.cols
            && size.pixel_width == 0 && size.pixel_height == 0),
        event matches WsEvent::Message(WsMessage::Text(text), None, None) ==> (
        r matches WsAction::Write(bytes) && bytes@ == vstd::utf8::encode_utf8(text@)),
        event matches WsEvent::Message(WsMessage::Binary(data), _, _) ==> (
        r matches WsAction::Write(bytes) && bytes@ == data@),
        event matches WsEvent::Message(WsMessage::Close, _, _) ==> (
        r matches WsAction::Stop(Some(m)) && m@ == "Failed to handle WebSocket message: "@
            + "WebSocket connection closed"@),
        event matches WsEvent::Message(WsMessage::Other, _, _) ==> r is Receive,
        event matches WsEvent::ReceiveFailed(e) ==> (r matches WsAction::Stop(Some(m)) && m@
            == "Error receiving message from WebSocket: "@ + e@),
        event is Ended ==> r == WsAction::Stop(None),
        event matches WsEvent::Written(Ok(())) ==> r is Receive,
        event matches WsEvent::Written(Err(e)) ==> (r matches WsAction::Stop(Some(m)) && m@
            == "Failed to handle WebSocket message: "@ + ("Failed to write to PTY: "@ + e@)),
        event is Resized ==> r is Receive,
{
    match event {
        WsEvent::Message(msg, heartbeat, resize) => match handle_ws_message(
            msg,
            heartbeat,
            resize,
        ) {
            WsReply::Write(bytes) => WsAction::Write(bytes),
            WsReply::Handled(handled) => follow(handled),
        },
        WsEvent::ReceiveFailed(e) => {
            let mut message: String = "Error receiving message from WebSocket: ".to_owned();
            message.append(&e);
            WsAction::Stop(Some(message))
        },
        WsEvent::Ended => WsAction::Stop(None),
        WsEvent::Written(written) => follow(ws_written(written)),
        WsEvent::Resized(_) => WsAction::Receive,
    }
}

/// What happened when the output of the PTY was read or handed on.
pub enum ReaderEvent {
    /// So many bytes stand in the buffer.
    Read(usize),
    ReadFailed,
    /// Output was handed on.
    Forwarded,
    /// Nobody takes output any more.
    Refused,
}

/// What is done next with the output of the PTY.
pub enum ReaderAction {
    Read,
    Forward(Vec<u8>),
    Stop,
}

/// Whether `action` is what follows `event` when the output of the PTY is read into `buffer`.
pub open spec fn reader_follows(buffer: Seq<u8>, event: ReaderEvent, action: ReaderAction) -> bool {
    match event {
        ReaderEvent::Read(count) => if count > 0 {
            action matches ReaderAction::Forward(data) && data@ == buffer.take(count as int)
        } else {
            action == ReaderAction::Stop
        },
        ReaderEvent::ReadFailed => action == ReaderAction::Stop,
        ReaderEvent::Forwarded => action == ReaderAction::Read,
        ReaderEvent::Refused => action == ReaderAction::Stop,
    }
}

/// Decides what is done next with the output of the PTY: what was read is handed on, until nothing
/// is read, reading fails, or nobody takes it.
pub fn reader_step(buffer: &[u8], event: ReaderEvent) -> (r: ReaderAction)
    requires
        event matches ReaderEvent::Read(count) ==> count <= buffer@.len(),
    ensures
        reader_follows(buffer@, event, r),
        event matches ReaderEvent::Read(count) ==> {
            &&& count == 0 ==> r is Stop
            &&& count > 0 ==> (r matches ReaderAction::Forward(data) && data@.len() == count
                && forall|i: int| 0 <= i < count ==> #[trigger] data@[i] == buffer@[i])
        },
        event is ReadFailed || event is Refused ==> r is Stop,
        event is Forwarded ==> r is Read,
{
    match event {
        ReaderEvent::Read(count) => {
            if count > 0 {
                ReaderAction::Forward(slice_to_vec(slice_subrange(buffer, 0, count)))
            } else {
                ReaderAction::Stop
            }
        },
        ReaderEvent::ReadFailed => ReaderAction::Stop,
        ReaderEvent::Forwarded => ReaderAction::Read,
        ReaderEvent::Refused => ReaderAction::Stop,
    }
}

/// What happened on the way from the PTY to the WebSocket.
pub enum SenderEvent {
    /// Output was handed over; none where there will be no more.
    Output(Option<Vec<u8>>),
    Sent,
    SendFailed,
}

/// What is done next on the way from the PTY to the WebSocket.
pub enum SenderAction {
    /// Wait for output.
    Await,
    /// Send a message.
    Send(WsMessage),
    /// Nothing more; this is reported, if anything.
    Stop(Option<String>),
}

/// Whether `action` is what follows `event` on the way from the PTY to the WebSocket.
pub open spec fn sender_follows(event: SenderEvent, action: SenderAction) -> bool {
    match event {
        SenderEvent::Output(Some(data)) => action == SenderAction::Send(WsMessage::Binary(data)),
        SenderEvent::Output(None) => action == SenderAction::Stop(None),
        SenderEvent::Sent => action == SenderAction::Await,
        SenderEvent::SendFailed => action matches SenderAction::Stop(Some(m)) && m@
            == "Failed to send data to WebSocket"@,
    }
}

/// Decides what is done next on the way from the PTY to the WebSocket: each piece of output goes
/// out as a binary message, until there is no more or sending fails.
pub fn pty_to_ws_step(event: SenderEvent) -> (r: SenderAction)
    ensures
        sender_follows(event, r),
        event matches SenderEvent::Output(Some(data)) ==> (r matches SenderAction::Send(
            WsMessage::Binary(sent),
        ) && sent@ == data@),
        event matches SenderEvent::Output(None) ==> r == SenderAction::Stop(None),
        event is Sent ==> r is Await,
        event is SendFailed ==> (r matches SenderAction::Stop(Some(m)) && m@
            == "Failed to send data to WebSocket"@),
{
    match event {
        SenderEvent::Output(Some(data)) => SenderAction::Send(WsMessage::Binary(data)),
        SenderEvent::Output(None) => SenderAction::Stop(None),
        SenderEvent::Sent => SenderAction::Await,
        SenderEvent::SendFailed => SenderAction::Stop(
            Some("Failed to send data to WebSocket".to_owned()),
        ),
    }
}

/// The input for the PTY that messages bring, in their order: binary messages, and texts that are
/// neither a sign of life nor a request for another size.
pub open spec fn input_of(events: Seq<WsEvent>) -> Seq<u8>
    decreases events.len(),
{
    if events.len() == 0 {
        seq![]
    } else {
        input_of(events.drop_last()) + match events.last() {
            WsEvent::Message(WsMessage::Text(text), None, None) => {
                vstd::utf8::encode_utf8(text@)
            },
            WsEvent::Message(WsMessage::Binary(data), _, _) => data@,
            _ => seq![],
        }
    }
}

/// What is written to the PTY.
pub open spec fn written_by(actions: Seq<WsAction>) -> Seq<u8>
    decreases actions.len(),
{
    if actions.len() == 0 {
        seq![]
    } else {
        written_by(actions.drop_last()) + match actions.last() {
            WsAction::Write(data) => data@,
            _ => seq![],
        }
    }
}

/// The sizes that messages ask for, in their order, as columns and rows.
pub open spec fn sizes_asked(events: Seq<WsEvent>) -> Seq<(u16, u16)>
    decreases events.len(),
{
    if events.len() == 0 {
        seq![]
    } else {
        match events.last() {
            WsEvent::Message(WsMessage::Text(_), None, Some(resize)) => {
                sizes_asked(events.drop_last()).push((resize.cols, resize.rows))
            },
            _ => sizes_asked(events.drop_last()),
        }
    }
}

/// The sizes that the terminal is given, as columns and rows.
pub open spec fn sizes_given(actions: Seq<WsAction>) -> Seq<(u16, u16)>
    decreases actions.len(),
{
    if actions.len() == 0 {
        seq![]
    } else {
        match actions.last() {
            WsAction::Resize(size) => sizes_given(actions.drop_last()).push((size.cols, size.rows)),
            _ => sizes_given(actions.drop_last()),
        }
    }
}

/// Over any run from the WebSocket to the PTY, just the input that the messages bring is written to
/// the PTY, in its order, and the terminal is given just the sizes that they ask for.
pub proof fn law_input_reaches_the_pty(events: Seq<WsEvent>, actions: Seq<WsAction>)
    requires
        events.len() == actions.len(),
        forall|i: int| 0 <= i < events.len() ==> ws_follows(#[trigger] events[i], actions[i]),
    ensures
        written_by(actions) == input_of(events),
        sizes_given(actions) == sizes_asked(events),
    decreases events.len(),
{
    if events.len() > 0 {
        let before = events.drop_last();
        assert forall|i: int| 0 <= i < before.len() implies ws_follows(
            #[trigger] before[i],
            actions.drop_last()[i],
        ) by {
            assert(before[i] == events[i]);
        }
        law_input_reaches_the_pty(before, actions.drop_last());
        assert(ws_follows(events[events.len() - 1], actions.last()));
    }
}

/// Whether an event can follow an action on the way from the WebSocket to the PTY.
pub open spec fn ws_answers(action: WsAction, event: WsEvent) -> bool {
    match action {
        WsAction::Receive => event is Message || event is ReceiveFailed || event is Ended,
        WsAction::Write(_) => event is Written,
        WsAction::Resize(_) => event is Resized,
        WsAction::Stop(_) => false,
    }
}

/// Whether these are the events and actions of a run from the WebSocket to the PTY: it begins with
/// receiving, each action follows its event, and each event answers the action before it. So
/// nothing comes after the action to stop.
pub open spec fn ws_run(events: Seq<WsEvent>, actions: Seq<WsAction>) -> bool {
    &&& events.len() == actions.len()
    &&& forall|i: int| 0 <= i < events.len() ==> ws_follows(#[trigger] events[i], actions[i])
    &&& events.len() > 0 ==> ws_answers(WsAction::Receive, events[0])
    &&& forall|i: int|
        0 < i < events.len() ==> ws_answers(actions[i - 1], #[trigger] events[i])
}

/// Whether an event ends the way from the WebSocket to the PTY: a close message, a failure to
/// receive or to write, or the end of the messages.
pub open spec fn ends_way(event: WsEvent) -> bool {
    match event {
        WsEvent::Message(WsMessage::Close, _, _) => true,
        WsEvent::ReceiveFailed(_) => true,
        WsEvent::Ended => true,
        WsEvent::Written(Err(_)) => true,
        _ => false,
    }
}

/// A run from the WebSocket to the PTY stops just at the first event that ends the way, which is its
/// last; what was written to the PTY and the sizes that the terminal was given come from the events
/// before it. While no event ends the way, the run does not stop.
pub proof fn law_way_ends(events: Seq<WsEvent>, actions: Seq<WsAction>)
    requires
        ws_run(events, actions),
    ensures
        forall|i: int| 0 <= i < events.len() - 1 ==> !ends_way(#[trigger] events[i]),
        forall|i: int|
            0 <= i < events.len() ==> (ends_way(events[i]) <==> (#[trigger] actions[i]) is Stop),
        events.len() > 0 && ends_way(events.last()) ==> {
            &&& written_by(actions) == input_of(events.drop_last())
            &&& sizes_given(actions) == sizes_asked(events.drop_last())
        },
{
    assert forall|i: int| 0 <= i < events.len() implies (ends_way(events[i]) <==> (
    #[trigger] actions[i]) is Stop) by {
        assert(ws_follows(events[i], actions[i]));
    }
    assert forall|i: int| 0 <= i < events.len() - 1 implies !ends_way(#[trigger] events[i]) by {
        assert(ws_answers(actions[i + 1 - 1], events[i + 1]));
        assert(!(actions[i] is Stop));
    }
    law_input_reaches_the_pty(events, actions);
}

/// The output that is read from the PTY, piece by piece. `buffers` are the contents of the buffer
/// at each event.
pub open spec fn output_of(buffers: Seq<Seq<u8>>, events: Seq<ReaderEvent>) -> Seq<Seq<u8>>
    decreases events.len(),
{
    if events.len() == 0 {
        seq![]
    } else {
        match events.last() {
            ReaderEvent::Read(count) => if count > 0 {
                output_of(buffers.drop_last(), events.drop_last()).push(
                    buffers.last().take(count as int),
                )
            } else {
                output_of(buffers.drop_last(), events.drop_last())
            },
            _ => output_of(buffers.drop_last(), events.drop_last()),
        }
    }
}

/// The pieces of output that are handed on.
pub open spec fn forwarded_by(actions: Seq<ReaderAction>) -> Seq<Seq<u8>>
    decreases actions.len(),
{
    if actions.len() == 0 {
        seq![]
    } else {
        match actions.last() {
            ReaderAction::Forward(data) => forwarded_by(actions.drop_last()).push(data@),
            _ => forwarded_by(actions.drop_last()),
        }
    }
}

/// The pieces of output that are handed over to be sent.
pub open spec fn handed_over(events: Seq<SenderEvent>) -> Seq<Seq<u8>>
    decreases events.len(),
{
    if events.len() == 0 {
        seq![]
    } else {
        match events.last() {
            SenderEvent::Output(Some(data)) => handed_over(events.drop_last()).push(data@),
            _ => handed_over(events.drop_last()),
        }
    }
}

/// The binary messages that are sent; none of the messages is another.
pub open spec fn sent_by(actions: Seq<SenderAction>) -> Option<Seq<Seq<u8>>>
    decreases actions.len(),
{
    if actions.len() == 0 {
        Some(seq![])
    } else {
        match (sent_by(actions.drop_last()), actions.last()) {
            (Some(sent), SenderAction::Send(WsMessage::Binary(data))) => Some(sent.push(data@)),
            (_, SenderAction::Send(_)) => None,
            (sent, _) => sent,
        }
    }
}

/// Over any run from the PTY to the WebSocket, just the output that is read is handed on, piece by
/// piece in its order, and of the pieces that are handed over each is sent as one binary message.
pub proof fn law_output_reaches_the_socket(
    buffers: Seq<Seq<u8>>,
    reads: Seq<ReaderEvent>,
    read_actions: Seq<ReaderAction>,
    sends: Seq<SenderEvent>,
    send_actions: Seq<SenderAction>,
)
    requires
        buffers.len() == reads.len() == read_actions.len(),
        forall|i: int|
            0 <= i < reads.len() ==> reader_follows(
                buffers[i],
                #[trigger] reads[i],
                read_actions[i],
            ),
        sends.len() == send_actions.len(),
        forall|i: int| 0 <= i < sends.len() ==> sender_follows(#[trigger] sends[i], send_actions[i]),
    ensures
        forwarded_by(read_actions) == output_of(buffers, reads),
        sent_by(send_actions) == Some(handed_over(sends)),
    decreases reads.len() + sends.len(),
{
    if reads.len() > 0 {
        let before = reads.drop_last();
        assert forall|i: int| 0 <= i < before.len() implies reader_follows(
            buffers.drop_last()[i],
            #[trigger] before[i],
            read_actions.drop_last()[i],
        ) by {
            assert(before[i] == reads[i]);
        }
        law_output_reaches_the_socket(
            buffers.drop_last(),
            before,
            read_actions.drop_last(),
            sends,
            send_actions,
        );
        assert(reader_follows(buffers.last(), reads[reads.len() - 1], read_actions.last()));
    } else if sends.len() > 0 {
        let before = sends.drop_last();
        assert forall|i: int| 0 <= i < before.len() implies sender_follows(
            #[trigger] before[i],
            send_actions.drop_last()[i],
        ) by {
            assert(before[i] == sends[i]);
        }
        law_output_reaches_the_socket(
            buffers,
            reads,
            read_actions,
            before,
            send_actions.drop_last(),
        );
        assert(sender_follows(sends[sends.len() - 1], send_actions.last()));
    }
}

/// Pieces put together.
pub open spec fn together(pieces: Seq<Seq<u8>>) -> Seq<u8>
    decreases pieces.len(),
{
    if pieces.len() == 0 {
        seq![]
    } else {
        together(pieces.drop_last()) + pieces.last()
    }
}

proof fn lemma_together_prefix(first: Seq<Seq<u8>>, pieces: Seq<Seq<u8>>)
    requires
        first.is_prefix_of(pieces),
    ensures
        together(first).is_prefix_of(together(pieces)),
    decreases pieces.len(),
{
    if first.len() == pieces.len() {
        assert(first =~= pieces);
    } else {
        assert(first.is_prefix_of(pieces.drop_last()));
        lemma_together_prefix(first, pieces.drop_last());
    }
}

/// Whether what was read at each event fits into the buffer, which has `PTY_BUFFER_SIZE` bytes.
pub open spec fn reads_fit(buffers: Seq<Seq<u8>>, events: Seq<ReaderEvent>) -> bool {
    &&& buffers.len() == events.len()
    &&& forall|i: int|
        0 <= i < events.len() ==> (#[trigger] buffers[i]).len() == PTY_BUFFER_SIZE && match events[i] {
            ReaderEvent::Read(count) => count <= PTY_BUFFER_SIZE,
            _ => true,
        }
}

proof fn lemma_pieces_fit(buffers: Seq<Seq<u8>>, events: Seq<ReaderEvent>)
    requires
        reads_fit(buffers, events),
    ensures
        forall|i: int|
            0 <= i < output_of(buffers, events).len() ==> 1 <= (#[trigger] output_of(
                buffers,
                events,
            )[i]).len() <= PTY_BUFFER_SIZE,
    decreases events.len(),
{
    if events.len() > 0 {
        let before = buffers.drop_last();
        assert forall|i: int| 0 <= i < before.len() implies (#[trigger] before[i]).len()
            == PTY_BUFFER_SIZE && match events.drop_last()[i] {
            ReaderEvent::Read(count) => count <= PTY_BUFFER_SIZE,
            _ => true,
        } by {
            assert(before[i] == buffers[i]);
        }
        lemma_pieces_fit(before, events.drop_last());
        let earlier = output_of(before, events.drop_last());
        let output = output_of(buffers, events);
        assert(buffers[buffers.len() - 1].len() == PTY_BUFFER_SIZE);
        assert forall|i: int| 0 <= i < output.len() implies 1 <= (#[trigger] output[i]).len()
            <= PTY_BUFFER_SIZE by {
            if i < earlier.len() {
                assert(output[i] == earlier[i]);
            }
        }
    }
}

/// Whatever has been handed over so far of the output that was handed on, what is sent on the
/// WebSocket are binary messages of 1 to `PTY_BUFFER_SIZE` bytes; and put together they are a
/// beginning of the output of the PTY: nothing of it is lost in between, changed or repeated.
pub proof fn law_sent_is_a_prefix_of_the_output(
    buffers: Seq<Seq<u8>>,
    reads: Seq<ReaderEvent>,
    read_actions: Seq<ReaderAction>,
    sends: Seq<SenderEvent>,
    send_actions: Seq<SenderAction>,
)
    requires
        reads_fit(buffers, reads),
        reads.len() == read_actions.len(),
        forall|i: int|
            0 <= i < reads.len() ==> reader_follows(
                buffers[i],
                #[trigger] reads[i],
                read_actions[i],
            ),
        sends.len() == send_actions.len(),
        forall|i: int| 0 <= i < sends.len() ==> sender_follows(#[trigger] sends[i], send_actions[i]),
        handed_over(sends).is_prefix_of(forwarded_by(read_actions)),
    ensures
        sent_by(send_actions) matches Some(sent) && {
            &&& sent.is_prefix_of(output_of(buffers, reads))
            &&& together(sent).is_prefix_of(together(output_of(buffers, reads)))
            &&& forall|i: int| 0 <= i < sent.len() ==> 1 <= (#[trigger] sent[i]).len()
                <= PTY_BUFFER_SIZE
        },
{
    law_output_reaches_the_socket(buffers, reads, read_actions, sends, send_actions);
    lemma_pieces_fit(buffers, reads);
    let sent = handed_over(sends);
    let output = output_of(buffers, reads);
    lemma_together_prefix(sent, output);
    assert forall|i: int| 0 <= i < sent.len() implies 1 <= (#[trigger] sent[i]).len()
        <= PTY_BUFFER_SIZE by {
        assert(sent[i] == output[i]);
    }
}

/// Whether these are the events and actions of a run that reads the output of the PTY: it begins
/// with reading, each action follows its event, and each event answers the action before it.
pub open spec fn reader_run(
    buffers: Seq<Seq<u8>>,
    events: Seq<ReaderEvent>,
    actions: Seq<ReaderAction>,
) -> bool {
    &&& reads_fit(buffers, events)
    &&& events.len() == actions.len()
    &&& forall|i: int|
        0 <= i < events.len() ==> reader_follows(buffers[i], #[trigger] events[i], actions[i])
    &&& events.len() > 0 ==> reader_answers(ReaderAction::Read, events[0])
    &&& forall|i: int|
        0 < i < events.len() ==> reader_answers(actions[i - 1], #[trigger] events[i])
}

/// Whether an event can follow an action when the output of the PTY is read.
pub open spec fn reader_answers(action: ReaderAction, event: ReaderEvent) -> bool {
    match action {
        ReaderAction::Read => event is Read || event is ReadFailed,
        ReaderAction::Forward(_) => event is Forwarded || event is Refused,
        ReaderAction::Stop => false,
    }
}

/// Whether an event ends the reading of output: nothing was read, reading failed, or nobody takes
/// output any more.
pub open spec fn ends_reading(event: ReaderEvent) -> bool {
    match event {
        ReaderEvent::Read(count) => count == 0,
        ReaderEvent::ReadFailed => true,
        ReaderEvent::Forwarded => false,
        ReaderEvent::Refused => true,
    }
}

/// Whether these are the events and actions of a run from the PTY to the WebSocket: it begins with
/// waiting, each action follows its event, and each event answers the action before it.
pub open spec fn sender_run(events: Seq<SenderEvent>, actions: Seq<SenderAction>) -> bool {
    &&& events.len() == actions.len()
    &&& forall|i: int| 0 <= i < events.len() ==> sender_follows(#[trigger] events[i], actions[i])
    &&& events.len() > 0 ==> sender_answers(SenderAction::Await, events[0])
    &&& forall|i: int|
        0 < i < events.len() ==> sender_answers(actions[i - 1], #[trigger] events[i])
}

/// Whether an event can follow an action on the way from the PTY to the WebSocket.
pub open spec fn sender_answers(action: SenderAction, event: SenderEvent) -> bool {
    match action {
        SenderAction::Await => event is Output,
        SenderAction::Send(_) => event is Sent || event is SendFailed,
        SenderAction::Stop(_) => false,
    }
}

/// Whether an event ends the way from the PTY to the WebSocket: there is no more output, or sending
/// failed.
pub open spec fn ends_sending(event: SenderEvent) -> bool {
    match event {
        SenderEvent::Output(output) => output is None,
        SenderEvent::Sent => false,
        SenderEvent::SendFailed => true,
    }
}

/// Reading output stops just at the first event that ends it, and so does sending; that event is the
/// last of its run.
pub proof fn law_output_ends(
    buffers: Seq<Seq<u8>>,
    reads: Seq<ReaderEvent>,
    read_actions: Seq<ReaderAction>,
    sends: Seq<SenderEvent>,
    send_actions: Seq<SenderAction>,
)
    requires
        reader_run(buffers, reads, read_actions),
        sender_run(sends, send_actions),
    ensures
        forall|i: int| 0 <= i < reads.len() - 1 ==> !ends_reading(#[trigger] reads[i]),
        forall|i: int|
            0 <= i < reads.len() ==> (ends_reading(reads[i]) <==> (
            #[trigger] read_actions[i]) is Stop),
        forall|i: int| 0 <= i < sends.len() - 1 ==> !ends_sending(#[trigger] sends[i]),
        forall|i: int|
            0 <= i < sends.len() ==> (ends_sending(sends[i]) <==> (
            #[trigger] send_actions[i]) is Stop),
{
    assert forall|i: int| 0 <= i < reads.len() implies (ends_reading(reads[i]) <==> (
    #[trigger] read_actions[i]) is Stop) by {
        assert(reader_follows(buffers[i], reads[i], read_actions[i]));
    }
    assert forall|i: int| 0 <= i < reads.len() - 1 implies !ends_reading(#[trigger] reads[i]) by {
        assert(reader_answers(read_actions[i + 1 - 1], reads[i + 1]));
        assert(!(read_actions[i] is Stop));
    }
    assert forall|i: int| 0 <= i < sends.len() implies (ends_sending(sends[i]) <==> (
    #[trigger] send_actions[i]) is Stop) by {
        assert(sender_follows(sends[i], send_actions[i]));
    }
    assert forall|i: int| 0 <= i < sends.len() - 1 implies !ends_sending(#[trigger] sends[i]) by {
        assert(sender_answers(send_actions[i + 1 - 1], sends[i + 1]));
        assert(!(send_actions[i] is Stop));
    }
}

/// What messages bring and what is done with them add up event by event and action by action: bytes
/// behind the bytes before them, and a size behind the sizes before it.
pub proof fn law_input_adds_up(
    events: Seq<WsEvent>,
    event: WsEvent,
    actions: Seq<WsAction>,
    action: WsAction,
)
    ensures
        input_of(seq![]) == Seq::<u8>::empty(),
        sizes_asked(seq![]) == Seq::<(u16, u16)>::empty(),
        event matches WsEvent::Message(WsMessage::Text(text), None, None) ==> input_of(
            events.push(event),
        ) == input_of(events) + vstd::utf8::encode_utf8(text@),
        event matches WsEvent::Message(WsMessage::Binary(data), _, _) ==> input_of(
            events.push(event),
        ) == input_of(events) + data@,
        !(event matches WsEvent::Message(WsMessage::Text(_), None, None)) && !(event matches
            WsEvent::Message(WsMessage::Binary(_), _, _)) ==> input_of(events.push(event))
            == input_of(events),
        event matches WsEvent::Message(WsMessage::Text(_), None, Some(resize)) ==> sizes_asked(
            events.push(event),
        ) == sizes_asked(events).push((resize.cols, resize.rows)),
        !(event matches WsEvent::Message(WsMessage::Text(_), None, Some(_))) ==> sizes_asked(
            events.push(event),
        ) == sizes_asked(events),
        written_by(seq![]) == Seq::<u8>::empty(),
        sizes_given(seq![]) == Seq::<(u16, u16)>::empty(),
        written_by(actions.push(action)) == written_by(actions) + match action {
            WsAction::Write(bytes) => bytes@,
            _ => seq![],
        },
        action matches WsAction::Resize(size) ==> sizes_given(actions.push(action)) == sizes_given(
            actions,
        ).push((size.cols, size.rows)),
        !(action is Resize) ==> sizes_given(actions.push(action)) == sizes_given(actions),
{
    assert(events.push(event).drop_last() =~= events);
    assert(actions.push(action).drop_last() =~= actions);
    assert(input_of(events) + seq![] =~= input_of(events));
}

/// What is read, handed on, handed over and sent adds up piece by piece.
pub proof fn law_output_adds_up(
    buffers: Seq<Seq<u8>>,
    buffer: Seq<u8>,
    reads: Seq<ReaderEvent>,
    read: ReaderEvent,
    read_actions: Seq<ReaderAction>,
    read_action: ReaderAction,
    sends: Seq<SenderEvent>,
    send: SenderEvent,
    send_actions: Seq<SenderAction>,
    send_action: SenderAction,
)
    ensures
        output_of(seq![], seq![]) == Seq::<Seq<u8>>::empty(),
        output_of(buffers.push(buffer), reads.push(read)) == match read {
            ReaderEvent::Read(count) if count > 0 => output_of(buffers, reads).push(
                buffer.take(count as int),
            ),
            _ => output_of(buffers, reads),
        },
        forwarded_by(seq![]) == Seq::<Seq<u8>>::empty(),
        forwarded_by(read_actions.push(read_action)) == match read_action {
            ReaderAction::Forward(data) => forwarded_by(read_actions).push(data@),
            _ => forwarded_by(read_actions),
        },
        handed_over(seq![]) == Seq::<Seq<u8>>::empty(),
        handed_over(sends.push(send)) == match send {
            SenderEvent::Output(Some(data)) => handed_over(sends).push(data@),
            _ => handed_over(sends),
        },
        sent_by(seq![]) == Some(Seq::<Seq<u8>>::empty()),
        sent_by(send_actions) matches Some(sent) ==> match send_action {
            SenderAction::Send(WsMessage::Binary(data)) => sent_by(send_actions.push(send_action))
                == Some(sent.push(data@)),
            SenderAction::Send(_) => sent_by(send_actions.push(send_action)) is None,
            _ => sent_by(send_actions.push(send_action)) == Some(sent),
        },
{
    assert(buffers.push(buffer).drop_last() =~= buffers);
    assert(reads.push(read).drop_last() =~= reads);
    assert(read_actions.push(read_action).drop_last() =~= read_actions);
    assert(sends.push(send).drop_last() =~= sends);
    assert(send_actions.push(send_action).drop_last() =~= send_actions);
}

/// The output of the PTY is read in pieces of at most 8 KiB.
pub proof fn law_buffer_size()
    ensures
        PTY_BUFFER_SIZE == 8 * 1024,
{
}

} // verus!
