//! The correlation engine: sequence numbers, the requests that wait for an
//! answer, the answers that wait for their caller, and the queue of events.
//!
//! The engine owns no socket. A caller hands it the body of a request and
//! gets the frame to transmit; it hands it each frame that it read and gets
//! back what the frame was. Whoever holds the transport performs the reads
//! and writes in between.

use std::collections::HashMap;
use std::collections::VecDeque;
use vstd::prelude::*;
use vstd::std_specs::hash::*;
use crate::codec::{decode, decoding, read_u16, stamp, stamped, Slot, Value};

verus! {

/// The leading byte of an error frame.
pub const ERROR_FRAME: u8 = 0;

/// The leading byte of a reply frame.
pub const REPLY_FRAME: u8 = 1;

/// The kind of reply that a request expects; it is recorded when the request
/// is issued and decides how the reply's payload is read.
#[derive(Clone, Copy, Debug, PartialEq, Eq, Structural)]
pub struct ReplyKind(pub u32);

/// The payload of a successful reply, tagged with the sequence number it
/// arrived under and the kind that its request expected.
#[derive(Clone, Debug, PartialEq, Eq)]
pub struct Answer {
    pub sequence: u16,
    pub kind: ReplyKind,
    pub payload: Vec<u8>,
}

impl Answer {
    /// Reads the payload as the layout of the expected reply kind says: the
    /// values of the reply's fields, or `None` where the payload has not
    /// exactly the layout's length.
    pub fn values(&self, layout: &[Slot]) -> (values: Option<Vec<Value>>)
        ensures
            values is Some <==> decoding(layout@, self.payload@) is Some,
            values is Some ==> values->0@ == decoding(layout@, self.payload@)->0,
    {
        decode(layout, self.payload.as_slice())
    }
}

/// A protocol error that arrived in answer to a request.
#[derive(Clone, Debug, PartialEq, Eq)]
pub struct XError {
    pub sequence: u16,
    pub payload: Vec<u8>,
}

/// What answers a request: a successful reply or a protocol error.
#[derive(Clone, Debug, PartialEq, Eq)]
pub enum Reply {
    Success(Answer),
    Error(XError),
}

/// A reply as a mathematical value.
pub enum ReplyView {
    Success { sequence: u16, kind: ReplyKind, payload: Seq<u8> },
    Error { sequence: u16, payload: Seq<u8> },
}

impl ReplyView {
    /// The sequence number that the reply arrived under.
    pub open spec fn sequence(self) -> u16 {
        match self {
            ReplyView::Success { sequence, .. } => sequence,
            ReplyView::Error { sequence, .. } => sequence,
        }
    }
}

impl View for Reply {
    type V = ReplyView;

    open spec fn view(&self) -> ReplyView {
        match self {
            Reply::Success(a) => ReplyView::Success {
                sequence: a.sequence,
                kind: a.kind,
                payload: a.payload@,
            },
            Reply::Error(e) => ReplyView::Error { sequence: e.sequence, payload: e.payload@ },
        }
    }
}

/// An event: its code, the frame's leading byte, and the bytes after it.
#[derive(Clone, Debug, PartialEq, Eq)]
pub struct Event {
    pub code: u8,
    pub payload: Vec<u8>,
}

/// An event as a mathematical value.
pub struct EventView {
    pub code: u8,
    pub payload: Seq<u8>,
}

impl View for Event {
    type V = EventView;

    open spec fn view(&self) -> EventView {
        EventView { code: self.code, payload: self.payload@ }
    }
}

/// What a frame handed to the engine turned out to be.
#[derive(Clone, Copy, Debug, PartialEq, Eq, Structural)]
pub enum Dispatch {
    /// A reply or an error that answers the waiting request of this sequence
    /// number; it now waits for its caller.
    Answered { sequence: u16 },
    /// An event; it was appended to the event queue.
    Queued,
    /// A reply or an error whose sequence number no request waits under. The
    /// frame was dropped: the stream can no longer be trusted.
    Desynchronized { sequence: u16 },
    /// An empty frame, or a reply or error too short to hold a sequence
    /// number. The frame was dropped.
    Malformed,
}

/// Why a request could not be issued.
#[derive(Clone, Copy, Debug, PartialEq, Eq, Structural)]
pub enum EngineError {
    /// The next sequence number still belongs to a request that was not
    /// released: allotting it again would let two live handles share it.
    WindowExhausted,
}

/// The state of an engine as a mathematical value.
#[verifier::ext_equal]
pub struct EngineView {
    /// The sequence number that the next request gets.
    pub next: u16,
    /// The requests that wait for an answer, each with the kind of reply it
    /// expects.
    pub waiting: Map<u16, ReplyKind>,
    /// The answers that wait for their caller.
    pub answers: Map<u16, ReplyView>,
    /// The events that wait to be drained, oldest first.
    pub events: Seq<EventView>,
}

impl EngineView {
    /// Whether a request of this sequence number waits for its answer, or its
    /// answer for its caller.
    pub open spec fn outstanding(self, sequence: u16) -> bool {
        self.waiting.contains_key(sequence) || self.answers.contains_key(sequence)
    }

    /// What holds of every engine that was made empty and then only issued
    /// to, dispatched to, retrieved from and released from: no sequence
    /// number both waits and is answered, and every answer is filed under
    /// the sequence number that it arrived with.
    pub open spec fn wf(self) -> bool {
        &&& forall|s: u16| !(self.waiting.contains_key(s) && self.answers.contains_key(s))
        &&& forall|s: u16| self.answers.contains_key(s) ==> (#[trigger] self.answers[s]).sequence() == s
    }
}

/// The sequence number after `s`: the next one, modulo two to the sixteenth.
pub open spec fn successor(s: u16) -> u16 {
    if s == 65535 {
        0
    } else {
        (s + 1) as u16
    }
}

/// The state after a request that expects `kind` was issued in `e`.
pub open spec fn issue_view(e: EngineView, kind: ReplyKind) -> EngineView {
    EngineView { next: successor(e.next), waiting: e.waiting.insert(e.next, kind), ..e }
}

/// Whether `frame` is a reply or an error long enough to hold its sequence
/// number.
pub open spec fn is_answer_frame(frame: Seq<u8>) -> bool {
    frame.len() >= 3 && (frame[0] == ERROR_FRAME || frame[0] == REPLY_FRAME)
}

/// Whether `frame` is an event.
pub open spec fn is_event_frame(frame: Seq<u8>) -> bool {
    frame.len() >= 1 && frame[0] != ERROR_FRAME && frame[0] != REPLY_FRAME
}

/// The sequence number of a reply or error frame: its second and third byte,
/// most significant first.
pub open spec fn frame_sequence(frame: Seq<u8>) -> u16 {
    (frame[1] * 256 + frame[2]) as u16
}

/// The answer that a reply or error frame holds for a request that expected
/// `kind`: the expected kind decides, not the payload.
pub open spec fn frame_reply(frame: Seq<u8>, kind: ReplyKind) -> ReplyView {
    if frame[0] == ERROR_FRAME {
        ReplyView::Error { sequence: frame_sequence(frame), payload: frame.skip(3) }
    } else {
        ReplyView::Success { sequence: frame_sequence(frame), kind, payload: frame.skip(3) }
    }
}

/// What `frame` turns out to be in the state `e`.
pub open spec fn dispatch_outcome(e: EngineView, frame: Seq<u8>) -> Dispatch {
    if is_event_frame(frame) {
        Dispatch::Queued
    } else if !is_answer_frame(frame) {
        Dispatch::Malformed
    } else if e.waiting.contains_key(frame_sequence(frame)) {
        Dispatch::Answered { sequence: frame_sequence(frame) }
    } else {
        Dispatch::Desynchronized { sequence: frame_sequence(frame) }
    }
}

/// The state after `frame` was handed to an engine in the state `e`.
pub open spec fn dispatch_view(e: EngineView, frame: Seq<u8>) -> EngineView {
    match dispatch_outcome(e, frame) {
        Dispatch::Queued => EngineView {
            events: e.events.push(EventView { code: frame[0], payload: frame.skip(1) }),
            ..e
        },
        Dispatch::Answered { sequence } => EngineView {
            waiting: e.waiting.remove(sequence),
            answers: e.answers.insert(sequence, frame_reply(frame, e.waiting[sequence])),
            ..e
        },
        _ => e,
    }
}

/// The state after the handle of `sequence` was released in `e`.
pub open spec fn release_view(e: EngineView, sequence: u16) -> EngineView {
    EngineView { waiting: e.waiting.remove(sequence), answers: e.answers.remove(sequence), ..e }
}

/// The state after the answer filed under `sequence` was retrieved in `e`.
pub open spec fn retrieve_view(e: EngineView, sequence: u16) -> EngineView {
    EngineView { answers: e.answers.remove(sequence), ..e }
}

/// The caller's token for one issued request. It holds the request's
/// sequence number and the kind of reply it expects, and no transport state.
#[derive(Debug)]
pub struct ReplyHandle {
    sequence: u16,
    kind: ReplyKind,
}

impl ReplyHandle {
    /// The sequence number of the request.
    pub closed spec fn seq(&self) -> u16 {
        self.sequence
    }

    /// The kind of reply that the request expects.
    pub closed spec fn expected(&self) -> ReplyKind {
        self.kind
    }

    /// The sequence number of the request.
    pub fn sequence(&self) -> (s: u16)
        ensures
            s == self.seq(),
    {
        self.sequence
    }

    /// The kind of reply that the request expects.
    pub fn kind(&self) -> (k: ReplyKind)
        ensures
            k == self.expected(),
    {
        self.kind
    }
}

/// The bytes of `bytes` from `from` on.
pub fn tail(bytes: &[u8], from: usize) -> (rest: Vec<u8>)
    requires
        from <= bytes@.len(),
    ensures
        rest@ == bytes@.skip(from as int),
{
    let mut rest: Vec<u8> = Vec::new();
    let mut i: usize = from;
    while i < bytes.len()
        invariant
            from <= i <= bytes@.len(),
            rest@ == bytes@.subrange(from as int, i as int),
        decreases bytes@.len() - i,
    {
        rest.push(bytes[i]);
        i += 1;
        assert(rest@ =~= bytes@.subrange(from as int, i as int));
    }
    assert(rest@ =~= bytes@.skip(from as int));
    rest
}

/// The correlation engine of one connection.
pub struct Engine {
    sequence: u16,
    waiting: HashMap<u16, ReplyKind>,
    answers: HashMap<u16, Reply>,
    events: VecDeque<Event>,
}

impl View for Engine {
    type V = EngineView;

    closed spec fn view(&self) -> EngineView {
        EngineView {
            next: self.sequence,
            waiting: self.waiting@,
            answers: self.answers@.map_values(|r: Reply| r@),
            events: self.events@.map_values(|e: Event| e@),
        }
    }
}

impl Engine {
    /// An engine with nothing outstanding, whose first request gets the
    /// sequence number `first`.
    pub fn new(first: u16) -> (engine: Engine)
        ensures
            engine@ == (EngineView {
                next: first,
                waiting: Map::empty(),
                answers: Map::empty(),
                events: Seq::empty(),
            }),
            engine@.wf(),
    {
        let engine = Engine {
            sequence: first,
            waiting: HashMap::new(),
            answers: HashMap::new(),
            events: VecDeque::new(),
        };
        assert(engine@ =~= (EngineView {
            next: first,
            waiting: Map::empty(),
            answers: Map::empty(),
            events: Seq::empty(),
        }));
        engine
    }

    /// The sequence number that the next request gets.
    pub fn next_sequence(&self) -> (s: u16)
        ensures
            s == self@.next,
    {
        self.sequence
    }

    /// Issues a request: gives it the next sequence number, completes its
    /// frame with that number, and records that it waits for a reply of the
    /// kind `expected`. The caller transmits the frame, and releases the
    /// handle if the transmission fails. Nothing here waits for the reply.
    ///
    /// A request is refused while the next sequence number is still
    /// outstanding, and the engine then stays as it was. The wire carries
    /// sixteen bits of the number, so after 65536 requests a number comes
    /// round again. Were it allotted while its earlier request still waits,
    /// or while that request's answer still waits for its caller, a frame
    /// tagged with it could belong to either request and an answer could
    /// reach either handle. Refusing keeps every number with one live handle
    /// at most, which is what makes the lookup by number unambiguous; the
    /// number becomes free again as soon as its handle is released.
    pub fn issue(&mut self, body: &[u8], expected: ReplyKind) -> (issued: Result<
        (ReplyHandle, Vec<u8>),
        EngineError,
    >)
        ensures
            issued is Ok <==> !old(self)@.outstanding(old(self)@.next),
            match issued {
                Ok((handle, frame)) => {
                    &&& handle.seq() == old(self)@.next
                    &&& handle.expected() == expected
                    &&& frame@ == stamped(body@, old(self)@.next)
                    &&& final(self)@ == issue_view(old(self)@, expected)
                },
                Err(e) => e == EngineError::WindowExhausted && final(self)@ == old(self)@,
            },
    {
        broadcast use group_hash_axioms;

        let sequence: u16 = self.sequence;
        if self.waiting.contains_key(&sequence) || self.answers.contains_key(&sequence) {
            return Err(EngineError::WindowExhausted);
        }
        let frame = stamp(body, sequence);
        self.waiting.insert(sequence, expected);
        self.sequence = if sequence == 65535 {
            0
        } else {
            sequence + 1
        };
        assert(self@ =~= issue_view(old(self)@, expected));
        Ok((ReplyHandle { sequence, kind: expected }, frame))
    }

    /// Takes one frame that was read from the transport and files it. An
    /// event joins the event queue. A reply or an error whose sequence number
    /// a request waits under ends that wait and is kept for the caller, read
    /// as the kind of reply that the request expected. Any other frame is
    /// dropped, and the outcome says why.
    pub fn dispatch(&mut self, frame: &[u8]) -> (outcome: Dispatch)
        ensures
            outcome == dispatch_outcome(old(self)@, frame@),
            final(self)@ == dispatch_view(old(self)@, frame@),
    {
        broadcast use group_hash_axioms;

        if frame.len() == 0 {
            return Dispatch::Malformed;
        }
        let code: u8 = frame[0];
        if code != ERROR_FRAME && code != REPLY_FRAME {
            let payload = tail(frame, 1);
            self.events.push_back(Event { code, payload });
            assert(self@ =~= dispatch_view(old(self)@, frame@));
            return Dispatch::Queued;
        }
        if frame.len() < 3 {
            return Dispatch::Malformed;
        }
        let sequence: u16 = read_u16(frame, 1);
        match self.waiting.remove(&sequence) {
            None => {
                assert(self@ =~= old(self)@);
                Dispatch::Desynchronized { sequence }
            },
            Some(kind) => {
                let payload = tail(frame, 3);
                let reply = if code == ERROR_FRAME {
                    Reply::Error(XError { sequence, payload })
                } else {
                    Reply::Success(Answer { sequence, kind, payload })
                };
                self.answers.insert(sequence, reply);
                assert(self@ =~= dispatch_view(old(self)@, frame@));
                Dispatch::Answered { sequence }
            },
        }
    }

    /// Whether the answer to the handle's request has arrived. Nothing is
    /// read and nothing changes.
    pub fn is_ready(&self, handle: &ReplyHandle) -> (ready: bool)
        ensures
            ready == self@.answers.contains_key(handle.seq()),
    {
        broadcast use group_hash_axioms;

        self.answers.contains_key(&handle.sequence)
    }

    /// Whether a request of this sequence number waits for its answer, or its
    /// answer for its caller.
    pub fn is_outstanding(&self, sequence: u16) -> (out: bool)
        ensures
            out == self@.outstanding(sequence),
    {
        broadcast use group_hash_axioms;

        self.waiting.contains_key(&sequence) || self.answers.contains_key(&sequence)
    }

    /// Retrieves the answer to the handle's request if it has arrived, and
    /// removes it: a successful reply as `Ok`, a protocol error as `Err`.
    /// While the answer has not arrived the result is `None` and the engine
    /// stays as it was; the caller hands the engine further frames and asks
    /// again.
    pub fn try_get(&mut self, handle: &ReplyHandle) -> (answer: Option<Result<Answer, XError>>)
        ensures
            answer is Some <==> old(self)@.answers.contains_key(handle.seq()),
            answer is None ==> final(self)@ == old(self)@,
            answer is Some ==> final(self)@ == retrieve_view(old(self)@, handle.seq()),
            answer is Some ==> (match old(self)@.answers[handle.seq()] {
                ReplyView::Success { sequence, kind, payload } => answer->0 is Ok && (answer->0->Ok_0).sequence
                    == sequence && (answer->0->Ok_0).kind == kind && (answer->0->Ok_0).payload@
                    == payload,
                ReplyView::Error { sequence, payload } => answer->0 is Err && (answer->0->Err_0).sequence
                    == sequence && (answer->0->Err_0).payload@ == payload,
            }),
    {
        broadcast use group_hash_axioms;

        match self.answers.remove(&handle.sequence) {
            None => {
                assert(self@ =~= old(self)@);
                None
            },
            Some(reply) => {
                assert(self@ =~= retrieve_view(old(self)@, handle.seq()));
                assert(old(self)@.answers[handle.seq()] == reply@);
                match reply {
                    Reply::Success(a) => Some(Ok(a)),
                    Reply::Error(e) => Some(Err(e)),
                }
            },
        }
    }

    /// Releases a handle, retrieved or not: whatever is still outstanding
    /// under its sequence number, a waiting request or an answer, is removed.
    pub fn release(&mut self, handle: ReplyHandle)
        ensures
            final(self)@ == release_view(old(self)@, handle.seq()),
            !final(self)@.outstanding(handle.seq()),
    {
        broadcast use group_hash_axioms;

        self.waiting.remove(&handle.sequence);
        self.answers.remove(&handle.sequence);
        assert(self@ =~= release_view(old(self)@, handle.seq()));
    }

    /// Takes the oldest event off the queue; `None` while the queue is empty,
    /// in which case the engine stays as it was.
    pub fn next_event(&mut self) -> (event: Option<Event>)
        ensures
            old(self)@.events.len() == 0 ==> event is None && final(self)@ == old(self)@,
            old(self)@.events.len() > 0 ==> event is Some && event->0@ == old(self)@.events[0]
                && final(self)@ == (EngineView {
                events: old(self)@.events.drop_first(),
                ..old(self)@
            }),
    {
        let event = self.events.pop_front();
        proof {
            if old(self)@.events.len() > 0 {
                assert(self@ =~= (EngineView {
                    events: old(self)@.events.drop_first(),
                    ..old(self)@
                }));
            } else {
                assert(self@ =~= old(self)@);
            }
        }
        event
    }

    /// The number of events that wait to be drained.
    pub fn pending_events(&self) -> (n: usize)
        ensures
            n == self@.events.len(),
    {
        self.events.len()
    }
}

/// The empty state that an engine starts in.
pub open spec fn initial_view(first: u16) -> EngineView {
    EngineView { next: first, waiting: Map::empty(), answers: Map::empty(), events: Seq::empty() }
}

/// The invariant holds of the state that an engine starts in, and each step
/// of an engine keeps it: issuing while the next sequence number is free,
/// dispatching any frame, retrieving and releasing.
pub proof fn lemma_invariant(e: EngineView, first: u16, kind: ReplyKind, frame: Seq<u8>, s: u16)
    requires
        e.wf(),
    ensures
        initial_view(first).wf(),
        !e.outstanding(e.next) ==> issue_view(e, kind).wf(),
        dispatch_view(e, frame).wf(),
        retrieve_view(e, s).wf(),
        release_view(e, s).wf(),
{
    let d = dispatch_view(e, frame);
    assert(d.wf()) by {
        if dispatch_outcome(e, frame) is Answered {
            let t = frame_sequence(frame);
            assert forall|x: u16| d.answers.contains_key(x) implies (#[trigger] d.answers[x]).sequence()
                == x by {
                if x != t {
                    assert(e.answers.contains_key(x));
                }
            }
        }
    }
}

/// The sequence number of the request issued `k` requests after the one
/// that got `first`.
pub open spec fn nth_sequence(first: u16, k: nat) -> u16 {
    ((first + k) % 65536) as u16
}

/// The state after one request for each of `kinds` was issued in `e`, in
/// order.
pub open spec fn after_issues(e: EngineView, kinds: Seq<ReplyKind>) -> EngineView
    decreases kinds.len(),
{
    if kinds.len() == 0 {
        e
    } else {
        issue_view(after_issues(e, kinds.drop_last()), kinds.last())
    }
}

/// Consecutive requests get consecutive sequence numbers modulo two to the
/// sixteenth: the request issued after `k` others gets the `k`-th number
/// after the first.
pub proof fn lemma_issue_sequence(e: EngineView, kinds: Seq<ReplyKind>)
    ensures
        after_issues(e, kinds).next == nth_sequence(e.next, kinds.len()),
    decreases kinds.len(),
{
    if kinds.len() > 0 {
        lemma_issue_sequence(e, kinds.drop_last());
    }
}

/// Sequence numbers step by one modulo two to the sixteenth and do not
/// repeat until they wrap around: within any 65536 consecutive requests no
/// two get the same number.
pub proof fn lemma_sequence_monotonic(first: u16, i: nat, j: nat)
    requires
        i < j < i + 65536,
    ensures
        nth_sequence(first, i + 1) == successor(nth_sequence(first, i)),
        nth_sequence(first, i) != nth_sequence(first, j),
{
}

/// Correlation: while two requests are outstanding under different sequence
/// numbers, a reply or error frame tagged with one of them is filed under
/// that number and no other. The request of the other number still waits,
/// and its handle sees no answer.
pub proof fn lemma_correlation(e: EngineView, frame: Seq<u8>, s1: u16, s2: u16)
    requires
        e.wf(),
        s1 != s2,
        e.waiting.contains_key(s1),
        e.waiting.contains_key(s2),
        is_answer_frame(frame),
        frame_sequence(frame) == s2,
    ensures
        dispatch_outcome(e, frame) == (Dispatch::Answered { sequence: s2 }),
        dispatch_view(e, frame).answers.contains_key(s2),
        dispatch_view(e, frame).answers[s2].sequence() == s2,
        !dispatch_view(e, frame).answers.contains_key(s1),
        dispatch_view(e, frame).waiting.contains_key(s1),
        dispatch_view(e, frame).waiting[s1] == e.waiting[s1],
{
}

/// A frame changes nothing that is outstanding under a sequence number
/// other than its own, whatever the frame is and in whatever order frames
/// arrive.
pub proof fn lemma_dispatch_elsewhere(e: EngineView, frame: Seq<u8>, s: u16)
    requires
        !is_answer_frame(frame) || frame_sequence(frame) != s,
    ensures
        dispatch_view(e, frame).waiting.contains_key(s) == e.waiting.contains_key(s),
        e.waiting.contains_key(s) ==> dispatch_view(e, frame).waiting[s] == e.waiting[s],
        dispatch_view(e, frame).answers.contains_key(s) == e.answers.contains_key(s),
        e.answers.contains_key(s) ==> dispatch_view(e, frame).answers[s] == e.answers[s],
{
}

/// Every answer that a handle can retrieve arrived under the handle's own
/// sequence number.
pub proof fn lemma_answer_keyed(e: EngineView, s: u16)
    requires
        e.wf(),
        e.answers.contains_key(s),
    ensures
        e.answers[s].sequence() == s,
{
}

/// Cleanup: once a handle is released nothing is outstanding under its
/// sequence number, and a frame that arrives for it afterwards is reported
/// as out of step and changes nothing.
pub proof fn lemma_release_cleans(e: EngineView, s: u16, frame: Seq<u8>)
    requires
        is_answer_frame(frame),
        frame_sequence(frame) == s,
    ensures
        !release_view(e, s).waiting.contains_key(s),
        !release_view(e, s).answers.contains_key(s),
        dispatch_outcome(release_view(e, s), frame) == (Dispatch::Desynchronized { sequence: s }),
        dispatch_view(release_view(e, s), frame) == release_view(e, s),
{
}

/// Error delivery: an error frame tagged with the sequence number of a
/// waiting request is filed under that number as an error, with the bytes
/// that follow the sequence number as its payload, and not as a success.
pub proof fn lemma_error_delivery(e: EngineView, frame: Seq<u8>, s: u16)
    requires
        e.waiting.contains_key(s),
        is_answer_frame(frame),
        frame[0] == ERROR_FRAME,
        frame_sequence(frame) == s,
    ensures
        dispatch_outcome(e, frame) == (Dispatch::Answered { sequence: s }),
        dispatch_view(e, frame).answers.contains_key(s),
        dispatch_view(e, frame).answers[s] == (ReplyView::Error {
            sequence: s,
            payload: frame.skip(3),
        }),
{
}

/// The state after each of `frames` was handed to an engine in the state
/// `e`, in order.
pub open spec fn after_frames(e: EngineView, frames: Seq<Seq<u8>>) -> EngineView
    decreases frames.len(),
{
    if frames.len() == 0 {
        e
    } else {
        dispatch_view(after_frames(e, frames.drop_last()), frames.last())
    }
}

/// A request whose answer never arrives is never answered: however many
/// frames are dispatched, while none of them is a reply or error tagged with
/// the request's sequence number the request keeps waiting, and retrieval
/// finds nothing for it.
pub proof fn lemma_never_answered(e: EngineView, frames: Seq<Seq<u8>>, s: u16)
    requires
        e.waiting.contains_key(s),
        !e.answers.contains_key(s),
        forall|i: int|
            0 <= i < frames.len() ==> !(is_answer_frame(#[trigger] frames[i]) && frame_sequence(
                frames[i],
            ) == s),
    ensures
        after_frames(e, frames).waiting.contains_key(s),
        !after_frames(e, frames).answers.contains_key(s),
    decreases frames.len(),
{
    if frames.len() > 0 {
        lemma_never_answered(e, frames.drop_last(), s);
        lemma_dispatch_elsewhere(after_frames(e, frames.drop_last()), frames.last(), s);
    }
}

} // verus!
