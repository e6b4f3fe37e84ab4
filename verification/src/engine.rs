//! The correlation engine: what a connection does with each query and each frame.
//!
//! The engine holds no socket. A query is handed in with the completion slot of its
//! caller and comes back as the frame to write. A frame that was read is handed in
//! and comes back as the one thing to do: complete a slot, write an acknowledgment,
//! or nothing.

use crate::bf4::event::{event_of_words, notice_view, Event};
use crate::correlation::{
    distinct_sequences, lemma_push, lemma_without, lookup, position, sequences_of, slots_of,
    without, PendingTable, PendingView,
};
use crate::search::lemma_first_index;
use crate::dispatch::{Delivery, Dispatcher, DispatcherView};
use crate::error::{RconError, RconErrorView};
use crate::frame::{
    encoded_words, words_clean, Frame, FrameView, FramingError, HEADER_SIZE, SEQUENCE_SPAN,
    TERMINATOR,
};
use crate::query::{interpret_response, outcome_of_response, outcome_view};
use crate::sequence::{next_sequence, SequenceAllocator};
use crate::wire::{ascii_text, copy_words, lemma_le32_value_of_le32, text_bytes, words_view};
use vstd::prelude::*;

verus! {

/// Where a connection stands. It moves forward only, and `Closed` is the end.
#[derive(Debug, Clone, Copy, PartialEq, Eq, Structural)]
pub enum ConnectionState {
    /// The handshake is under way.
    Connecting,
    /// The server accepted the login; queries can be sent.
    Authenticated,
    /// The connection is over. Nothing is pending and nothing can be sent.
    Closed,
}

/// The state of one authenticated connection.
#[derive(Debug)]
pub struct Engine<S> {
    closed: bool,
    sequences: SequenceAllocator,
    pending: PendingTable<S>,
    dispatcher: Dispatcher,
}

/// The state of one connection as a mathematical value.
pub struct EngineView<S> {
    pub state: ConnectionState,
    /// The sequence number that the next query takes.
    pub upcoming: u32,
    /// The requests that wait for a response, oldest first.
    pub pending: Seq<PendingView<S>>,
    /// The subscribers to the notifications.
    pub dispatcher: DispatcherView,
}

/// A slot and what is to be put into it.
#[derive(Debug)]
pub struct Completion<S> {
    pub slot: S,
    pub outcome: Result<Vec<Vec<u8>>, RconError>,
}

/// A completion as a mathematical value.
pub struct CompletionView<S> {
    pub slot: S,
    pub outcome: Result<Seq<Seq<u8>>, RconErrorView>,
}

/// What became of a query that was handed in.
#[derive(Debug)]
pub enum Submission<S> {
    /// The query is pending and this frame is to be written. Where an older request
    /// still held the sequence number, it left the table: its slot is `displaced` and
    /// will get no response.
    Sent { frame: Frame, displaced: Option<S> },
    /// The query was not taken; the slot comes back.
    Refused { error: RconError, slot: S },
}

/// What is to be done about a frame that was read.
#[derive(Debug)]
pub enum ReaderAction<S> {
    /// The frame answers a pending request: its slot is to be completed.
    Complete(Completion<S>),
    /// The frame is a notification, which the subscribers now hold: this
    /// acknowledgment is to be written before the next frame is read.
    Acknowledge { ack: Frame },
    /// Nothing is to be done.
    Discard,
}

/// What is to be done about a frame, as a mathematical value.
pub enum ActionView<S> {
    Complete(CompletionView<S>),
    Acknowledge { ack: FrameView },
    Discard,
}

impl<S> View for Completion<S> {
    type V = CompletionView<S>;

    open spec fn view(&self) -> CompletionView<S> {
        CompletionView { slot: self.slot, outcome: outcome_view(self.outcome) }
    }
}

impl<S> View for ReaderAction<S> {
    type V = ActionView<S>;

    open spec fn view(&self) -> ActionView<S> {
        match *self {
            ReaderAction::Complete(completion) => ActionView::Complete(completion@),
            ReaderAction::Acknowledge { ack } => ActionView::Acknowledge { ack: ack@ },
            ReaderAction::Discard => ActionView::Discard,
        }
    }
}

impl<S> View for Engine<S> {
    type V = EngineView<S>;

    closed spec fn view(&self) -> EngineView<S> {
        EngineView {
            state: if self.closed {
                ConnectionState::Closed
            } else {
                ConnectionState::Authenticated
            },
            upcoming: self.sequences.upcoming(),
            pending: self.pending@,
            dispatcher: self.dispatcher@,
        }
    }
}

/// The acknowledgment of a notification: a response under the same sequence number,
/// with the one word `OK`.
pub open spec fn ack_frame(sequence: u32) -> FrameView {
    FrameView {
        sequence,
        is_response: true,
        is_from_server: true,
        words: seq![ascii_text("OK"@)],
    }
}

/// The frame that carries a query.
pub open spec fn query_frame(sequence: u32, words: Seq<Seq<u8>>) -> FrameView {
    FrameView { sequence, is_response: false, is_from_server: false, words }
}

/// The completions that end every pending request when the connection closes.
pub open spec fn closing_completions<S>(pending: Seq<PendingView<S>>) -> Seq<CompletionView<S>> {
    Seq::new(
        pending.len(),
        |i: int|
            CompletionView {
                slot: pending[i].slot,
                outcome: Err(RconErrorView::ConnectionClosed),
            },
    )
}

impl<S> EngineView<S> {
    /// What every engine satisfies: no two pending requests have the same sequence
    /// number, and the registry of subscribers is well formed.
    pub open spec fn wf(self) -> bool {
        &&& distinct_sequences(self.pending)
        &&& self.dispatcher.wf()
        &&& self.state != ConnectionState::Connecting
    }

    /// The engine after a frame was read.
    ///
    /// A response takes the request with its sequence number out of the table; a
    /// response that finds none changes nothing. A notification reaches every
    /// subscriber. A closed engine changes no more.
    pub open spec fn after_frame(self, frame: FrameView) -> EngineView<S> {
        if self.state == ConnectionState::Closed {
            self
        } else if frame.is_response {
            EngineView {
                state: self.state,
                upcoming: self.upcoming,
                pending: without(self.pending, frame.sequence),
                dispatcher: self.dispatcher,
            }
        } else if frame.is_from_server {
            EngineView {
                state: self.state,
                upcoming: self.upcoming,
                pending: self.pending,
                dispatcher: self.dispatcher.publish(event_of_words(frame.words)),
            }
        } else {
            self
        }
    }

    /// What is to be done about a frame that was read.
    ///
    /// A response completes the request with its sequence number, and only that one,
    /// with the outcome that its words signal; without such a request it is
    /// discarded. A notification is acknowledged under its own sequence number.
    pub open spec fn action_on(self, frame: FrameView) -> ActionView<S> {
        if self.state == ConnectionState::Closed {
            ActionView::Discard
        } else if frame.is_response {
            match lookup(self.pending, frame.sequence) {
                Some(entry) => ActionView::Complete(
                    CompletionView {
                        slot: entry.slot,
                        outcome: outcome_of_response(frame.words, entry.query),
                    },
                ),
                None => ActionView::Discard,
            }
        } else if frame.is_from_server {
            ActionView::Acknowledge { ack: ack_frame(frame.sequence) }
        } else {
            ActionView::Discard
        }
    }

    /// The engine after a query was taken.
    pub open spec fn after_submit(self, words: Seq<Seq<u8>>, slot: S) -> EngineView<S> {
        EngineView {
            state: self.state,
            upcoming: next_sequence(self.upcoming),
            pending: without(self.pending, self.upcoming).push(
                PendingView { sequence: self.upcoming, query: words, slot },
            ),
            dispatcher: self.dispatcher,
        }
    }

    /// The reason for which a query is not taken, if there is one.
    pub open spec fn refusal(self, words: Seq<Seq<u8>>) -> Option<RconErrorView> {
        if self.state == ConnectionState::Closed {
            Some(RconErrorView::ConnectionClosed)
        } else if !words_clean(words) {
            Some(RconErrorView::Framing(FramingError::WordHoldsTerminator))
        } else if HEADER_SIZE + encoded_words(words).len() > u32::MAX {
            Some(RconErrorView::Framing(FramingError::TooLarge))
        } else {
            None
        }
    }
}

/// Two responses for two pending requests complete the same slots with the same
/// outcomes in whichever order they arrive.
pub proof fn lemma_arrival_order_is_irrelevant<S>(
    engine: EngineView<S>,
    first: FrameView,
    second: FrameView,
)
    requires
        distinct_sequences(engine.pending),
        first.is_response,
        second.is_response,
        first.sequence != second.sequence,
    ensures
        engine.after_frame(first).action_on(second) == engine.action_on(second),
        engine.after_frame(second).action_on(first) == engine.action_on(first),
{
    lemma_without(engine.pending, first.sequence, second.sequence);
    lemma_without(engine.pending, second.sequence, first.sequence);
}

/// A response completes the request with its own sequence number and leaves every
/// other request pending, as it was.
pub proof fn lemma_response_reaches_its_request<S>(
    engine: EngineView<S>,
    frame: FrameView,
    other: u32,
)
    requires
        distinct_sequences(engine.pending),
        engine.state != ConnectionState::Closed,
        frame.is_response,
        other != frame.sequence,
    ensures
        lookup(engine.pending, frame.sequence) matches Some(entry) ==> engine.action_on(frame)
            == ActionView::Complete(
            CompletionView {
                slot: entry.slot,
                outcome: outcome_of_response(frame.words, entry.query),
            },
        ),
        lookup(engine.after_frame(frame).pending, frame.sequence) is None,
        lookup(engine.after_frame(frame).pending, other) == lookup(engine.pending, other),
{
    lemma_without(engine.pending, frame.sequence, other);
}

/// A response without a pending request is discarded and changes nothing.
pub proof fn lemma_stray_response_is_discarded<S>(engine: EngineView<S>, frame: FrameView)
    requires
        frame.is_response,
        lookup(engine.pending, frame.sequence) is None,
    ensures
        engine.action_on(frame) == ActionView::<S>::Discard,
        engine.after_frame(frame) == engine,
{
}

/// A notification on an open connection is answered by one acknowledgment under its
/// own sequence number, and changes no pending request.
pub proof fn lemma_notification_is_acknowledged<S>(engine: EngineView<S>, frame: FrameView)
    requires
        engine.state != ConnectionState::Closed,
        frame.is_from_server,
        !frame.is_response,
    ensures
        engine.action_on(frame) == (ActionView::<S>::Acknowledge { ack: ack_frame(frame.sequence) }),
        ack_frame(frame.sequence).sequence == frame.sequence,
        ack_frame(frame.sequence).is_response,
        engine.after_frame(frame).pending == engine.pending,
{
}

/// A query that was taken is completed by the response with its sequence number,
/// with the outcome that the response signals for the words of the query.
pub proof fn lemma_query_gets_its_response<S>(
    engine: EngineView<S>,
    words: Seq<Seq<u8>>,
    slot: S,
    response: FrameView,
)
    requires
        distinct_sequences(engine.pending),
        engine.state != ConnectionState::Closed,
        response.is_response,
        response.sequence == engine.upcoming,
    ensures
        distinct_sequences(engine.after_submit(words, slot).pending),
        engine.after_submit(words, slot).action_on(response) == ActionView::Complete(
            CompletionView { slot, outcome: outcome_of_response(response.words, words) },
        ),
{
    let rest = without(engine.pending, engine.upcoming);
    lemma_without(engine.pending, engine.upcoming, engine.upcoming);
    lemma_push(
        rest,
        PendingView { sequence: engine.upcoming, query: words, slot },
        engine.upcoming,
    );
}

/// Closing completes every pending request once, with a closed-connection failure:
/// there are as many completions as requests, and the request with a given sequence
/// number has its completion at one place and no other.
pub proof fn lemma_closing_completes_each_once<S>(pending: Seq<PendingView<S>>, sequence: u32)
    requires
        distinct_sequences(pending),
        lookup(pending, sequence) is Some,
    ensures
        closing_completions(pending).len() == pending.len(),
        closing_completions(pending)[position(pending, sequence) as int] == (CompletionView {
            slot: lookup(pending, sequence)->Some_0.slot,
            outcome: Err(RconErrorView::ConnectionClosed),
        }),
        forall|i: int|
            0 <= i < pending.len() && pending[i].sequence == sequence ==> i == position(
                pending,
                sequence,
            ),
{
    let keys = sequences_of(pending);
    lemma_first_index(keys, sequence);
    let at = position(pending, sequence) as int;
    assert(pending[at].sequence == keys[at]);
    assert forall|i: int| 0 <= i < pending.len() && pending[i].sequence == sequence implies i
        == at by {
        assert(keys[i] == sequence);
        if i < at {
            assert(keys[i] != sequence);
        } else if i > at {
            assert(keys[at] != keys[i]);
        }
    }
}

impl<S> Engine<S> {
    /// The engine of a connection that has just logged in.
    pub fn new(sequences: SequenceAllocator) -> (engine: Engine<S>)
        ensures
            engine@.state == ConnectionState::Authenticated,
            engine@.upcoming == sequences.upcoming(),
            engine@.pending.len() == 0,
            engine@.dispatcher.subscribers.len() == 0,
            engine@.dispatcher.next_id == 0,
            engine@.wf(),
    {
        Engine { closed: false, sequences, pending: PendingTable::new(), dispatcher: Dispatcher::new() }
    }

    /// Where the connection stands.
    pub fn state(&self) -> (state: ConnectionState)
        ensures
            state == self@.state,
            self@.wf(),
    {
        proof {
            use_type_invariant(&self.pending);
            use_type_invariant(&self.dispatcher);
        }
        if self.closed {
            ConnectionState::Closed
        } else {
            ConnectionState::Authenticated
        }
    }

    /// How many requests are pending.
    pub fn pending_count(&self) -> (count: usize)
        ensures
            count == self@.pending.len(),
            self@.wf(),
    {
        proof {
            use_type_invariant(&self.pending);
            use_type_invariant(&self.dispatcher);
        }
        self.pending.len()
    }

    /// Takes a query: reserves the next sequence number, enters the request in the
    /// table, and gives the frame to write.
    pub fn submit(&mut self, words: Vec<Vec<u8>>, slot: S) -> (submission: Submission<S>)
        ensures
            old(self)@.wf(),
            final(self)@.wf(),
            match submission {
                Submission::Sent { frame, displaced } => {
                    &&& old(self)@.refusal(words_view(words@)) is None
                    &&& frame@ == query_frame(old(self)@.upcoming, words_view(words@))
                    &&& final(self)@ == old(self)@.after_submit(words_view(words@), slot)
                    &&& match displaced {
                        Some(old_slot) => lookup(old(self)@.pending, old(self)@.upcoming)
                            matches Some(entry) && entry.slot == old_slot,
                        None => lookup(old(self)@.pending, old(self)@.upcoming) is None,
                    }
                },
                Submission::Refused { error, slot: returned } => {
                    &&& old(self)@.refusal(words_view(words@)) == Some(error@)
                    &&& returned == slot
                    &&& final(self)@ == old(self)@
                },
            },
    {
        proof {
            use_type_invariant(&self.pending);
            use_type_invariant(&self.dispatcher);
        }
        if self.closed {
            return Submission::Refused { error: RconError::ConnectionClosed, slot };
        }
        let sequence = self.sequences.peek();
        let frame = match Frame::new(sequence, false, false, copy_words(words.as_slice())) {
            Ok(frame) => frame,
            Err(e) => {
                return Submission::Refused { error: RconError::Framing(e), slot };
            },
        };
        let _ = self.sequences.allocate();
        let displaced = self.pending.insert(sequence, words, slot);
        Submission::Sent { frame, displaced }
    }

    /// Gives up the request with this sequence number: its slot comes back, and a
    /// response that arrives later finds nothing.
    pub fn cancel(&mut self, sequence: u32) -> (slot: Option<S>)
        ensures
            old(self)@.wf(),
            final(self)@.wf(),
            final(self)@ == (EngineView {
                state: old(self)@.state,
                upcoming: old(self)@.upcoming,
                pending: without(old(self)@.pending, sequence),
                dispatcher: old(self)@.dispatcher,
            }),
            match slot {
                Some(s) => lookup(old(self)@.pending, sequence) matches Some(entry) && entry.slot
                    == s,
                None => lookup(old(self)@.pending, sequence) is None,
            },
    {
        proof {
            use_type_invariant(&self.pending);
            use_type_invariant(&self.dispatcher);
        }
        match self.pending.remove(sequence) {
            Some((_, slot)) => Some(slot),
            None => None,
        }
    }

    /// Takes a frame that was read, and says what is to be done about it.
    pub fn on_frame(&mut self, frame: Frame) -> (action: ReaderAction<S>)
        ensures
            old(self)@.wf(),
            final(self)@.wf(),
            action@ == old(self)@.action_on(frame@),
            final(self)@ == old(self)@.after_frame(frame@),
    {
        proof {
            use_type_invariant(&self.pending);
            use_type_invariant(&self.dispatcher);
        }
        if self.closed {
            return ReaderAction::Discard;
        }
        if frame.is_response() {
            let sequence = frame.sequence();
            match self.pending.remove(sequence) {
                Some((query, slot)) => {
                    let outcome = interpret_response(frame.into_words(), query);
                    ReaderAction::Complete(Completion { slot, outcome })
                },
                None => ReaderAction::Discard,
            }
        } else if frame.is_from_server() {
            let sequence = frame.sequence();
            let notice = Event::from_words(frame.words().as_slice());
            self.dispatcher.publish(&notice);
            ReaderAction::Acknowledge { ack: build_ack(sequence) }
        } else {
            ReaderAction::Discard
        }
    }

    /// Closes the connection: every pending request leaves the table to be completed
    /// with a closed-connection failure, and every subscription ends.
    pub fn close(&mut self) -> (completions: Vec<Completion<S>>)
        ensures
            old(self)@.wf(),
            final(self)@.wf(),
            final(self)@.state == ConnectionState::Closed,
            final(self)@.upcoming == old(self)@.upcoming,
            final(self)@.pending.len() == 0,
            final(self)@.dispatcher.subscribers.len() == 0,
            completions@.len() == old(self)@.pending.len(),
            forall|i: int|
                0 <= i < completions@.len() ==> (#[trigger] completions@[i])@
                    == closing_completions(old(self)@.pending)[i],
    {
        proof {
            use_type_invariant(&self.pending);
            use_type_invariant(&self.dispatcher);
        }
        let ghost before = self@.pending;
        self.closed = true;
        self.dispatcher.close();
        let mut slots = self.pending.drain();
        let mut completions: Vec<Completion<S>> = Vec::new();
        let ghost all = slots@;
        assert(all == slots_of(before));
        while slots.len() > 0
            invariant
                all == slots_of(before),
                completions@.len() + slots@.len() == all.len(),
                forall|i: int|
                    0 <= i < completions@.len() ==> (#[trigger] completions@[i])@
                        == closing_completions(before)[i],
                forall|i: int| 0 <= i < slots@.len() ==> slots@[i] == all[completions@.len() + i],
            decreases slots@.len(),
        {
            let slot = slots.remove(0);
            completions.push(Completion { slot, outcome: Err(RconError::ConnectionClosed) });
        }
        completions
    }

    /// Adds a subscriber whose queue holds up to `capacity` notices; `None` on a
    /// closed connection, or once the identifiers have run out.
    pub fn subscribe(&mut self, capacity: usize) -> (id: Option<u64>)
        ensures
            old(self)@.wf(),
            final(self)@.wf(),
            final(self)@.state == old(self)@.state,
            final(self)@.upcoming == old(self)@.upcoming,
            final(self)@.pending == old(self)@.pending,
            match id {
                Some(id) => old(self)@.state != ConnectionState::Closed && id == old(
                    self,
                )@.dispatcher.next_id && final(self)@.dispatcher == old(
                    self,
                )@.dispatcher.subscribe(capacity as nat),
                None => final(self)@ == old(self)@ && (old(self)@.state == ConnectionState::Closed
                    || old(self)@.dispatcher.next_id == u64::MAX),
            },
    {
        proof {
            use_type_invariant(&self.pending);
            use_type_invariant(&self.dispatcher);
        }
        if self.closed {
            return None;
        }
        self.dispatcher.subscribe(capacity)
    }

    /// Ends the subscription `id`; says whether there was one.
    pub fn unsubscribe(&mut self, id: u64) -> (found: bool)
        ensures
            old(self)@.wf(),
            final(self)@.wf(),
            found == old(self)@.dispatcher.has(id),
            final(self)@.state == old(self)@.state,
            final(self)@.upcoming == old(self)@.upcoming,
            final(self)@.pending == old(self)@.pending,
            final(self)@.dispatcher == old(self)@.dispatcher.unsubscribe(id),
    {
        proof {
            use_type_invariant(&self.pending);
            use_type_invariant(&self.dispatcher);
        }
        self.dispatcher.unsubscribe(id)
    }

    /// Takes the oldest notice that waits for subscriber `id`.
    pub fn poll(&mut self, id: u64) -> (delivery: Delivery)
        ensures
            old(self)@.wf(),
            final(self)@.wf(),
            final(self)@.state == old(self)@.state,
            final(self)@.upcoming == old(self)@.upcoming,
            final(self)@.pending == old(self)@.pending,
            match delivery {
                Delivery::Notice(notice) => old(self)@.dispatcher.has(id) && old(
                    self,
                )@.dispatcher.queue_of(id).len() > 0 && notice_view(notice) == old(
                    self,
                )@.dispatcher.queue_of(id)[0] && final(self)@.dispatcher == old(
                    self,
                )@.dispatcher.take(id),
                Delivery::Empty => old(self)@.dispatcher.has(id) && old(self)@.dispatcher.queue_of(
                    id,
                ).len() == 0 && final(self)@ == old(self)@,
                Delivery::Closed => !old(self)@.dispatcher.has(id) && final(self)@ == old(self)@,
            },
    {
        proof {
            use_type_invariant(&self.pending);
            use_type_invariant(&self.dispatcher);
        }
        self.dispatcher.poll(id)
    }
}

/// The acknowledgment of the notification with this sequence number.
fn build_ack(sequence: u32) -> (ack: Frame)
    requires
        sequence < SEQUENCE_SPAN,
    ensures
        ack@ == ack_frame(sequence),
{
    proof {
        reveal_strlit("OK");
    }
    let mut words: Vec<Vec<u8>> = Vec::new();
    words.push(text_bytes("OK"));
    proof {
        let all = words_view(words@);
        assert(all =~= seq![ascii_text("OK"@)]);
        assert(words_clean(all)) by {
            assert forall|i: int| 0 <= i < all.len() implies !(#[trigger] all[i]).contains(
                TERMINATOR,
            ) by {
                let w = all[0];
                assert forall|j: int| 0 <= j < w.len() implies w[j] != TERMINATOR by {}
            }
        }
        reveal_with_fuel(encoded_words, 2);
        lemma_le32_value_of_le32(all[0].len() as u32);
        assert(encoded_words(all).len() <= 64);
    }
    match Frame::new(sequence, true, true, words) {
        Ok(ack) => ack,
        Err(_) => unreached(),
    }
}

} // verus!
