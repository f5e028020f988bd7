//! The fetch engine's decisions: what a transfer does with the response
//! head, with each chunk of the body, and when the body or a step fails.
//!
//! The engine touches neither network nor disk. A driver sends the request,
//! reads the body, writes the staging payload and calls the publisher; after
//! each of these it tells the engine what happened and carries out what the
//! engine awaits next.

use vstd::prelude::*;
use crate::error::Error;
use crate::progress::JobState;
use crate::registry::{
    advanced, announced, canceled_of, distinct_ids, fits, inserted, lemma_inserted,
    lemma_inserted_distinct, lemma_removed, lemma_replaced, listed, removed, state_of, Entries,
};
use crate::table::{is_uuid_v4, Table};

verus! {

/// What a transfer reads from the head of an HTTP response.
#[derive(Debug, Clone, PartialEq, Eq)]
pub struct ResponseHead {
    /// The status code.
    pub status: u16,
    /// The bytes of the `Content-Length` header, where the response has one.
    pub content_length: Option<Vec<u8>>,
}

/// Whether `b` is an ASCII decimal digit.
pub open spec fn is_digit(b: u8) -> bool {
    48 <= b <= 57
}

/// Whether `text` holds decimal digits only.
pub open spec fn all_digits(text: Seq<u8>) -> bool {
    forall|i: int| 0 <= i < text.len() ==> is_digit(#[trigger] text[i])
}

/// The number that the decimal digits `digits` spell.
pub open spec fn number(digits: Seq<u8>) -> nat
    decreases digits.len(),
{
    if digits.len() == 0 {
        0
    } else {
        number(digits.drop_last()) * 10 + (digits.last() - 48) as nat
    }
}

/// `text` without a leading plus sign.
pub open spec fn unsigned(text: Seq<u8>) -> Seq<u8> {
    if text.len() > 0 && text[0] == 43 {
        text.drop_first()
    } else {
        text
    }
}

/// The number that `digits` spell, where they are one or more decimal
/// digits and the number fits in 64 bits.
pub open spec fn spelled(digits: Seq<u8>) -> Option<u64> {
    if digits.len() > 0 && all_digits(digits) && number(digits) <= u64::MAX {
        Some(number(digits) as u64)
    } else {
        None
    }
}

/// The length that a header value announces: its bytes are an optional plus
/// sign and then one or more decimal digits, and the number fits in 64 bits.
/// Any other value announces nothing.
pub open spec fn announced_length(text: Seq<u8>) -> Option<u64> {
    spelled(unsigned(text))
}

/// The expected length of the body according to the response head.
pub open spec fn content_length_of(head: ResponseHead) -> Option<u64> {
    match head.content_length {
        Some(text) => announced_length(text@),
        None => None,
    }
}

/// Whether `status` is a success status.
pub open spec fn accepted(status: u16) -> bool {
    200 <= status <= 299
}

/// A longer run of digits spells no smaller a number than its beginning.
proof fn lemma_number_grows(digits: Seq<u8>, k: int)
    requires
        0 <= k <= digits.len(),
    ensures
        number(digits.take(k)) <= number(digits),
    decreases digits.len() - k,
{
    if k < digits.len() {
        lemma_number_grows(digits, k + 1);
        assert(digits.take(k + 1).drop_last() =~= digits.take(k));
    } else {
        assert(digits.take(k) =~= digits);
    }
}

/// Reads the digits of `text` from index `from` on.
fn parse_digits(text: &[u8], from: usize) -> (r: Option<u64>)
    requires
        from <= text@.len(),
    ensures
        r == spelled(text@.skip(from as int)),
{
    let ghost digits = text@.skip(from as int);
    if from == text.len() {
        return None;
    }
    let mut value: u64 = 0;
    let mut i: usize = from;
    while i < text.len()
        invariant
            from <= i <= text@.len(),
            digits == text@.skip(from as int),
            all_digits(digits.take(i - from)),
            value == number(digits.take(i - from)),
        decreases text.len() - i,
    {
        let b = text[i];
        let ghost k = i - from;
        proof {
            assert(digits[k] == b);
            assert(digits.take(k + 1).drop_last() =~= digits.take(k));
            assert(digits.take(k + 1).last() == b);
            lemma_number_grows(digits, k + 1);
        }
        if b < 48 || b > 57 {
            assert(!is_digit(digits[k]));
            return None;
        }
        let grown = match value.checked_mul(10) {
            Some(tens) => tens.checked_add((b - 48) as u64),
            None => None,
        };
        match grown {
            Some(next) => {
                value = next;
            },
            None => {
                return None;
            },
        }
        i = i + 1;
        proof {
            assert forall|j: int| 0 <= j < digits.take(k + 1).len() implies is_digit(
                #[trigger] digits.take(k + 1)[j],
            ) by {
                if j < k {
                    assert(digits.take(k + 1)[j] == digits.take(k)[j]);
                }
            }
        }
    }
    assert(digits.take(i - from) =~= digits);
    Some(value)
}

/// How a transfer ended.
#[derive(Debug, Clone, Copy, PartialEq, Eq)]
pub enum Outcome {
    /// The body was read to its end and the payload was published.
    Published,
    /// The transfer saw that its job was canceled, or gone from the registry,
    /// and stopped. Nothing was published.
    Canceled,
    /// A step failed.
    Failed(Error),
}

/// Where a transfer stands.
#[derive(Debug, Clone, Copy, PartialEq, Eq)]
pub enum Phase {
    /// The request is out; no job is registered yet.
    Requesting,
    /// The job is registered and the next chunk of the body is awaited.
    Streaming,
    /// A chunk was read and is being appended to the staging payload.
    Staging,
    /// The body has ended and the publisher is at work.
    Publishing,
    /// The transfer has ended and its job is gone from the registry.
    Done(Outcome),
}

/// What the driver reports to the engine.
#[derive(Debug, Clone, PartialEq, Eq)]
pub enum Event {
    /// The response head arrived.
    Response(ResponseHead),
    /// A chunk of the body arrived; it has this many bytes.
    Chunk(u64),
    /// The chunk was appended to the staging payload.
    Staged,
    /// The body has ended.
    End,
    /// The publisher placed the payload and set its owner.
    Published,
    /// The step that the engine awaited failed.
    Failed(Error),
}

/// What the engine awaits from the driver.
#[derive(Debug, Clone, Copy, PartialEq, Eq)]
pub enum Action {
    /// Send the request and report the response head.
    Request,
    /// Read the next chunk of the body.
    Read,
    /// Append the chunk just read to the staging payload.
    Stage,
    /// Flush and rewind the staging payload and hand it to the publisher.
    Publish,
    /// Nothing more: the transfer ended in this way.
    Finish(Outcome),
}

/// The mathematical value of a transfer's control state.
pub struct Transfer {
    /// The display name of the job.
    pub name: Seq<char>,
    /// The identifier of the job, from its registration on.
    pub id: Seq<char>,
    /// Where the transfer stands.
    pub phase: Phase,
    /// The length of the chunk that is being staged.
    pub pending: u64,
}

impl Transfer {
    /// This transfer, ended with `outcome`.
    pub open spec fn done(self, outcome: Outcome) -> Transfer {
        Transfer { phase: Phase::Done(outcome), ..self }
    }

    /// Whether the transfer's job is in the registry, as far as the transfer
    /// itself put it there and has not removed it.
    pub open spec fn registered(self) -> bool {
        self.phase is Streaming || self.phase is Staging || self.phase is Publishing
    }

    /// Whether `event` makes this transfer register its job.
    pub open spec fn registers(self, event: Event) -> bool {
        &&& self.phase is Requesting
        &&& event matches Event::Response(head)
        &&& accepted(head.status)
    }

    /// What the transfer awaits from its driver.
    pub open spec fn awaited(self) -> Action {
        match self.phase {
            Phase::Requesting => Action::Request,
            Phase::Streaming => Action::Read,
            Phase::Staging => Action::Stage,
            Phase::Publishing => Action::Publish,
            Phase::Done(outcome) => Action::Finish(outcome),
        }
    }

    /// Whether `event` can be handled beside the registry `entries`: the
    /// bytes of a staged chunk must be countable in 64 bits.
    pub open spec fn ready(self, entries: Entries, event: Event) -> bool {
        self.phase is Staging && event is Staged ==> fits(entries, self.id, self.pending)
    }

    /// The transfer and the registry after `event`, where `minted` is the
    /// identifier that a registration mints.
    ///
    /// - A response with a success status registers the job and announces its
    ///   total, where the head has a well-formed one. Any other status ends
    ///   the transfer with nothing registered.
    /// - A chunk is staged where the job is registered and not canceled. Where
    ///   it is canceled or unknown, the chunk is dropped and the transfer ends.
    /// - A staged chunk is counted.
    /// - The end of the body starts the publish.
    /// - A failure ends the transfer.
    /// - Whenever a transfer that registered its job ends, the job is removed.
    /// - An event that the phase does not await changes nothing.
    pub open spec fn next(self, entries: Entries, event: Event, minted: Seq<char>) -> (
        Transfer,
        Entries,
    ) {
        match self.phase {
            Phase::Requesting => match event {
                Event::Response(head) => if accepted(head.status) {
                    let created = inserted(entries, minted, JobState::fresh(self.name));
                    (
                        Transfer { id: minted, phase: Phase::Streaming, ..self },
                        match content_length_of(head) {
                            Some(total) => announced(created, minted, total),
                            None => created,
                        },
                    )
                } else {
                    (self.done(Outcome::Failed(Error::HttpStatusError(head.status))), entries)
                },
                Event::Failed(e) => (self.done(Outcome::Failed(e)), entries),
                _ => (self, entries),
            },
            Phase::Streaming => match event {
                Event::Chunk(len) => if canceled_of(entries, self.id) == Some(false) {
                    (Transfer { phase: Phase::Staging, pending: len, ..self }, entries)
                } else {
                    (self.done(Outcome::Canceled), removed(entries, self.id))
                },
                Event::End => (Transfer { phase: Phase::Publishing, ..self }, entries),
                Event::Failed(e) => (self.done(Outcome::Failed(e)), removed(entries, self.id)),
                _ => (self, entries),
            },
            Phase::Staging => match event {
                Event::Staged => (
                    Transfer { phase: Phase::Streaming, ..self },
                    advanced(entries, self.id, self.pending),
                ),
                Event::Failed(e) => (self.done(Outcome::Failed(e)), removed(entries, self.id)),
                _ => (self, entries),
            },
            Phase::Publishing => match event {
                Event::Published => (self.done(Outcome::Published), removed(entries, self.id)),
                Event::Failed(e) => (self.done(Outcome::Failed(e)), removed(entries, self.id)),
                _ => (self, entries),
            },
            Phase::Done(_) => (self, entries),
        }
    }
}

/// A transfer that ends removes its job: after the step that ends a
/// transfer whose job was registered, the job is unknown.
pub proof fn lemma_ended_transfer_is_removed(
    transfer: Transfer,
    entries: Entries,
    event: Event,
    minted: Seq<char>,
)
    requires
        distinct_ids(entries),
        transfer.registered(),
        transfer.next(entries, event, minted).0.phase is Done,
    ensures
        !listed(transfer.next(entries, event, minted).1, transfer.id),
{
    lemma_removed(entries, transfer.id, transfer.id);
}

/// After its registration a transfer changes of its job only the number of
/// bytes received, and that only upwards: as long as the job stays
/// registered, a step leaves its name, its announced total and its
/// cancellation flag as they were.
pub proof fn lemma_step_keeps_job(
    transfer: Transfer,
    entries: Entries,
    event: Event,
    minted: Seq<char>,
)
    requires
        distinct_ids(entries),
        transfer.registered(),
        transfer.ready(entries, event),
        listed(entries, transfer.id),
        listed(transfer.next(entries, event, minted).1, transfer.id),
    ensures
        ({
            let before = state_of(entries, transfer.id);
            let after = state_of(transfer.next(entries, event, minted).1, transfer.id);
            &&& after.name == before.name
            &&& after.total == before.total
            &&& after.canceled == before.canceled
            &&& after.size >= before.size
        }),
{
    let id = transfer.id;
    lemma_removed(entries, id, id);
    lemma_replaced(entries, id, state_of(entries, id).advanced(transfer.pending), id);
}

/// A step of one transfer leaves the jobs of all others alone: a job under
/// another identifier than the transfer's own is listed after the step as it
/// was before, in the same state.
pub proof fn lemma_step_keeps_others(
    transfer: Transfer,
    entries: Entries,
    event: Event,
    minted: Seq<char>,
    other: Seq<char>,
)
    requires
        distinct_ids(entries),
        transfer.registered() ==> other != transfer.id,
        transfer.registers(event) ==> other != minted,
    ensures
        listed(transfer.next(entries, event, minted).1, other) == listed(entries, other),
        listed(entries, other) ==> state_of(transfer.next(entries, event, minted).1, other)
            == state_of(entries, other),
{
    let id = transfer.id;
    lemma_removed(entries, id, other);
    lemma_replaced(entries, id, state_of(entries, id).advanced(transfer.pending), other);
    let created = inserted(entries, minted, JobState::fresh(transfer.name));
    lemma_inserted(entries, minted, JobState::fresh(transfer.name), other);
    lemma_inserted_distinct(entries, minted, JobState::fresh(transfer.name));
    if let Event::Response(head) = event {
        if let Some(total) = content_length_of(head) {
            lemma_replaced(created, minted, state_of(created, minted).with_total(total), other);
        }
    }
}

/// A transfer whose job is canceled or unknown when a chunk arrives stops
/// there: it awaits neither the staging of that chunk nor a publish, and its
/// outcome is `Canceled`.
pub proof fn lemma_canceled_transfer_stops(
    transfer: Transfer,
    entries: Entries,
    len: u64,
    minted: Seq<char>,
)
    requires
        transfer.phase is Streaming,
        canceled_of(entries, transfer.id) != Some(false),
    ensures
        transfer.next(entries, Event::Chunk(len), minted).0.awaited() == Action::Finish(
            Outcome::Canceled,
        ),
{
}

/// The transfer and the registry after `events`, handled one after the other.
pub open spec fn after_events(
    transfer: Transfer,
    entries: Entries,
    events: Seq<Event>,
    minted: Seq<char>,
) -> (Transfer, Entries)
    decreases events.len(),
{
    if events.len() == 0 {
        (transfer, entries)
    } else {
        let (earlier, registry) = after_events(transfer, entries, events.drop_last(), minted);
        earlier.next(registry, events.last(), minted)
    }
}

/// A job that is canceled before its first chunk is handled has nothing
/// staged and nothing published: once that chunk arrives the transfer has
/// ended as `Canceled`, and so it stays whatever events follow.
pub proof fn lemma_canceled_before_first_chunk(
    transfer: Transfer,
    entries: Entries,
    events: Seq<Event>,
    minted: Seq<char>,
)
    requires
        transfer.phase is Streaming,
        canceled_of(entries, transfer.id) != Some(false),
        events.len() > 0,
        events[0] is Chunk,
    ensures
        after_events(transfer, entries, events, minted).0.awaited() == Action::Finish(
            Outcome::Canceled,
        ),
    decreases events.len(),
{
    let earlier = events.drop_last();
    if earlier.len() == 0 {
        assert(after_events(transfer, entries, earlier, minted) == (transfer, entries));
    } else {
        assert(earlier[0] == events[0]);
        lemma_canceled_before_first_chunk(transfer, entries, earlier, minted);
    }
}

/// A transfer that has ended stays as it is: no event makes it stage a
/// chunk, publish, or touch the registry again.
pub proof fn lemma_ended_transfer_stays(
    transfer: Transfer,
    entries: Entries,
    event: Event,
    minted: Seq<char>,
)
    requires
        transfer.phase is Done,
    ensures
        transfer.next(entries, event, minted) == (transfer, entries),
{
}

/// A publish is awaited only once the body has ended: a step leads into the
/// publishing phase only from the end of the body in the streaming phase.
pub proof fn lemma_publish_follows_end(
    transfer: Transfer,
    entries: Entries,
    event: Event,
    minted: Seq<char>,
)
    requires
        !(transfer.phase is Publishing),
        transfer.next(entries, event, minted).0.phase is Publishing,
    ensures
        transfer.phase is Streaming,
        event is End,
{
}

/// The number of bytes in the chunks of `stream`.
pub open spec fn body_len(stream: Seq<Result<Vec<u8>, Error>>) -> nat
    decreases stream.len(),
{
    if stream.len() == 0 {
        0
    } else {
        body_len(stream.drop_first()) + match stream[0] {
            Ok(chunk) => chunk@.len(),
            Err(_) => 0,
        }
    }
}

/// What reading `stream` for the job `id` leaves behind: the registry, the
/// staging payload, and whether the body was read to its end.
///
/// The items of `stream` are taken in turn. A read error ends the loop with
/// that error. A chunk is appended to the staging payload and counted where
/// the job is registered and not canceled; where the job is canceled or
/// unknown the chunk is dropped and the loop ends with `false`. The end of
/// the stream ends the loop with `true`.
pub open spec fn streamed(
    entries: Entries,
    id: Seq<char>,
    stream: Seq<Result<Vec<u8>, Error>>,
    staged: Seq<u8>,
) -> (Entries, Seq<u8>, Result<bool, Error>)
    decreases stream.len(),
{
    if stream.len() == 0 {
        (entries, staged, Ok(true))
    } else {
        match stream[0] {
            Err(e) => (entries, staged, Err(e)),
            Ok(chunk) => if canceled_of(entries, id) == Some(false) {
                streamed(
                    advanced(entries, id, chunk@.len() as u64),
                    id,
                    stream.drop_first(),
                    staged + chunk@,
                )
            } else {
                (entries, staged, Ok(false))
            },
        }
    }
}

/// The control state of one transfer: where it stands and what it awaits.
pub struct Download {
    name: String,
    id: String,
    phase: Phase,
    pending: u64,
}

impl View for Download {
    type V = Transfer;

    closed spec fn view(&self) -> Transfer {
        Transfer { name: self.name@, id: self.id@, phase: self.phase, pending: self.pending }
    }
}

impl Download {
    /// A transfer for a job named `name`, whose request is to be sent.
    pub fn new(name: &str) -> (d: Download)
        ensures
            d@ == (Transfer {
                name: name@,
                id: Seq::<char>::empty(),
                phase: Phase::Requesting,
                pending: 0,
            }),
    {
        Download { name: name.to_owned(), id: String::new(), phase: Phase::Requesting, pending: 0 }
    }

    /// The identifier of the transfer's job; empty before the registration.
    pub fn id(&self) -> (id: &str)
        ensures
            id@ == self@.id,
    {
        self.id.as_str()
    }

    /// Where the transfer stands.
    pub fn phase(&self) -> (phase: Phase)
        ensures
            phase == self@.phase,
    {
        self.phase
    }

    /// What the transfer awaits from its driver.
    pub fn awaited(&self) -> (action: Action)
        ensures
            action == self@.awaited(),
    {
        match self.phase {
            Phase::Requesting => Action::Request,
            Phase::Streaming => Action::Read,
            Phase::Staging => Action::Stage,
            Phase::Publishing => Action::Publish,
            Phase::Done(outcome) => Action::Finish(outcome),
        }
    }

    /// Whether a chunk that arrived for the job `id` is to be staged: only
    /// where the job is registered and not canceled. An unknown job counts
    /// as a canceled one.
    pub fn admits(table: &Table, id: &str) -> (b: bool)
        ensures
            b == (canceled_of(table@, id@) == Some(false)),
    {
        match table.is_canceled(id) {
            Some(false) => true,
            _ => false,
        }
    }

    /// Whether `step` can handle `event` beside `table`.
    pub fn ready(&self, table: &Table, event: &Event) -> (b: bool)
        ensures
            b == self@.ready(table@, *event),
    {
        match (self.phase, event) {
            (Phase::Staging, Event::Staged) => table.fits(self.id.as_str(), self.pending),
            _ => true,
        }
    }

    /// Handles one event: moves the transfer on, updates the registry and
    /// returns what the transfer awaits next.
    pub fn step(&mut self, table: &mut Table, event: Event) -> (action: Action)
        requires
            old(self)@.ready(old(table)@, event),
        ensures
            (final(self)@, final(table)@) == old(self)@.next(
                old(table)@,
                event,
                final(self)@.id,
            ),
            old(self)@.registers(event) ==> is_uuid_v4(final(self)@.id),
            action == final(self)@.awaited(),
            distinct_ids(final(table)@),
    {
        proof {
            use_type_invariant(&*table);
        }
        match self.phase {
            Phase::Requesting => match event {
                Event::Response(head) => {
                    if 200 <= head.status && head.status <= 299 {
                        let id = table.create(self.name.as_str());
                        match Download::content_length(&head) {
                            Some(total) => {
                                table.set_total(id.as_str(), total);
                            },
                            None => {},
                        }
                        self.id = id;
                        self.phase = Phase::Streaming;
                    } else {
                        self.phase = Phase::Done(
                            Outcome::Failed(Error::HttpStatusError(head.status)),
                        );
                    }
                },
                Event::Failed(e) => {
                    self.phase = Phase::Done(Outcome::Failed(e));
                },
                _ => {},
            },
            Phase::Streaming => match event {
                Event::Chunk(len) => {
                    if Download::admits(table, self.id.as_str()) {
                        self.pending = len;
                        self.phase = Phase::Staging;
                    } else {
                        table.delete(self.id.as_str());
                        self.phase = Phase::Done(Outcome::Canceled);
                    }
                },
                Event::End => {
                    self.phase = Phase::Publishing;
                },
                Event::Failed(e) => {
                    table.delete(self.id.as_str());
                    self.phase = Phase::Done(Outcome::Failed(e));
                },
                _ => {},
            },
            Phase::Staging => match event {
                Event::Staged => {
                    table.progress(self.id.as_str(), self.pending);
                    self.phase = Phase::Streaming;
                },
                Event::Failed(e) => {
                    table.delete(self.id.as_str());
                    self.phase = Phase::Done(Outcome::Failed(e));
                },
                _ => {},
            },
            Phase::Publishing => match event {
                Event::Published => {
                    table.delete(self.id.as_str());
                    self.phase = Phase::Done(Outcome::Published);
                },
                Event::Failed(e) => {
                    table.delete(self.id.as_str());
                    self.phase = Phase::Done(Outcome::Failed(e));
                },
                _ => {},
            },
            Phase::Done(_) => {},
        }
        self.awaited()
    }
    /// Reads a body that is in memory: stages and counts the chunks of
    /// `stream` for the job `id` until the stream ends, a read fails, or the
    /// job is seen canceled or gone. Returns whether the body was read to its
    /// end, which is when the payload is to be published.
    ///
    /// A job that is canceled or unknown from the start has nothing staged,
    /// and unless the stream is empty nothing is to be published.
    pub fn read_stream(
        table: &mut Table,
        id: &str,
        stream: &Vec<Result<Vec<u8>, Error>>,
        f: &mut Vec<u8>,
    ) -> (r: Result<bool, Error>)
        requires
            listed(old(table)@, id@) ==> state_of(old(table)@, id@).size + body_len(stream@)
                <= u64::MAX,
        ensures
            (final(table)@, final(f)@, r) == streamed(old(table)@, id@, stream@, old(f)@),
            distinct_ids(final(table)@),
            canceled_of(old(table)@, id@) != Some(false) ==> final(f)@ == old(f)@ && final(table)@
                == old(table)@ && (r == Ok::<bool, Error>(true) <==> stream@.len() == 0),
    {
        proof {
            use_type_invariant(&*table);
            assert(stream@.skip(0) =~= stream@);
        }
        let mut i: usize = 0;
        while i < stream.len()
            invariant
                i <= stream@.len(),
                distinct_ids(table@),
                streamed(old(table)@, id@, stream@, old(f)@) == streamed(
                    table@,
                    id@,
                    stream@.skip(i as int),
                    f@,
                ),
                listed(table@, id@) ==> state_of(table@, id@).size + body_len(
                    stream@.skip(i as int),
                ) <= u64::MAX,
                i == 0 ==> table@ == old(table)@ && f@ == old(f)@,
                i > 0 ==> canceled_of(old(table)@, id@) == Some(false),
            decreases stream.len() - i,
        {
            let ghost rest = stream@.skip(i as int);
            proof {
                assert(rest[0] == stream@[i as int]);
                assert(rest.drop_first() =~= stream@.skip(i + 1));
            }
            match &stream[i] {
                Err(e) => {
                    return Err(*e);
                },
                Ok(chunk) => {
                    if !Download::admits(table, id) {
                        return Ok(false);
                    }
                    let ghost before = f@;
                    let ghost n = chunk@.len() as u64;
                    f.extend_from_slice(chunk.as_slice());
                    assert(f@ =~= before + chunk@);
                    proof {
                        lemma_replaced(table@, id@, state_of(table@, id@).advanced(n), id@);
                    }
                    table.progress(id, chunk.len() as u64);
                },
            }
            i = i + 1;
        }
        assert(stream@.skip(i as int).len() == 0);
        Ok(true)
    }

    /// The expected length of the body: what the `Content-Length` header
    /// announces, where the response has one and it is well-formed. A missing
    /// or malformed header announces nothing, which is no error.
    pub fn content_length(res: &ResponseHead) -> (r: Option<u64>)
        ensures
            r == content_length_of(*res),
    {
        match &res.content_length {
            Some(text) => {
                let bytes = text.as_slice();
                if bytes.len() > 0 && bytes[0] == 43 {
                    assert(bytes@.skip(1) =~= bytes@.drop_first());
                    parse_digits(bytes, 1)
                } else {
                    assert(bytes@.skip(0) =~= bytes@);
                    parse_digits(bytes, 0)
                }
            },
            None => None,
        }
    }
}

} // verus!
