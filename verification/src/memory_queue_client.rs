//! The queue client: the one consumer of the channel that a sink of the pipeline feeds.

use crate::description::texts;
use crate::model::{fields_of_pairs, with_field, CxxLogEvent, FieldView, Value, ValueView};
use vstd::prelude::*;

verus! {

/// `futures::channel::mpsc::Receiver`, the receiving end of a bounded channel. It is carried
/// through as it is: nothing is known of what it holds.
#[verifier::external_type_specification]
#[verifier::external_body]
#[verifier::reject_recursive_types(T)]
pub struct ExReceiver<T>(futures::channel::mpsc::Receiver<T>);

/// One finished item of the pipeline, as its sink hands it over.
#[derive(Debug, PartialEq)]
pub enum Event {
    /// A record in the log shape.
    Log(CxxLogEvent),
    /// A metric, projected to the log shape.
    Metric(CxxLogEvent),
    /// A trace; the queue client passes traces over.
    Trace,
}

/// `Receiver::try_recv`: one attempt to take a message without waiting. The result is the
/// message if one was there. An empty channel and a closed one both give `None`; which
/// of the three comes back depends on the senders, so nothing more is claimed.
#[verifier::external_body]
fn try_receive<T>(receiver: &mut futures::channel::mpsc::Receiver<T>) -> (message: Option<T>) {
    receiver.try_recv().ok()
}

/// The records of a batch, in order: logs and projected metrics; traces are left out.
pub open spec fn records_of(batch: Seq<Event>) -> Seq<CxxLogEvent>
    decreases batch.len(),
{
    if batch.len() == 0 {
        Seq::empty()
    } else {
        match batch.last() {
            Event::Log(record) => records_of(batch.drop_last()).push(record),
            Event::Metric(record) => records_of(batch.drop_last()).push(record),
            Event::Trace => records_of(batch.drop_last()),
        }
    }
}

/// Turns what one receive attempt gave into records: nothing for no batch, else the
/// batch's logs and projected metrics in their order.
pub fn collect_records(received: Option<Vec<Event>>) -> (records: Vec<CxxLogEvent>)
    ensures
        records@ == match received {
            Some(batch) => records_of(batch@),
            None => Seq::empty(),
        },
{
    let mut records: Vec<CxxLogEvent> = Vec::new();
    match received {
        None => {},
        Some(batch) => {
            let ghost all = batch@;
            for event in it: batch.into_iter()
                invariant
                    it.seq() == all,
                    records@ == records_of(all.take(it.index() as int)),
            {
                proof {
                    let i = it.index() as int;
                    assert(all.take(i + 1).drop_last() =~= all.take(i));
                    assert(all.take(i + 1).last() == all[i]);
                }
                match event {
                    Event::Log(record) => records.push(record),
                    Event::Metric(record) => records.push(record),
                    Event::Trace => {},
                }
            }
            assert(all.take(all.len() as int) =~= all);
        },
    }
    records
}

/// The place where the one receiving end of the sink's channel lies while no client
/// holds it.
pub struct ReceiverSlot {
    receiver: Option<futures::channel::mpsc::Receiver<Vec<Event>>>,
}

impl ReceiverSlot {
    /// The receiving end that lies in the slot, if one does.
    pub closed spec fn held(&self) -> Option<futures::channel::mpsc::Receiver<Vec<Event>>> {
        self.receiver
    }

    /// A slot in which nothing lies.
    pub fn empty() -> (slot: ReceiverSlot)
        ensures
            slot.held() is None,
    {
        ReceiverSlot { receiver: None }
    }

    /// A slot with `receiver` in it.
    pub fn new(receiver: futures::channel::mpsc::Receiver<Vec<Event>>) -> (slot: ReceiverSlot)
        ensures
            slot.held() == Some(receiver),
    {
        ReceiverSlot { receiver: Some(receiver) }
    }

    /// Whether a receiving end lies in the slot, free to be taken.
    pub fn is_available(&self) -> (available: bool)
        ensures
            available == self.held() is Some,
    {
        self.receiver.is_some()
    }

    /// Takes the receiving end out of the slot, if one lies there.
    pub fn take_message_receiver(&mut self) -> (receiver: Option<
        futures::channel::mpsc::Receiver<Vec<Event>>,
    >)
        ensures
            receiver == old(self).held(),
            final(self).held() is None,
    {
        self.receiver.take()
    }

    /// Lays `receiver` into the slot, in place of what lay there.
    pub fn set_message_receiver(&mut self, receiver: futures::channel::mpsc::Receiver<Vec<Event>>)
        ensures
            final(self).held() == Some(receiver),
    {
        self.receiver = Some(receiver);
    }
}

/// What asking a slot for a client comes to: a client is made exactly if a receiving end
/// lies in the slot, the client then holds that receiving end, and the slot is empty
/// afterwards.
pub open spec fn made_from(
    before: ReceiverSlot,
    client: Option<MemoryQueueClient>,
    after: ReceiverSlot,
) -> bool {
    &&& client is Some <==> before.held() is Some
    &&& client matches Some(c) ==> c.held() is Some && c.held() == before.held()
    &&& after.held() is None
}

/// What releasing a client into a slot comes to: the client's receiving end lies in the
/// slot; a client without one leaves the slot as it was.
pub open spec fn released_into(
    client: MemoryQueueClient,
    before: ReceiverSlot,
    after: ReceiverSlot,
) -> bool {
    after.held() == match client.held() {
        Some(receiver) => Some(receiver),
        None => before.held(),
    }
}

/// The one consumer of the sink's channel. While a client lives, the slot it was made from
/// is empty, so no second client can be made; [`MemoryQueueClient::release`] gives the
/// receiving end back.
pub struct MemoryQueueClient {
    receiver: Option<futures::channel::mpsc::Receiver<Vec<Event>>>,
}

impl MemoryQueueClient {
    /// The receiving end that the client holds.
    pub closed spec fn held(&self) -> Option<futures::channel::mpsc::Receiver<Vec<Event>>> {
        self.receiver
    }

    /// Makes the client from the receiving end in `slot`. To call this while another client
    /// holds the receiving end is a usage error.
    pub fn new(slot: &mut ReceiverSlot) -> (client: MemoryQueueClient)
        requires
            old(slot).held() is Some,
        ensures
            client.held() is Some,
            client.held() == old(slot).held(),
            final(slot).held() is None,
            made_from(*old(slot), Some(client), *final(slot)),
    {
        MemoryQueueClient { receiver: slot.take_message_receiver() }
    }

    /// Makes the client from the receiving end in `slot`, or reports with `None` that
    /// another client holds it; the slot is empty afterwards either way.
    pub fn try_new(slot: &mut ReceiverSlot) -> (client: Option<MemoryQueueClient>)
        ensures
            made_from(*old(slot), client, *final(slot)),
    {
        if slot.is_available() {
            Some(MemoryQueueClient::new(slot))
        } else {
            None
        }
    }

    /// Makes the client from whatever lies in `filled`, a slot whose channel was fed
    /// generated events beforehand. A client made from an empty slot receives nothing.
    pub fn new_with_random_events(filled: &mut ReceiverSlot) -> (client: MemoryQueueClient)
        ensures
            client.held() == old(filled).held(),
            final(filled).held() is None,
    {
        MemoryQueueClient { receiver: filled.take_message_receiver() }
    }

    /// One attempt to receive, without waiting: the records of the batch that was there,
    /// or no records if none was there or the channel is closed. The client keeps its
    /// receiving end.
    pub fn poll(&mut self) -> (events: Vec<CxxLogEvent>)
        ensures
            final(self).held() is Some <==> old(self).held() is Some,
            old(self).held() is None ==> events@ == Seq::<CxxLogEvent>::empty(),
    {
        let received = match &mut self.receiver {
            Some(rx) => try_receive(rx),
            None => None,
        };
        collect_records(received)
    }

    /// Ends the client and lays its receiving end back into `slot`, where the next client
    /// can take it. A client without a receiving end leaves the slot as it is.
    pub fn release(self, slot: &mut ReceiverSlot)
        ensures
            released_into(self, *old(slot), *final(slot)),
    {
        let mut this = self;
        if let Some(rx) = this.receiver.take() {
            slot.set_message_receiver(rx);
        }
    }
}

/// While a client that was made from a slot lives, asking the slot for a second client
/// makes none, however often it is asked; once the first client is released into the slot,
/// the next client is made and holds the same receiving end.
pub proof fn one_client_at_a_time(
    slot: ReceiverSlot,
    first: MemoryQueueClient,
    during: ReceiverSlot,
    second: Option<MemoryQueueClient>,
    still: ReceiverSlot,
    freed: ReceiverSlot,
    next: Option<MemoryQueueClient>,
    after: ReceiverSlot,
)
    requires
        made_from(slot, Some(first), during),
        made_from(during, second, still),
        released_into(first, still, freed),
        made_from(freed, next, after),
    ensures
        second is None,
        still.held() is None,
        next matches Some(client) && client.held() == slot.held(),
{
}

/// How many fields a generated record of about `len` bytes gets: one for every fifty bytes,
/// ten for the key and forty for the value.
pub fn json_field_count(len: usize) -> (count: usize)
    ensures
        count == len / 50,
{
    let key_len: usize = 10;
    let val_len: usize = 40;
    len / (key_len + val_len)
}

/// The text of a value as a field holds it.
pub open spec fn text_value(text: Seq<char>) -> ValueView {
    ValueView::Bytes(vstd::utf8::encode_utf8(text))
}

/// The fields of a generated record: those that `pairs` spell, then the rendered message,
/// the data type and the target table.
pub open spec fn json_event_fields(pairs: Seq<Seq<char>>, message: Seq<char>) -> Seq<FieldView> {
    with_field(
        with_field(
            with_field(
                fields_of_pairs(pairs, pairs.len() / 2),
                FieldView { key: "_message"@, value: text_value(message) },
            ),
            FieldView { key: "_datatype"@, value: text_value("json"@) },
        ),
        FieldView { key: "_target_table"@, value: text_value("table_a"@) },
    )
}

/// One generated record: the fields that `pairs` spell, key and value in turn, with
/// `message`, which is those fields rendered as text, and the marks of data type and
/// target table.
pub fn random_json_event(pairs: &Vec<String>, message: &str) -> (record: CxxLogEvent)
    ensures
        record.wf(),
        record@ == ValueView::Object(json_event_fields(texts(pairs@), message@)),
{
    let mut record = CxxLogEvent::new(pairs);
    record.insert("_message", Value::Bytes(message.as_bytes_vec()));
    record.insert("_datatype", Value::Bytes("json".as_bytes_vec()));
    record.insert("_target_table", Value::Bytes("table_a".as_bytes_vec()));
    record
}

/// Marks a generated record with its target table.
pub fn random_simple_event(record: CxxLogEvent) -> (marked: CxxLogEvent)
    requires
        record.wf(),
    ensures
        marked.wf(),
        marked@ == ValueView::Object(
            with_field(
                record@->Object_0,
                FieldView { key: "_target_table"@, value: text_value("table_a"@) },
            ),
        ),
{
    let mut marked = record;
    marked.insert("_target_table", Value::Bytes("table_a".as_bytes_vec()));
    marked
}

/// Each record as a log event, in order.
pub open spec fn log_events(records: Seq<CxxLogEvent>) -> Seq<Event> {
    records.map_values(|r: CxxLogEvent| Event::Log(r))
}

/// `events` cut into batches of `size`, the last one shorter if they do not come out even.
pub open spec fn chunked(events: Seq<Event>, size: nat) -> Seq<Seq<Event>>
    decreases events.len(),
{
    if events.len() == 0 || size == 0 {
        Seq::empty()
    } else if events.len() <= size {
        seq![events]
    } else {
        seq![events.take(size as int)] + chunked(events.skip(size as int), size)
    }
}

/// The contents of each batch, in order.
pub open spec fn batch_views(batches: Seq<Vec<Event>>) -> Seq<Seq<Event>> {
    batches.map_values(|b: Vec<Event>| b@)
}

/// Cuts `records` into batches of `chunk_size` log events, as a sink is fed them.
pub fn random_batches_with_stream(records: Vec<CxxLogEvent>, chunk_size: usize) -> (batches: Vec<
    Vec<Event>,
>)
    requires
        chunk_size > 0,
    ensures
        batch_views(batches@) == chunked(log_events(records@), chunk_size as nat),
{
    let ghost all = log_events(records@);
    let ghost mut start: int = 0;
    let mut batches: Vec<Vec<Event>> = Vec::new();
    let mut current: Vec<Event> = Vec::new();
    assert(all.skip(0) =~= all);
    assert(batch_views(batches@) + chunked(all, chunk_size as nat) =~= chunked(
        all,
        chunk_size as nat,
    ));
    assert(current@ =~= all.subrange(0, 0));
    for record in it: records.into_iter()
        invariant
            it.seq() == records@,
            all == log_events(records@),
            chunk_size > 0,
            0 <= start <= it.index(),
            current.len() < chunk_size,
            start + current.len() == it.index(),
            current@ == all.subrange(start, it.index() as int),
            chunked(all, chunk_size as nat) == batch_views(batches@) + chunked(
                all.skip(start),
                chunk_size as nat,
            ),
    {
        let ghost i = it.index() as int;
        let ghost done = batch_views(batches@);
        current.push(Event::Log(record));
        assert(current@ =~= all.subrange(start, i + 1));
        if current.len() == chunk_size {
            proof {
                let rest = all.skip(start);
                assert(rest.take(chunk_size as int) =~= current@);
                assert(rest.skip(chunk_size as int) =~= all.skip(i + 1));
                if rest.len() == chunk_size {
                    assert(rest =~= current@);
                    assert(chunked(all.skip(i + 1), chunk_size as nat) =~= Seq::empty());
                }
                assert(chunked(rest, chunk_size as nat) =~= seq![current@] + chunked(
                    all.skip(i + 1),
                    chunk_size as nat,
                ));
            }
            batches.push(current);
            current = Vec::new();
            proof {
                start = i + 1;
                assert(batch_views(batches@) =~= done.push(all.subrange(i + 1 - chunk_size, i + 1)));
                assert(current@ =~= all.subrange(start, i + 1));
                assert(chunked(all, chunk_size as nat) =~= batch_views(batches@) + chunked(
                    all.skip(start),
                    chunk_size as nat,
                ));
            }
        }
    }
    let ghost rest = all.skip(start);
    assert(rest =~= current@);
    if current.len() > 0 {
        let ghost done = batch_views(batches@);
        batches.push(current);
        assert(batch_views(batches@) =~= done.push(rest));
        assert(chunked(rest, chunk_size as nat) =~= seq![rest]);
    } else {
        assert(chunked(rest, chunk_size as nat) =~= Seq::empty());
    }
    assert(batch_views(batches@) =~= chunked(all, chunk_size as nat));
    batches
}

} // verus!
