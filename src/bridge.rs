use vstd::prelude::*;
use crate::error::CompletionError;
use crate::sse::{new_payloads, stream_done, SseDecoder};
use crate::types::ChatCompletionStreamResponse;

verus! {

/// What the connection handed to the task that reads it.
pub enum WireEvent {
    /// The next bytes of the response body.
    Bytes(Vec<u8>),
    /// Reading failed; the text describes the cause.
    Failed(String),
    /// The connection closed.
    Ended,
}

/// One item for the consumer, before its payload is parsed.
pub enum Delivery {
    /// The payload of one event, to be parsed as a fragment.
    Payload(Vec<u8>),
    /// A failure that ends the stream.
    Failure(CompletionError),
}

/// What the reading task does after one wire event: push `deliveries` to
/// the consumer in order, then read on only if `keep_reading`.
pub struct ProducerStep {
    pub deliveries: Vec<Delivery>,
    pub keep_reading: bool,
}

/// Whether `ds` are exactly the payloads `ps`, in order.
pub open spec fn delivers_payloads(ds: Seq<Delivery>, ps: Seq<Seq<u8>>) -> bool {
    &&& ds.len() == ps.len()
    &&& forall|i: int|
        0 <= i < ds.len() ==> (#[trigger] ds[i] is Payload && ds[i]->Payload_0@ == ps[i])
}

/// Whether `ds` is the single failure `e`.
pub open spec fn delivers_failure(ds: Seq<Delivery>, e: CompletionError) -> bool {
    ds.len() == 1 && ds[0] is Failure && ds[0]->Failure_0 == e
}

/// The decisions of the task that reads a streamed response and pushes its
/// items to one consumer: it decodes the bytes, stops at the sentinel, turns
/// a read failure or an early close into one final failure, and stops for
/// good once the consumer is gone.
pub struct StreamProducer {
    decoder: SseDecoder,
    stopped: bool,
}

impl StreamProducer {
    pub closed spec fn wf(&self) -> bool {
        &&& self.decoder.wf()
        &&& stream_done(self.decoder@) ==> self.stopped
    }

    /// The bytes decoded so far.
    pub closed spec fn received(&self) -> Seq<u8> {
        self.decoder@
    }

    /// Whether the task has stopped reading.
    pub closed spec fn stopped(&self) -> bool {
        self.stopped
    }

    /// A task that has read nothing yet.
    pub fn new() -> (p: StreamProducer)
        ensures
            p.wf(),
            p.received() == Seq::<u8>::empty(),
            !p.stopped(),
    {
        let decoder = SseDecoder::new();
        proof {
            crate::sse::lemma_empty_not_done();
        }
        StreamProducer { decoder, stopped: false }
    }

    /// Whether the task has stopped reading: the sentinel came, the wire
    /// failed or closed, or the consumer is gone.
    pub fn is_stopped(&self) -> (r: bool)
        ensures
            r == self.stopped(),
    {
        self.stopped
    }

    /// Decides what follows one wire event.
    pub fn on_event(&mut self, event: WireEvent) -> (step: ProducerStep)
        requires
            old(self).wf(),
        ensures
            final(self).wf(),
            step.keep_reading == !final(self).stopped(),
            old(self).stopped() ==> step.deliveries@.len() == 0 && final(self).stopped()
                && final(self).received() == old(self).received(),
            !old(self).stopped() ==> match event {
                WireEvent::Bytes(b) => {
                    &&& final(self).received() == old(self).received() + b@
                    &&& delivers_payloads(
                        step.deliveries@,
                        new_payloads(old(self).received(), b@),
                    )
                    &&& final(self).stopped() == stream_done(final(self).received())
                },
                WireEvent::Failed(m) => {
                    &&& final(self).received() == old(self).received()
                    &&& step.deliveries@.len() == 1
                    &&& step.deliveries@[0] is Failure
                    &&& step.deliveries@[0]->Failure_0 is StreamRead
                    &&& step.deliveries@[0]->Failure_0->StreamRead_message@ == m@
                    &&& final(self).stopped()
                },
                WireEvent::Ended => {
                    &&& final(self).received() == old(self).received()
                    &&& delivers_failure(step.deliveries@, CompletionError::StreamClosed)
                    &&& final(self).stopped()
                },
            },
    {
        let mut deliveries: Vec<Delivery> = Vec::new();
        if self.stopped {
            return ProducerStep { deliveries, keep_reading: false };
        }
        match event {
            WireEvent::Bytes(b) => {
                let mut payloads = self.decoder.feed(b.as_slice());
                let ghost all = payloads@;
                while payloads.len() > 0
                    invariant
                        payloads@ == all.take(payloads@.len() as int),
                        payloads@.len() <= all.len(),
                        deliveries@.len() + payloads@.len() == all.len(),
                        forall|j: int|
                            0 <= j < deliveries@.len() ==> (#[trigger] deliveries@[j] is Payload
                                && deliveries@[j]->Payload_0@ == all[payloads@.len() + j]@),
                    decreases payloads@.len(),
                {
                    let ghost k = payloads@.len() - 1;
                    let p = payloads.pop().unwrap();
                    assert(p == all[k]);
                    assert(payloads@ =~= all.take(k));
                    deliveries.insert(0, Delivery::Payload(p));
                }
                proof {
                    let ps = new_payloads(old(self).received(), b@);
                    assert forall|j: int| 0 <= j < deliveries@.len() implies (
                    #[trigger] deliveries@[j] is Payload && deliveries@[j]->Payload_0@ == ps[j]) by {
                        assert(ps[j] == crate::sse::byte_views(all)[j]);
                    }
                }
                let done = self.decoder.is_done();
                self.stopped = done;
                ProducerStep { deliveries, keep_reading: !done }
            },
            WireEvent::Failed(m) => {
                self.stopped = true;
                deliveries.push(Delivery::Failure(CompletionError::StreamRead { message: m }));
                ProducerStep { deliveries, keep_reading: false }
            },
            WireEvent::Ended => {
                self.stopped = true;
                deliveries.push(Delivery::Failure(CompletionError::StreamClosed));
                ProducerStep { deliveries, keep_reading: false }
            },
        }
    }

    /// The consumer is gone: nothing more is read or pushed.
    pub fn on_consumer_gone(&mut self)
        requires
            old(self).wf(),
        ensures
            final(self).wf(),
            final(self).stopped(),
            final(self).received() == old(self).received(),
    {
        self.stopped = true;
    }
}

/// The item that the consumer receives for one payload, given what parsing
/// it as a fragment gave: the fragment, or one decode failure that carries
/// the payload (as text) and the cause, in place of that fragment.
pub fn fragment_item(payload: String, parsed: Result<ChatCompletionStreamResponse, String>) -> (r:
    Result<ChatCompletionStreamResponse, CompletionError>)
    ensures
        parsed is Ok ==> r is Ok && r->Ok_0 == parsed->Ok_0,
        parsed is Err ==> r is Err && r->Err_0 is ChunkDecode && r->Err_0->ChunkDecode_data@
            == payload@ && r->Err_0->ChunkDecode_cause@ == parsed->Err_0@,
{
    match parsed {
        Ok(fragment) => Ok(fragment),
        Err(cause) => Err(CompletionError::ChunkDecode { data: payload, cause }),
    }
}

} // verus!
