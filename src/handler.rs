use crate::decoder::{byte_step, fresh_decoder, next_byte, Decoder, DecoderModel};
use crate::dispatch::{
    attributed, bytes_of, opt_view, poll_step, events_of, held_after, holding_after, lemma_bytes_of_concat, lemma_events_of_concat,
    DispatchInstruction, InputDispatch, InputEvent,
};
use crate::query::{consume_result, CapabilityEvent, QueryState};
use vstd::prelude::*;

verus! {

/// What goes downstream for an instruction: its event and its bytes.
pub open spec fn views_of(r: Seq<DispatchInstruction>) -> Seq<(InputEvent, Seq<u8>)> {
    r.map_values(|d: DispatchInstruction| (d.event, d.bytes@))
}

/// A batch of events handed over with the bytes `pending` taken in for
/// them: the first event carries them all, the others, which came out of
/// the same bytes, nothing.
pub open spec fn hand_over(pending: Seq<u8>, events: Seq<InputEvent>) -> Seq<(InputEvent, Seq<u8>)> {
    Seq::new(events.len(), |i: int| (events[i], attributed(pending, i)))
}

/// The first `k` bytes of a read of user input `chunk`, taken in one by one
/// by a decoder in state `m` with `pending` bytes not yet attributed: what is
/// handed over, the decoder's state, and the bytes still pending. Each
/// instruction carries the bytes taken in since the instruction before it.
pub open spec fn chunk_upto(m: DecoderModel, pending: Seq<u8>, chunk: Seq<u8>, k: int) -> (
    Seq<(InputEvent, Seq<u8>)>,
    DecoderModel,
    Seq<u8>,
)
    decreases k,
{
    if k <= 0 {
        (Seq::empty(), m, pending)
    } else {
        let (out, m1, p1) = chunk_upto(m, pending, chunk, k - 1);
        let (m2, evs) = byte_step(m1, chunk[k - 1], next_byte(chunk, k - 1));
        let p2 = p1.push(chunk[k - 1]);
        if evs.len() == 0 {
            (out, m2, p2)
        } else {
            (out + hand_over(p2, evs), m2, Seq::empty())
        }
    }
}

/// What a whole read of user input does: `chunk_upto` over all its bytes.
pub open spec fn chunk_result(m: DecoderModel, pending: Seq<u8>, chunk: Seq<u8>) -> (
    Seq<(InputEvent, Seq<u8>)>,
    DecoderModel,
    Seq<u8>,
) {
    chunk_upto(m, pending, chunk, chunk.len() as int)
}

/// Where one chunk of input went.
#[derive(Debug)]
pub enum Routed {
    /// The chunk went to the open query window; these are the events of the
    /// response it completed, if any.
    Response(Vec<CapabilityEvent>),
    /// The chunk was user input; these are the instructions to send on.
    Input(Vec<DispatchInstruction>),
}

/// The state of the input loop that one thread owns: the decoder and the
/// user-input side. The capability query state is kept apart, as a resize
/// notifier may reopen it.
pub struct InputLoop {
    pub input: InputDispatch,
    pub decoder: Decoder,
}

impl InputLoop {
    pub fn new() -> (r: InputLoop)
        ensures
            r.decoder.wf(),
            r.decoder.model() == fresh_decoder(),
            r.input.pending@ == Seq::<u8>::empty(),
            !r.input.holding_mouse,
            r.input.continuation is None,
    {
        InputLoop { input: InputDispatch::new(), decoder: Decoder::new() }
    }

    /// Routes one chunk read from the input. While a query window is open,
    /// nominally, the chunk goes to the query state (which drops it when the
    /// deadline has passed). Otherwise it is fed to the decoder one byte at a
    /// time, and the events that each byte brings out are handed over, the
    /// first of them with the bytes taken in since the previous event.
    pub fn on_chunk(&mut self, query: &mut QueryState, chunk: &[u8], now: u64) -> (r: Routed)
        requires
            old(self).decoder.wf(),
            old(query).buffer@.len() + chunk@.len() <= usize::MAX,
            old(self).input.pending@.len() + chunk@.len() <= usize::MAX,
        ensures
            final(self).decoder.wf(),
            old(query).deadline is Some ==> {
                &&& r is Response
                &&& r->Response_0@ == consume_result(
                    old(query).deadline,
                    old(query).buffer@,
                    chunk@,
                    now,
                ).0
                &&& final(query).deadline == consume_result(
                    old(query).deadline,
                    old(query).buffer@,
                    chunk@,
                    now,
                ).1
                &&& final(query).buffer@ == consume_result(
                    old(query).deadline,
                    old(query).buffer@,
                    chunk@,
                    now,
                ).2
                &&& final(self).input.pending@ == old(self).input.pending@
                &&& final(self).input.holding_mouse == old(self).input.holding_mouse
                &&& final(self).input.continuation == old(self).input.continuation
                &&& final(self).decoder.model() == old(self).decoder.model()
            },
            old(query).deadline is None ==> {
                &&& r is Input
                &&& views_of(r->Input_0@) == chunk_result(
                    old(self).decoder.model(),
                    old(self).input.pending@,
                    chunk@,
                ).0
                &&& final(self).decoder.model() == chunk_result(
                    old(self).decoder.model(),
                    old(self).input.pending@,
                    chunk@,
                ).1
                &&& final(self).input.pending@ == chunk_result(
                    old(self).decoder.model(),
                    old(self).input.pending@,
                    chunk@,
                ).2
                &&& final(query).deadline is None
                &&& final(query).buffer@ == old(query).buffer@
                &&& bytes_of(r->Input_0@) + final(self).input.pending@ == old(
                    self,
                ).input.pending@ + chunk@
                &&& final(self).input.holding_mouse == holding_after(
                    old(self).input.holding_mouse,
                    events_of(r->Input_0@),
                )
                &&& final(self).input.continuation == held_after(events_of(r->Input_0@))
            },
    {
        if query.deadline.is_some() {
            let events = query.consume(chunk, now);
            return Routed::Response(events);
        }
        self.input.continuation = None;
        let mut out: Vec<DispatchInstruction> = Vec::new();
        let mut k: usize = 0;
        while k < chunk.len()
            invariant
                self.decoder.wf(),
                k <= chunk@.len(),
                query.deadline is None,
                query.buffer@ == old(query).buffer@,
                old(self).input.pending@.len() + chunk@.len() <= usize::MAX,
                bytes_of(out@) + self.input.pending@ == old(self).input.pending@ + chunk@.subrange(
                    0,
                    k as int,
                ),
                self.input.holding_mouse == holding_after(
                    old(self).input.holding_mouse,
                    events_of(out@),
                ),
                self.input.continuation == held_after(events_of(out@)),
                (views_of(out@), self.decoder.model(), self.input.pending@) == chunk_upto(
                    old(self).decoder.model(),
                    old(self).input.pending@,
                    chunk@,
                    k as int,
                ),
            decreases chunk@.len() - k,
        {
            let next = if k + 1 < chunk.len() {
                Some(chunk[k + 1])
            } else {
                None
            };
            let events = self.decoder.decode_byte(chunk[k], next);
            let ghost evs = events@;
            let piece: Vec<u8> = vec![chunk[k]];
            assert(piece@ =~= seq![chunk@[k as int]]);
            let ghost before = out@;
            let ghost pending_before = self.input.pending@;
            assert((bytes_of(before) + pending_before).len() == old(self).input.pending@.len() + k);
            let mut part = self.input.dispatch_events(piece.as_slice(), events);
            let ghost added = part@;
            out.append(&mut part);
            proof {
                assert(out@ == before + added);
                assert(pending_before + piece@ =~= pending_before.push(chunk@[k as int]));
                assert(views_of(out@) =~= views_of(before) + views_of(added));
                assert(views_of(added) =~= hand_over(pending_before.push(chunk@[k as int]), evs));
                lemma_bytes_of_concat(before, added);
                lemma_events_of_concat(before, added);
                assert(chunk@.subrange(0, k + 1) =~= chunk@.subrange(0, k as int) + piece@);
                assert(bytes_of(added) + self.input.pending@ == pending_before + piece@);
                assert(bytes_of(out@) + self.input.pending@ =~= (bytes_of(before) + pending_before)
                    + piece@);
                if added.len() > 0 {
                    assert((events_of(before) + events_of(added)).last() == events_of(added).last());
                } else {
                    assert(events_of(before) + events_of(added) =~= events_of(before));
                }
            }
            k = k + 1;
        }
        assert(chunk@.subrange(0, chunk@.len() as int) == chunk@);
        Routed::Input(out)
    }

    /// One turn of the mouse-hold continuation, given whether new input is
    /// ready: the held mouse action again, while none is.
    pub fn poll_hold(&mut self, input_ready: bool) -> (r: Option<DispatchInstruction>)
        ensures
            final(self).input.pending@ == old(self).input.pending@,
            final(self).input.holding_mouse == old(self).input.holding_mouse,
            input_ready ==> r is None && final(self).input.continuation is None,
            !input_ready ==> final(self).input.continuation == old(self).input.continuation,
            !input_ready && old(self).input.continuation is Some ==> r is Some
                && r->Some_0.event == InputEvent::Mouse(
                old(self).input.continuation->Some_0,
            ) && r->Some_0.bytes@ == old(self).input.pending@,
            old(self).input.continuation is None ==> r is None,
            (opt_view(r), final(self).input.continuation) == poll_step(
                old(self).input.continuation,
                old(self).input.pending@,
                input_ready,
            ),
    {
        self.input.poll_hold(input_ready)
    }
}

} // verus!
