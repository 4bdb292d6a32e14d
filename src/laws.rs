use crate::decoder::{byte_step, fresh_decoder, next_byte, DecoderModel};
use crate::dispatch::{
    held_after, holding_after, is_press_or_hold, poll_step, InputEvent, MouseAction, LEFT_BUTTON,
};
use crate::handler::{chunk_result, chunk_upto, hand_over};
use crate::query::{consume_result, response_events, CapabilityEvent};
use vstd::prelude::*;

verus! {

/// The chunks of a run, joined in order.
pub open spec fn joined(chunks: Seq<Seq<u8>>) -> Seq<u8>
    decreases chunks.len(),
{
    if chunks.len() == 0 {
        Seq::empty()
    } else {
        joined(chunks.drop_last()) + chunks.last()
    }
}

/// The bytes carried by handed-over instructions, in order.
pub open spec fn view_bytes(v: Seq<(InputEvent, Seq<u8>)>) -> Seq<u8>
    decreases v.len(),
{
    if v.len() == 0 {
        Seq::empty()
    } else {
        view_bytes(v.drop_last()) + v.last().1
    }
}

/// The bytes carried by the instructions of a run, in order.
pub open spec fn run_bytes(outs: Seq<Seq<(InputEvent, Seq<u8>)>>) -> Seq<u8>
    decreases outs.len(),
{
    if outs.len() == 0 {
        Seq::empty()
    } else {
        run_bytes(outs.drop_last()) + view_bytes(outs.last())
    }
}

/// A run of the input loop on user input, from the state `InputLoop::new`
/// gives: read `k` is `chunks[k]`, `InputLoop::on_chunk` hands over
/// `outs[k]` for it and leaves the decoder in `models[k + 1]` with
/// `pendings[k + 1]` pending.
pub open spec fn is_run(
    chunks: Seq<Seq<u8>>,
    outs: Seq<Seq<(InputEvent, Seq<u8>)>>,
    models: Seq<DecoderModel>,
    pendings: Seq<Seq<u8>>,
) -> bool {
    &&& outs.len() == chunks.len()
    &&& models.len() == chunks.len() + 1
    &&& pendings.len() == chunks.len() + 1
    &&& models[0] == fresh_decoder()
    &&& pendings[0] == Seq::<u8>::empty()
    &&& forall|k: int|
        0 <= k < chunks.len() ==> (outs[k], models[k + 1], pendings[k + 1]) == chunk_result(
            models[k],
            pendings[k],
            #[trigger] chunks[k],
        )
}

proof fn lemma_view_bytes_concat(a: Seq<(InputEvent, Seq<u8>)>, b: Seq<(InputEvent, Seq<u8>)>)
    ensures
        view_bytes(a + b) == view_bytes(a) + view_bytes(b),
    decreases b.len(),
{
    if b.len() == 0 {
        assert(a + b =~= a);
        assert(view_bytes(a) + view_bytes(b) =~= view_bytes(a));
    } else {
        lemma_view_bytes_concat(a, b.drop_last());
        assert((a + b).drop_last() =~= a + b.drop_last());
        assert(view_bytes(a + b) =~= view_bytes(a) + view_bytes(b));
    }
}

proof fn lemma_hand_over_bytes(p: Seq<u8>, evs: Seq<InputEvent>)
    requires
        evs.len() > 0,
    ensures
        view_bytes(hand_over(p, evs)) == p,
    decreases evs.len(),
{
    let h = hand_over(p, evs);
    if evs.len() == 1 {
        assert(h.drop_last() =~= Seq::<(InputEvent, Seq<u8>)>::empty());
        assert(view_bytes(h.drop_last()) == Seq::<u8>::empty());
        assert(h.last().1 == p);
        assert(Seq::<u8>::empty() + p =~= p);
    } else {
        lemma_hand_over_bytes(p, evs.drop_last());
        assert(h.drop_last() =~= hand_over(p, evs.drop_last()));
        assert(h.last().1 == Seq::<u8>::empty());
        assert(p + Seq::<u8>::empty() =~= p);
    }
}

proof fn lemma_chunk_bytes(m: DecoderModel, p: Seq<u8>, c: Seq<u8>, k: int)
    requires
        0 <= k <= c.len(),
    ensures
        view_bytes(chunk_upto(m, p, c, k).0) + chunk_upto(m, p, c, k).2 == p + c.subrange(0, k),
    decreases k,
{
    if k > 0 {
        lemma_chunk_bytes(m, p, c, k - 1);
        let (out, m1, p1) = chunk_upto(m, p, c, k - 1);
        let (m2, evs) = byte_step(m1, c[k - 1], next_byte(c, k - 1));
        let p2 = p1.push(c[k - 1]);
        assert(c.subrange(0, k) =~= c.subrange(0, k - 1).push(c[k - 1]));
        if evs.len() == 0 {
            assert(view_bytes(out) + p2 =~= (view_bytes(out) + p1).push(c[k - 1]));
        } else {
            lemma_view_bytes_concat(out, hand_over(p2, evs));
            lemma_hand_over_bytes(p2, evs);
            assert(view_bytes(out) + p2 + Seq::<u8>::empty() =~= (view_bytes(out) + p1).push(
                c[k - 1],
            ));
        }
    } else {
        assert(Seq::<(InputEvent, Seq<u8>)>::empty().len() == 0);
        assert(p + c.subrange(0, 0) =~= p);
        assert(Seq::<u8>::empty() + p =~= p);
    }
}

/// Every byte of user input is handed over exactly once: the bytes of all
/// instructions of a run, followed by what is still pending, are the bytes
/// read, in order.
pub proof fn lemma_bytes_handed_over_once(
    chunks: Seq<Seq<u8>>,
    outs: Seq<Seq<(InputEvent, Seq<u8>)>>,
    models: Seq<DecoderModel>,
    pendings: Seq<Seq<u8>>,
)
    requires
        is_run(chunks, outs, models, pendings),
    ensures
        run_bytes(outs) + pendings.last() == joined(chunks),
    decreases chunks.len(),
{
    let n = chunks.len() as int;
    if n > 0 {
        let c = chunks.drop_last();
        let o = outs.drop_last();
        let ms = models.drop_last();
        let p = pendings.drop_last();
        assert forall|k: int| 0 <= k < c.len() implies (o[k], ms[k + 1], p[k + 1]) == chunk_result(
            ms[k],
            p[k],
            #[trigger] c[k],
        ) by {
            assert(chunks[k] == c[k]);
        }
        lemma_bytes_handed_over_once(c, o, ms, p);
        assert((outs[n - 1], models[n], pendings[n]) == chunk_result(
            models[n - 1],
            pendings[n - 1],
            chunks[n - 1],
        ));
        lemma_chunk_bytes(models[n - 1], pendings[n - 1], chunks[n - 1], chunks[n - 1].len() as int);
        assert(chunks[n - 1].subrange(0, chunks[n - 1].len() as int) =~= chunks[n - 1]);
        let lastb = view_bytes(outs[n - 1]);
        assert(lastb + pendings[n] == pendings[n - 1] + chunks[n - 1]);
        assert(outs.drop_last() == o);
        assert(run_bytes(outs) == run_bytes(o) + lastb);
        assert(p.last() == pendings[n - 1]);
        assert(pendings.last() == pendings[n]);
        assert(chunks.last() == chunks[n - 1]);
        assert((run_bytes(o) + lastb) + pendings[n] =~= run_bytes(o) + (lastb + pendings[n]));
        assert(run_bytes(o) + (pendings[n - 1] + chunks[n - 1]) =~= (run_bytes(o) + pendings[n
            - 1]) + chunks[n - 1]);
        assert(run_bytes(outs) + pendings.last() =~= (run_bytes(o) + p.last()) + chunks.last());
    } else {
        assert(Seq::<u8>::empty() + pendings.last() =~= pendings.last());
    }
}

/// Two runs on the same reads hand over the same instructions, in the
/// same order.
pub proof fn lemma_runs_agree(
    chunks: Seq<Seq<u8>>,
    outs1: Seq<Seq<(InputEvent, Seq<u8>)>>,
    models1: Seq<DecoderModel>,
    pendings1: Seq<Seq<u8>>,
    outs2: Seq<Seq<(InputEvent, Seq<u8>)>>,
    models2: Seq<DecoderModel>,
    pendings2: Seq<Seq<u8>>,
)
    requires
        is_run(chunks, outs1, models1, pendings1),
        is_run(chunks, outs2, models2, pendings2),
    ensures
        outs1 == outs2,
{
    assert forall|k: int| 0 <= k < chunks.len() implies #[trigger] outs1[k] == outs2[k] by {
        lemma_states_agree(chunks, outs1, models1, pendings1, outs2, models2, pendings2, k);
        assert((outs1[k], models1[k + 1], pendings1[k + 1]) == chunk_result(
            models1[k],
            pendings1[k],
            chunks[k],
        ));
        assert((outs2[k], models2[k + 1], pendings2[k + 1]) == chunk_result(
            models2[k],
            pendings2[k],
            chunks[k],
        ));
    }
    assert(outs1 =~= outs2);
}

proof fn lemma_states_agree(
    chunks: Seq<Seq<u8>>,
    outs1: Seq<Seq<(InputEvent, Seq<u8>)>>,
    models1: Seq<DecoderModel>,
    pendings1: Seq<Seq<u8>>,
    outs2: Seq<Seq<(InputEvent, Seq<u8>)>>,
    models2: Seq<DecoderModel>,
    pendings2: Seq<Seq<u8>>,
    k: int,
)
    requires
        is_run(chunks, outs1, models1, pendings1),
        is_run(chunks, outs2, models2, pendings2),
        0 <= k <= chunks.len(),
    ensures
        models1[k] == models2[k] && pendings1[k] == pendings2[k],
    decreases k,
{
    if k > 0 {
        lemma_states_agree(chunks, outs1, models1, pendings1, outs2, models2, pendings2, k - 1);
        assert((outs1[k - 1], models1[k], pendings1[k]) == chunk_result(
            models1[k - 1],
            pendings1[k - 1],
            chunks[k - 1],
        ));
        assert((outs2[k - 1], models2[k], pendings2[k]) == chunk_result(
            models2[k - 1],
            pendings2[k - 1],
            chunks[k - 1],
        ));
    }
}

/// A complete capability response that arrives before the deadline, into
/// a freshly opened window, yields its events as one non-empty batch and
/// closes the window.
pub proof fn lemma_response_closes_window(deadline: u64, now: u64, bytes: Seq<u8>)
    requires
        now <= deadline,
        response_events(bytes) is Some,
    ensures
        consume_result(Some(deadline), Seq::empty(), bytes, now).0 == response_events(
            bytes,
        )->Some_0,
        consume_result(Some(deadline), Seq::empty(), bytes, now).0.len() > 0,
        consume_result(Some(deadline), Seq::empty(), bytes, now).1 is None,
        consume_result(Some(deadline), Seq::empty(), bytes, now).2 == Seq::<u8>::empty(),
{
    assert(Seq::<u8>::empty() + bytes =~= bytes);
}

/// Bytes that arrive after the deadline of a window still nominally open
/// are dropped: no events, and the window closes.
pub proof fn lemma_late_bytes_dropped(deadline: u64, buffer: Seq<u8>, bytes: Seq<u8>, now: u64)
    requires
        now > deadline,
    ensures
        consume_result(Some(deadline), buffer, bytes, now).0 == Seq::<CapabilityEvent>::empty(),
        consume_result(Some(deadline), buffer, bytes, now).1 is None,
        consume_result(Some(deadline), buffer, bytes, now).2 == Seq::<u8>::empty(),
{
}

/// A batch that ends with a left-button mouse press or drag leaves that
/// mouse action held, so the continuation phase re-emits it.
pub proof fn lemma_left_press_last_is_held(events: Seq<InputEvent>, m: MouseAction)
    requires
        events.len() > 0,
        events.last() == InputEvent::Mouse(m),
        m.buttons & LEFT_BUTTON != 0,
    ensures
        held_after(events) == Some(m),
        forall|h: bool| holding_after(h, events),
{
}

/// The first `j` polls of the continuation phase, `ready[i]` telling whether
/// input was ready at poll `i`: what was handed out and the action still
/// held.
pub open spec fn polls_upto(cont: Option<MouseAction>, pending: Seq<u8>, ready: Seq<bool>, j: int) -> (
    Seq<(InputEvent, Seq<u8>)>,
    Option<MouseAction>,
)
    decreases j,
{
    if j <= 0 {
        (Seq::empty(), cont)
    } else {
        let (out, c) = polls_upto(cont, pending, ready, j - 1);
        let (e, c2) = poll_step(c, pending, ready[j - 1]);
        match e {
            Some(v) => (out.push(v), c2),
            None => (out, c2),
        }
    }
}

/// With a mouse action `m` held, polls that find no input ready each hand
/// out `m` again with the pending bytes, one per poll; once a poll finds
/// input ready the phase ends, and no later poll hands out anything.
pub proof fn lemma_polls_repeat_until_ready(
    m: MouseAction,
    pending: Seq<u8>,
    ready: Seq<bool>,
    k: int,
    j: int,
)
    requires
        0 <= k < ready.len(),
        forall|i: int| 0 <= i < k ==> !#[trigger] ready[i],
        ready[k],
        0 <= j <= ready.len(),
    ensures
        j <= k ==> polls_upto(Some(m), pending, ready, j) == (
            Seq::new(j as nat, |i: int| (InputEvent::Mouse(m), pending)),
            Some(m),
        ),
        j > k ==> polls_upto(Some(m), pending, ready, j) == (
            Seq::new(k as nat, |i: int| (InputEvent::Mouse(m), pending)),
            None::<MouseAction>,
        ),
    decreases j,
{
    if j > 0 {
        lemma_polls_repeat_until_ready(m, pending, ready, k, j - 1);
        if j <= k {
            assert(!ready[j - 1]);
            assert(Seq::new((j - 1) as nat, |i: int| (InputEvent::Mouse(m), pending)).push(
                (InputEvent::Mouse(m), pending),
            ) =~= Seq::new(j as nat, |i: int| (InputEvent::Mouse(m), pending)));
        }
    } else {
        assert(Seq::new(0, |i: int| (InputEvent::Mouse(m), pending)) =~= Seq::<
            (InputEvent, Seq<u8>),
        >::empty());
    }
}

/// A left-button press followed in the same batch by a key press: the
/// press sets the hold flag, the key clears it, and no continuation starts.
pub proof fn lemma_key_after_press_releases(
    h: bool,
    m: MouseAction,
    k: termwiz::input::KeyEvent,
)
    requires
        m.buttons & LEFT_BUTTON != 0,
    ensures
        holding_after(h, seq![InputEvent::Mouse(m)]),
        !holding_after(h, seq![InputEvent::Mouse(m), InputEvent::KeyPress(k)]),
        held_after(seq![InputEvent::Mouse(m), InputEvent::KeyPress(k)]) is None,
{
    assert(is_press_or_hold(InputEvent::Mouse(m)));
    assert(!is_press_or_hold(InputEvent::KeyPress(k)));
}

} // verus!
