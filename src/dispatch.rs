use vstd::prelude::*;

verus! {

/// Bit of the left button in `MouseAction::buttons`.
pub const LEFT_BUTTON: u8 = 2;

/// Bit of the right button in `MouseAction::buttons`.
pub const RIGHT_BUTTON: u8 = 4;

/// Bit of the middle button in `MouseAction::buttons`.
pub const MIDDLE_BUTTON: u8 = 8;

/// A mouse report: the cell it points at, the set of buttons held down
/// (a bit set over `LEFT_BUTTON`, `RIGHT_BUTTON`, `MIDDLE_BUTTON` and the
/// wheel bits) and the keyboard modifiers held with it.
#[derive(Clone, Copy, Debug, PartialEq, Eq)]
pub struct MouseAction {
    pub x: u16,
    pub y: u16,
    pub buttons: u8,
    pub modifiers: u16,
}

/// One decoded unit of user input.
#[derive(Debug)]
pub enum InputEvent {
    KeyPress(termwiz::input::KeyEvent),
    Mouse(MouseAction),
    Paste(String),
    Unknown,
}

/// What goes downstream: one event with the raw bytes attributed to it.
#[derive(Debug)]
pub struct DispatchInstruction {
    pub event: InputEvent,
    pub bytes: Vec<u8>,
}

/// A mouse press or drag with the left or right button down.
pub open spec fn is_press_or_hold(e: InputEvent) -> bool {
    match e {
        InputEvent::Mouse(m) => m.buttons & LEFT_BUTTON != 0 || m.buttons & RIGHT_BUTTON != 0,
        _ => false,
    }
}

/// Whether `input_event` is a mouse press or drag with the left or right button.
pub fn is_mouse_press_or_hold(input_event: &InputEvent) -> (r: bool)
    ensures
        r == is_press_or_hold(*input_event),
{
    match input_event {
        InputEvent::Mouse(m) => m.buttons & LEFT_BUTTON != 0 || m.buttons & RIGHT_BUTTON != 0,
        _ => false,
    }
}

/// The bytes that the `i`-th event decoded from one piece of input carries:
/// the first takes every byte fed since the previous event, that is the
/// bytes used up for it; the others came out of the same byte and carry
/// nothing.
pub open spec fn attributed(pending: Seq<u8>, i: int) -> Seq<u8> {
    if i == 0 {
        pending
    } else {
        Seq::empty()
    }
}

/// The mouse action that a batch leaves held: the last event, where it is a
/// press or drag with the left or right button.
pub open spec fn held_after(events: Seq<InputEvent>) -> Option<MouseAction> {
    if events.len() > 0 && is_press_or_hold(events.last()) {
        Some(events.last()->Mouse_0)
    } else {
        None
    }
}

/// The hold flag after a batch: set by a qualifying event, cleared by any
/// other, unchanged by an empty batch.
pub open spec fn holding_after(holding: bool, events: Seq<InputEvent>) -> bool {
    if events.len() > 0 {
        is_press_or_hold(events.last())
    } else {
        holding
    }
}

/// The bytes carried by a sequence of instructions, in order.
pub open spec fn bytes_of(instrs: Seq<DispatchInstruction>) -> Seq<u8>
    decreases instrs.len(),
{
    if instrs.len() == 0 {
        Seq::empty()
    } else {
        bytes_of(instrs.drop_last()) + instrs.last().bytes@
    }
}

/// The events of a sequence of instructions, in order.
pub open spec fn events_of(instrs: Seq<DispatchInstruction>) -> Seq<InputEvent> {
    instrs.map_values(|d: DispatchInstruction| d.event)
}

pub proof fn lemma_bytes_of_concat(a: Seq<DispatchInstruction>, b: Seq<DispatchInstruction>)
    ensures
        bytes_of(a + b) == bytes_of(a) + bytes_of(b),
    decreases b.len(),
{
    if b.len() == 0 {
        assert(a + b =~= a);
        assert(bytes_of(a) + bytes_of(b) =~= bytes_of(a));
    } else {
        lemma_bytes_of_concat(a, b.drop_last());
        assert((a + b).drop_last() =~= a + b.drop_last());
        assert(bytes_of(a + b) =~= bytes_of(a) + bytes_of(b));
    }
}

pub proof fn lemma_events_of_concat(a: Seq<DispatchInstruction>, b: Seq<DispatchInstruction>)
    ensures
        events_of(a + b) == events_of(a) + events_of(b),
{
    assert(events_of(a + b) =~= events_of(a) + events_of(b));
}

/// `r` hands over a batch of decoded `events`, in order, one instruction
/// each, the first carrying all of `pending`.
pub open spec fn hands_over(pending: Seq<u8>, events: Seq<InputEvent>, r: Seq<DispatchInstruction>) -> bool {
    r.len() == events.len() && forall|i: int|
        0 <= i < r.len() ==> (#[trigger] r[i]).event == events[i] && r[i].bytes@ == attributed(
            pending,
            i,
        )
}

/// One turn of the input loop on user input: from the pending bytes, a
/// chunk and the events decoded from it, the instructions `out` and the
/// bytes left pending.
pub open spec fn dispatch_step(
    pending: Seq<u8>,
    chunk: Seq<u8>,
    events: Seq<InputEvent>,
    out: Seq<DispatchInstruction>,
    next: Seq<u8>,
) -> bool {
    &&& hands_over(pending + chunk, events, out)
    &&& next == if events.len() == 0 {
        pending + chunk
    } else {
        Seq::empty()
    }
    &&& bytes_of(out) + next == pending + chunk
}

/// What goes downstream for an optional instruction: its event and bytes.
pub open spec fn opt_view(r: Option<DispatchInstruction>) -> Option<(InputEvent, Seq<u8>)> {
    match r {
        Some(d) => Some((d.event, d.bytes@)),
        None => None,
    }
}

/// One turn of the continuation phase on the held action `cont`, with
/// `pending` bytes: what is handed out and the action still held.
pub open spec fn poll_step(cont: Option<MouseAction>, pending: Seq<u8>, ready: bool) -> (Option<
    (InputEvent, Seq<u8>),
>, Option<MouseAction>) {
    if ready {
        (None, None)
    } else {
        match cont {
            Some(m) => (Some((InputEvent::Mouse(m), pending)), cont),
            None => (None, None),
        }
    }
}

/// The user-input side of the input loop: bytes not yet attributed to an
/// event, the hold flag, and the mouse action being re-emitted while a
/// button stays down and no new input is ready.
pub struct InputDispatch {
    pub pending: Vec<u8>,
    pub holding_mouse: bool,
    pub continuation: Option<MouseAction>,
}

impl InputDispatch {
    /// Nothing pending, no button held.
    pub fn new() -> (r: InputDispatch)
        ensures
            r.pending@ == Seq::<u8>::empty(),
            !r.holding_mouse,
            r.continuation is None,
    {
        InputDispatch { pending: Vec::new(), holding_mouse: false, continuation: None }
    }

    /// Takes one piece of input fed to the decoder and the events that came
    /// out of it. The piece joins the pending bytes; each event becomes one
    /// instruction, in order, the first carrying all pending bytes. Where the
    /// last event is a left or right mouse press or drag, the continuation
    /// phase starts for it; a piece that gave no event leaves it as it was.
    pub fn dispatch_events(&mut self, chunk: &[u8], events: Vec<InputEvent>) -> (r: Vec<
        DispatchInstruction,
    >)
        requires
            old(self).pending@.len() + chunk@.len() <= usize::MAX,
        ensures
            dispatch_step(old(self).pending@, chunk@, events@, r@, final(self).pending@),
            final(self).holding_mouse == holding_after(old(self).holding_mouse, events@),
            final(self).continuation == if events@.len() == 0 {
                old(self).continuation
            } else {
                held_after(events@)
            },
            events_of(r@) == events@,
    {
        let mut k: usize = 0;
        while k < chunk.len()
            invariant
                k <= chunk@.len(),
                self.pending@ == old(self).pending@ + chunk@.subrange(0, k as int),
                old(self).pending@.len() + chunk@.len() <= usize::MAX,
                self.holding_mouse == old(self).holding_mouse,
                self.continuation == old(self).continuation,
            decreases chunk@.len() - k,
        {
            self.pending.push(chunk[k]);
            proof {
                assert(chunk@.subrange(0, k + 1) == chunk@.subrange(0, k as int).push(chunk@[k as int]));
            }
            k = k + 1;
        }
        assert(chunk@.subrange(0, chunk@.len() as int) == chunk@);
        let ghost all = self.pending@;
        let ghost evs = events@;
        let n = events.len();
        let mut rest = events;
        let mut out: Vec<DispatchInstruction> = Vec::new();
        let mut held: Option<MouseAction> = None;
        let mut i: usize = 0;
        while i < n
            invariant
                n == evs.len(),
                i <= n,
                rest@ == evs.subrange(i as int, n as int),
                out@.len() == i,
                forall|j: int|
                    0 <= j < i ==> #[trigger] out@[j].event == evs[j] && out@[j].bytes@
                        == attributed(all, j),
                i == 0 ==> self.pending@ == all,
                i > 0 ==> self.pending@ == Seq::<u8>::empty(),
                i == 0 ==> self.holding_mouse == old(self).holding_mouse,
                i > 0 ==> self.holding_mouse == is_press_or_hold(evs[i - 1]),
                i == 0 ==> held is None,
                self.continuation == old(self).continuation,
                i > 0 ==> held == held_after(evs.subrange(0, i as int)),
                bytes_of(out@) + self.pending@ == all,
            decreases n - i,
        {
            let input_event = rest.remove(0);
            assert(input_event == evs[i as int]);
            let qualifies = is_mouse_press_or_hold(&input_event);
            self.holding_mouse = qualifies;
            held = if qualifies {
                match &input_event {
                    InputEvent::Mouse(m) => Some(*m),
                    _ => None,
                }
            } else {
                None
            };
            let mut bytes: Vec<u8> = Vec::new();
            std::mem::swap(&mut bytes, &mut self.pending);
            let ghost before = out@;
            out.push(DispatchInstruction { event: input_event, bytes });
            proof {
                assert(out@.drop_last() == before);
                assert(evs.subrange(0, i + 1).last() == evs[i as int]);
                assert(bytes_of(out@) == bytes_of(before) + out@.last().bytes@);
            }
            i = i + 1;
        }
        proof {
            assert(rest@.len() == 0);
            if n > 0 {
                assert(evs.subrange(0, n as int) == evs);
                assert(evs.last() == evs[n - 1]);
            }
            assert(events_of(out@) =~= evs);
        }
        if n > 0 {
            self.continuation = held;
        }
        out
    }

    /// One turn of the continuation phase, given whether new input is ready.
    /// While no input is ready, the held mouse action is handed out again with
    /// a copy of the pending bytes; once input is ready the phase ends and
    /// nothing is handed out.
    pub fn poll_hold(&mut self, input_ready: bool) -> (r: Option<DispatchInstruction>)
        ensures
            final(self).pending@ == old(self).pending@,
            final(self).holding_mouse == old(self).holding_mouse,
            input_ready ==> r is None && final(self).continuation is None,
            !input_ready ==> final(self).continuation == old(self).continuation,
            !input_ready && old(self).continuation is Some ==> r is Some && r->Some_0.event
                == InputEvent::Mouse(old(self).continuation->Some_0) && r->Some_0.bytes@
                == old(self).pending@,
            old(self).continuation is None ==> r is None,
            (opt_view(r), final(self).continuation) == poll_step(
                old(self).continuation,
                old(self).pending@,
                input_ready,
            ),
    {
        if input_ready {
            self.continuation = None;
            None
        } else {
            match self.continuation {
                Some(m) => {
                    let bytes = self.pending.clone();
                    Some(DispatchInstruction { event: InputEvent::Mouse(m), bytes })
                },
                None => None,
            }
        }
    }
}

} // verus!
