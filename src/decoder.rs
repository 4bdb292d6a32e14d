use crate::dispatch::{InputEvent, MouseAction};
use vstd::prelude::*;

verus! {

#[verifier::external_type_specification]
#[verifier::external_body]
pub struct ExKeyEvent(termwiz::input::KeyEvent);

#[verifier::external_type_specification]
#[verifier::external_body]
pub struct ExInputParser(termwiz::input::InputParser);

pub open spec fn is_cont(b: u8) -> bool {
    0x80 <= b <= 0xBF
}

/// Whether `b` may follow the lead byte `lead` in a well-formed UTF-8
/// sequence (no overlong forms, no surrogates, nothing past U+10FFFF).
pub open spec fn second_ok(lead: u8, b: u8) -> bool {
    if lead == 0xE0 {
        0xA0 <= b <= 0xBF
    } else if lead == 0xED {
        0x80 <= b <= 0x9F
    } else if lead == 0xF0 {
        0x90 <= b <= 0xBF
    } else if lead == 0xF4 {
        0x80 <= b <= 0x8F
    } else {
        is_cont(b)
    }
}

/// The length of the UTF-8 sequence that `lead` starts, or 0 where no
/// well-formed sequence starts with it.
pub open spec fn seq_len(lead: u8) -> nat {
    if lead < 0x80 {
        1
    } else if 0xC2 <= lead <= 0xDF {
        2
    } else if 0xE0 <= lead <= 0xEF {
        3
    } else if 0xF0 <= lead <= 0xF4 {
        4
    } else {
        0
    }
}

/// `s` is a proper prefix of a well-formed UTF-8 encoded character, possibly
/// empty.
pub open spec fn is_char_prefix(s: Seq<u8>) -> bool {
    s.len() == 0 || (s.len() < seq_len(s[0]) && (s.len() >= 2 ==> second_ok(s[0], s[1])) && (
    s.len() >= 3 ==> is_cont(s[2])))
}

/// `s` is exactly one well-formed UTF-8 encoded character.
pub open spec fn is_utf8_char(s: Seq<u8>) -> bool {
    s.len() > 0 && s.len() == seq_len(s[0]) && (s.len() >= 2 ==> second_ok(s[0], s[1])) && (
    s.len() >= 3 ==> is_cont(s[2])) && (s.len() >= 4 ==> is_cont(s[3]))
}

/// `s` is a run of well-formed UTF-8 encoded characters.
pub open spec fn is_utf8(s: Seq<u8>) -> bool
    decreases s.len(),
{
    if s.len() == 0 {
        true
    } else {
        ||| (is_utf8_char(s.subrange(s.len() - 1, s.len() as int)) && is_utf8(
            s.subrange(0, s.len() - 1),
        ))
        ||| (s.len() >= 2 && is_utf8_char(s.subrange(s.len() - 2, s.len() as int)) && is_utf8(
            s.subrange(0, s.len() - 2),
        ))
        ||| (s.len() >= 3 && is_utf8_char(s.subrange(s.len() - 3, s.len() as int)) && is_utf8(
            s.subrange(0, s.len() - 3),
        ))
        ||| (s.len() >= 4 && is_utf8_char(s.subrange(s.len() - 4, s.len() as int)) && is_utf8(
            s.subrange(0, s.len() - 4),
        ))
    }
}

pub proof fn lemma_utf8_push_char(s: Seq<u8>, c: Seq<u8>)
    requires
        is_utf8(s),
        is_utf8_char(c),
    ensures
        is_utf8(s + c),
{
    let t = s + c;
    let n = t.len() as int;
    let k = c.len() as int;
    assert(t.subrange(n - k, n) =~= c);
    assert(t.subrange(0, n - k) =~= s);
}

/// The encoding of U+FFFD, fed in place of bytes that form no character.
pub open spec fn replacement() -> Seq<u8> {
    seq![0xEFu8, 0xBFu8, 0xBDu8]
}

fn check_second(lead: u8, b: u8) -> (r: bool)
    ensures
        r == second_ok(lead, b),
{
    if lead == 0xE0 {
        0xA0 <= b && b <= 0xBF
    } else if lead == 0xED {
        0x80 <= b && b <= 0x9F
    } else if lead == 0xF0 {
        0x90 <= b && b <= 0xBF
    } else if lead == 0xF4 {
        0x80 <= b && b <= 0x8F
    } else {
        0x80 <= b && b <= 0xBF
    }
}

fn lead_len(lead: u8) -> (r: usize)
    ensures
        r as nat == seq_len(lead),
{
    if lead < 0x80 {
        1
    } else if 0xC2 <= lead && lead <= 0xDF {
        2
    } else if 0xE0 <= lead && lead <= 0xEF {
        3
    } else if 0xF0 <= lead && lead <= 0xF4 {
        4
    } else {
        0
    }
}

/// Whether `s` is one whole character, a proper prefix of one, or neither.
fn classify(s: &Vec<u8>) -> (r: (bool, bool))
    ensures
        r.0 == is_utf8_char(s@),
        r.1 == is_char_prefix(s@),
{
    if s.len() == 0 {
        return (false, true);
    }
    let n = lead_len(s[0]);
    let second = s.len() < 2 || check_second(s[0], s[1]);
    let third = s.len() < 3 || (0x80 <= s[2] && s[2] <= 0xBF);
    let fourth = s.len() < 4 || (0x80 <= s[3] && s[3] <= 0xBF);
    (s.len() == n && second && third && fourth, s.len() < n && second && third)
}

/// What a parser has been fed so far: each slice of bytes with the
/// `maybe_more` flag it came with, in order.
pub uninterp spec fn parser_fed(p: termwiz::input::InputParser) -> Seq<(Seq<u8>, bool)>;

/// The events that a parser which has been fed `fed` brings out of `bytes`.
pub uninterp spec fn parsed(fed: Seq<(Seq<u8>, bool)>, bytes: Seq<u8>, maybe_more: bool) -> Seq<
    InputEvent,
>;

/// Relies on termwiz::input::InputParser::new: a parser with no bytes held
/// back, fed nothing yet.
#[verifier::external_body]
fn new_parser() -> (r: termwiz::input::InputParser)
    ensures
        parser_fed(r) == Seq::<(Seq<u8>, bool)>::empty(),
{
    termwiz::input::InputParser::new()
}

/// Relies on termwiz::input::InputParser::parse_as_vec: the events decoded
/// from what the parser held back and `bytes`, which depend on nothing but
/// what the parser was fed before and `bytes`; each mouse report as its
/// buttons and modifiers bit sets; pixel mouse reports, resizes and wake-ups
/// are reported as `Unknown`. The parser panics on a bracketed paste whose
/// content is not well-formed UTF-8 (it advances by the length of the lossy
/// conversion), so it is only ever fed well-formed UTF-8.
#[verifier::external_body]
fn parse_events(parser: &mut termwiz::input::InputParser, bytes: &[u8], maybe_more: bool) -> (r:
    Vec<InputEvent>)
    requires
        is_utf8(bytes@),
    ensures
        parser_fed(*final(parser)) == parser_fed(*old(parser)).push((bytes@, maybe_more)),
        r@ == parsed(parser_fed(*old(parser)), bytes@, maybe_more),
{
    let events = parser.parse_as_vec(bytes, maybe_more);
    events.into_iter().map(|e| match e {
        termwiz::input::InputEvent::Key(k) => InputEvent::KeyPress(k),
        termwiz::input::InputEvent::Mouse(m) => InputEvent::Mouse(MouseAction {
            x: m.x,
            y: m.y,
            buttons: m.mouse_buttons.bits(),
            modifiers: m.modifiers.bits(),
        }),
        termwiz::input::InputEvent::Paste(s) => InputEvent::Paste(s),
        _ => InputEvent::Unknown,
    }).collect()
}

/// The state of a decoder: what its parser was fed, the first bytes of an
/// incomplete character, and the characters waiting to be fed.
pub type DecoderModel = (Seq<(Seq<u8>, bool)>, Seq<u8>, Seq<u8>);

/// A decoder that has taken in nothing.
pub open spec fn fresh_decoder() -> DecoderModel {
    (Seq::empty(), Seq::empty(), Seq::empty())
}

/// What one byte `b` does to the incomplete character `partial`: the new
/// incomplete character, and the bytes that are ready to be fed. A byte that
/// breaks a character is fed as U+FFFD, and so are the bytes before it.
pub open spec fn absorb(partial: Seq<u8>, b: u8) -> (Seq<u8>, Seq<u8>) {
    let p = partial.push(b);
    if is_utf8_char(p) {
        (Seq::empty(), p)
    } else if is_char_prefix(p) {
        (p, Seq::empty())
    } else {
        let pre = if partial.len() > 0 {
            replacement()
        } else {
            Seq::empty()
        };
        let q = seq![b];
        if is_utf8_char(q) {
            (Seq::empty(), pre + q)
        } else if is_char_prefix(q) {
            (q, pre)
        } else {
            (Seq::empty(), pre + replacement())
        }
    }
}

/// Whether the waiting characters `feed` go to the parser now: at the end of
/// a read, before an ESC, or, outside an escape segment, as soon as a whole
/// character is there.
pub open spec fn flushes(feed: Seq<u8>, partial: Seq<u8>, next: Option<u8>) -> bool {
    feed.len() > 0 && (next is None || next == Some(27u8) || (feed[0] != 27 && partial.len() == 0))
}

/// One byte taken in by a decoder in state `m`, `next` being the byte after
/// it in the same read: the new state and the events that came out.
pub open spec fn byte_step(m: DecoderModel, b: u8, next: Option<u8>) -> (DecoderModel, Seq<
    InputEvent,
>) {
    let (p2, app) = absorb(m.1, b);
    let f = m.2 + app;
    if flushes(f, p2, next) {
        ((m.0.push((f, next is Some)), p2, Seq::empty()), parsed(m.0, f, next is Some))
    } else {
        ((m.0, p2, f), Seq::empty())
    }
}

/// The byte after position `k` in the same read, if any.
pub open spec fn next_byte(bytes: Seq<u8>, k: int) -> Option<u8> {
    if k + 1 < bytes.len() {
        Some(bytes[k + 1])
    } else {
        None
    }
}

/// The first `k` bytes of `bytes` taken in one by one: the state after them
/// and the events that came out, in order.
pub open spec fn decode_upto(m: DecoderModel, bytes: Seq<u8>, k: int) -> (DecoderModel, Seq<
    InputEvent,
>)
    decreases k,
{
    if k <= 0 {
        (m, Seq::empty())
    } else {
        let (m1, evs) = decode_upto(m, bytes, k - 1);
        let (m2, more) = byte_step(m1, bytes[k - 1], next_byte(bytes, k - 1));
        (m2, evs + more)
    }
}

/// The byte-stream decoder: turns raw input bytes into input events. It
/// feeds the parser the characters of a leading run without escapes one by
/// one, and each segment that starts with ESC whole, up to the next ESC, so
/// that each event can be told the bytes it came from; bytes that form no
/// character are fed as U+FFFD, and the first bytes of an incomplete
/// character wait for the rest.
pub struct Decoder {
    pub parser: termwiz::input::InputParser,
    pub partial: Vec<u8>,
    pub feed: Vec<u8>,
}

impl Decoder {
    pub open spec fn wf(&self) -> bool {
        is_char_prefix(self.partial@) && is_utf8(self.feed@)
    }

    pub open spec fn model(&self) -> DecoderModel {
        (parser_fed(self.parser), self.partial@, self.feed@)
    }

    pub fn new() -> (r: Decoder)
        ensures
            r.wf(),
            r.model() == fresh_decoder(),
    {
        Decoder { parser: new_parser(), partial: Vec::new(), feed: Vec::new() }
    }

    fn push_char(&mut self, c: &Vec<u8>)
        requires
            is_utf8(old(self).feed@),
            is_utf8_char(c@),
        ensures
            is_utf8(final(self).feed@),
            final(self).feed@ == old(self).feed@ + c@,
            final(self).partial@ == old(self).partial@,
            final(self).parser == old(self).parser,
    {
        let ghost before = self.feed@;
        let mut k: usize = 0;
        while k < c.len()
            invariant
                k <= c@.len(),
                self.feed@ == before + c@.subrange(0, k as int),
                self.partial@ == old(self).partial@,
                self.parser == old(self).parser,
            decreases c@.len() - k,
        {
            self.feed.push(c[k]);
            assert(c@.subrange(0, k + 1) =~= c@.subrange(0, k as int).push(c@[k as int]));
            k = k + 1;
        }
        assert(c@.subrange(0, c@.len() as int) =~= c@);
        proof {
            lemma_utf8_push_char(before, c@);
        }
    }

    fn push_replacement(&mut self)
        requires
            is_utf8(old(self).feed@),
        ensures
            is_utf8(final(self).feed@),
            final(self).feed@ == old(self).feed@ + replacement(),
            final(self).partial@ == old(self).partial@,
            final(self).parser == old(self).parser,
    {
        let r: Vec<u8> = vec![0xEF, 0xBF, 0xBD];
        assert(r@ =~= replacement());
        self.push_char(&r);
    }

    /// Takes one byte, `next` being the byte after it in the same read, if
    /// any, and returns the events that the parser brought out.
    pub fn decode_byte(&mut self, b: u8, next: Option<u8>) -> (r: Vec<InputEvent>)
        requires
            old(self).wf(),
        ensures
            final(self).wf(),
            (final(self).model(), r@) == byte_step(old(self).model(), b, next),
    {
        let ghost m = self.model();
        let ghost after = absorb(m.1, b);
        self.partial.push(b);
        let (whole, prefix) = classify(&self.partial);
        if whole {
            let mut c: Vec<u8> = Vec::new();
            std::mem::swap(&mut c, &mut self.partial);
            self.push_char(&c);
        } else if !prefix {
            self.partial.pop();
            assert(self.partial@ =~= m.1);
            let had = self.partial.len() > 0;
            if had {
                self.push_replacement();
            }
            assert(self.feed@ =~= m.2 + (if had { replacement() } else { Seq::empty() }));
            self.partial = Vec::new();
            self.partial.push(b);
            assert(self.partial@ =~= seq![b]);
            let (whole, prefix) = classify(&self.partial);
            if whole {
                let mut c: Vec<u8> = Vec::new();
                std::mem::swap(&mut c, &mut self.partial);
                self.push_char(&c);
            } else if !prefix {
                self.partial = Vec::new();
                self.push_replacement();
            }
        }
        assert(self.partial@ =~= after.0);
        assert(self.feed@ =~= m.2 + after.1);
        let at_end = next.is_none();
        let escape_next = next == Some(27u8);
        let in_escape = self.feed.len() > 0 && self.feed[0] == 27;
        if self.feed.len() > 0 && (at_end || escape_next || (!in_escape && self.partial.len()
            == 0)) {
            let mut f: Vec<u8> = Vec::new();
            std::mem::swap(&mut f, &mut self.feed);
            assert(is_utf8(Seq::<u8>::empty()));
            parse_events(&mut self.parser, f.as_slice(), !at_end)
        } else {
            Vec::new()
        }
    }

    /// The events decoded from `bytes`, in order.
    pub fn decode(&mut self, bytes: &[u8]) -> (r: Vec<InputEvent>)
        requires
            old(self).wf(),
        ensures
            final(self).wf(),
            (final(self).model(), r@) == decode_upto(old(self).model(), bytes@, bytes@.len() as int),
    {
        let mut out: Vec<InputEvent> = Vec::new();
        let mut k: usize = 0;
        while k < bytes.len()
            invariant
                self.wf(),
                k <= bytes@.len(),
                (self.model(), out@) == decode_upto(old(self).model(), bytes@, k as int),
            decreases bytes@.len() - k,
        {
            let next = if k + 1 < bytes.len() {
                Some(bytes[k + 1])
            } else {
                None
            };
            let ghost before = out@;
            let mut events = self.decode_byte(bytes[k], next);
            let ghost got = events@;
            out.append(&mut events);
            assert(out@ == before + got);
            k = k + 1;
        }
        out
    }
}

} // verus!
