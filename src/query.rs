use vstd::prelude::*;

verus! {

/// How long, in milliseconds, the terminal is given to answer a query.
pub const QUERY_TIMEOUT_MS: u64 = 500;

/// The most digits a number in a size report may have.
pub const MAX_DIGITS: usize = 5;

/// A size that the terminal reported, in pixels.
#[derive(Clone, Copy, Debug, PartialEq, Eq, Structural)]
pub enum CapabilityEvent {
    /// Size of the text area (reply `ESC [ 4 ; height ; width t`).
    TextAreaSize { height: u16, width: u16 },
    /// Size of one character cell (reply `ESC [ 6 ; height ; width t`).
    CellSize { height: u16, width: u16 },
}

pub open spec fn is_digit(b: u8) -> bool {
    48 <= b <= 57
}

/// The end of the run of digits that starts at `i`.
pub open spec fn digits_end(s: Seq<u8>, i: int) -> int
    decreases s.len() - i,
{
    if 0 <= i < s.len() && is_digit(s[i]) {
        digits_end(s, i + 1)
    } else {
        i
    }
}

/// The decimal value of the digits `s[i..j]`.
pub open spec fn value_of(s: Seq<u8>, i: int, j: int) -> nat
    decreases j - i,
{
    if j <= i {
        0
    } else {
        value_of(s, i, j - 1) * 10 + (s[j - 1] - 48) as nat
    }
}

/// A number of one to `MAX_DIGITS` digits at `i`, at most 65535: its value
/// and where it ends.
pub open spec fn number_at(s: Seq<u8>, i: int) -> Option<(nat, int)> {
    let j = digits_end(s, i);
    if j == i || j - i > MAX_DIGITS || value_of(s, i, j) > 65535 {
        None
    } else {
        Some((value_of(s, i, j), j))
    }
}

/// The size report `ESC [ kind ; height ; width t` at `i`, with kind 4 or 6:
/// the event and where the report ends.
pub open spec fn report_at(s: Seq<u8>, i: int) -> Option<(CapabilityEvent, int)> {
    if !(0 <= i && i + 2 <= s.len() && s[i] == 27 && s[i + 1] == 91) {
        None
    } else {
        match number_at(s, i + 2) {
            None => None,
            Some((kind, a)) => if !(a < s.len() && s[a] == 59) {
                None
            } else {
                match number_at(s, a + 1) {
                    None => None,
                    Some((h, b)) => if !(b < s.len() && s[b] == 59) {
                        None
                    } else {
                        match number_at(s, b + 1) {
                            None => None,
                            Some((w, c)) => if !(c < s.len() && s[c] == 116) {
                                None
                            } else if kind == 4 {
                                Some(
                                    (
                                        CapabilityEvent::TextAreaSize {
                                            height: h as u16,
                                            width: w as u16,
                                        },
                                        c + 1,
                                    ),
                                )
                            } else if kind == 6 {
                                Some(
                                    (
                                        CapabilityEvent::CellSize {
                                            height: h as u16,
                                            width: w as u16,
                                        },
                                        c + 1,
                                    ),
                                )
                            } else {
                                None
                            },
                        }
                    },
                }
            },
        }
    }
}

/// `s[i..]` read as a run of size reports, or `None` where it is not one.
pub open spec fn reports_from(s: Seq<u8>, i: int) -> Option<Seq<CapabilityEvent>>
    decreases s.len() - i,
{
    if i < 0 || i >= s.len() {
        Some(Seq::empty())
    } else {
        match report_at(s, i) {
            None => None,
            Some((e, j)) => if i < j <= s.len() {
                match reports_from(s, j) {
                    None => None,
                    Some(rest) => Some(seq![e] + rest),
                }
            } else {
                None
            },
        }
    }
}

/// The reports answer both questions of the query.
pub open spec fn answers_query(evs: Seq<CapabilityEvent>) -> bool {
    (exists|i: int| 0 <= i < evs.len() && evs[i] is TextAreaSize) && (exists|i: int|
        0 <= i < evs.len() && evs[i] is CellSize)
}

/// The events of a complete capability response: size reports and nothing
/// else, among them the text area size and the cell size.
pub open spec fn response_events(s: Seq<u8>) -> Option<Seq<CapabilityEvent>> {
    match reports_from(s, 0) {
        Some(evs) => if answers_query(evs) {
            Some(evs)
        } else {
            None
        },
        None => None,
    }
}

/// The query written to the terminal: report the text area size and the
/// character cell size, in pixels.
pub open spec fn query_text() -> Seq<char> {
    seq!['\x1b', '[', '1', '4', 't', '\x1b', '[', '1', '6', 't']
}

pub proof fn lemma_digits_end_ge(s: Seq<u8>, i: int)
    ensures
        digits_end(s, i) >= i,
    decreases s.len() - i,
{
    if 0 <= i < s.len() && is_digit(s[i]) {
        lemma_digits_end_ge(s, i + 1);
    }
}

/// Reads a number of one to `MAX_DIGITS` digits at `i`.
pub fn parse_number(s: &[u8], i: usize) -> (r: Option<(u16, usize)>)
    ensures
        match number_at(s@, i as int) {
            None => r is None,
            Some((v, j)) => r is Some && r->Some_0.0 as nat == v && r->Some_0.1 as int == j,
        },
        r is Some ==> i < r->Some_0.1 <= s@.len(),
{
    let mut j: usize = i;
    let mut acc: u32 = 0;
    while j < s.len() && 48 <= s[j] && s[j] <= 57
        invariant
            i <= j,
            j - i <= MAX_DIGITS,
            j <= s@.len() || j == i,
            digits_end(s@, i as int) == digits_end(s@, j as int),
            acc as nat == value_of(s@, i as int, j as int),
            j - i == 0 ==> acc == 0,
            j - i <= 1 ==> acc <= 9,
            j - i <= 2 ==> acc <= 99,
            j - i <= 3 ==> acc <= 999,
            j - i <= 4 ==> acc <= 9999,
            acc <= 99999,
        decreases s@.len() - j,
    {
        if j - i == MAX_DIGITS {
            proof {
                lemma_digits_end_ge(s@, j + 1);
            }
            return None;
        }
        acc = acc * 10 + (s[j] - 48) as u32;
        j = j + 1;
    }
    if j == i || acc > 65535 {
        None
    } else {
        Some((acc as u16, j))
    }
}

/// Reads the size report at `i`.
pub fn parse_report(s: &[u8], i: usize) -> (r: Option<(CapabilityEvent, usize)>)
    ensures
        match report_at(s@, i as int) {
            None => r is None,
            Some((e, j)) => r is Some && r->Some_0.0 == e && r->Some_0.1 as int == j,
        },
        r is Some ==> i < r->Some_0.1 <= s@.len(),
{
    if !(i < s.len() && s.len() - i >= 2 && s[i] == 27 && s[i + 1] == 91) {
        return None;
    }
    let (kind, a) = match parse_number(s, i + 2) {
        None => return None,
        Some(p) => p,
    };
    if !(a < s.len() && s[a] == 59) {
        return None;
    }
    let (h, b) = match parse_number(s, a + 1) {
        None => return None,
        Some(p) => p,
    };
    if !(b < s.len() && s[b] == 59) {
        return None;
    }
    let (w, c) = match parse_number(s, b + 1) {
        None => return None,
        Some(p) => p,
    };
    if !(c < s.len() && s[c] == 116) {
        return None;
    }
    if kind == 4 {
        Some((CapabilityEvent::TextAreaSize { height: h, width: w }, c + 1))
    } else if kind == 6 {
        Some((CapabilityEvent::CellSize { height: h, width: w }, c + 1))
    } else {
        None
    }
}

/// Whether `evs` answers both questions of the query.
pub fn answers(evs: &Vec<CapabilityEvent>) -> (r: bool)
    ensures
        r == answers_query(evs@),
{
    let mut area = false;
    let mut cell = false;
    let mut i: usize = 0;
    while i < evs.len()
        invariant
            i <= evs@.len(),
            area == exists|k: int| 0 <= k < i && evs@[k] is TextAreaSize,
            cell == exists|k: int| 0 <= k < i && evs@[k] is CellSize,
        decreases evs@.len() - i,
    {
        match evs[i] {
            CapabilityEvent::TextAreaSize { .. } => {
                area = true;
            },
            CapabilityEvent::CellSize { .. } => {
                cell = true;
            },
        }
        i = i + 1;
    }
    area && cell
}

/// Reads `s` as a complete capability response.
pub fn parse_response(s: &[u8]) -> (r: Option<Vec<CapabilityEvent>>)
    ensures
        match response_events(s@) {
            None => r is None,
            Some(evs) => r is Some && r->Some_0@ == evs,
        },
{
    let mut out: Vec<CapabilityEvent> = Vec::new();
    let mut i: usize = 0;
    while i < s.len()
        invariant
            i <= s@.len(),
            reports_from(s@, 0) == match reports_from(s@, i as int) {
                None => None,
                Some(rest) => Some(out@ + rest),
            },
        decreases s@.len() - i,
    {
        match parse_report(s, i) {
            None => {
                return None;
            },
            Some((e, j)) => {
                proof {
                    match reports_from(s@, j as int) {
                        None => {},
                        Some(rest) => {
                            assert(out@.push(e) + rest == out@ + (seq![e] + rest));
                        },
                    }
                }
                out.push(e);
                i = j;
            },
        }
    }
    assert(out@ + Seq::<CapabilityEvent>::empty() == out@);
    if answers(&out) {
        Some(out)
    } else {
        None
    }
}

/// What the capability query state holds: the deadline of the open query
/// window, if one is open, and the bytes of the response received so far.
pub struct QueryState {
    pub deadline: Option<u64>,
    pub buffer: Vec<u8>,
}

/// The events and the next state when `bytes` arrive at time `now`.
/// With no window open nothing changes. After the deadline the bytes are
/// dropped and the window closes. Otherwise the bytes join the response
/// received so far; once it is complete its events come out and the window
/// closes.
pub open spec fn consume_result(deadline: Option<u64>, buffer: Seq<u8>, bytes: Seq<u8>, now: u64) -> (
    Seq<CapabilityEvent>,
    Option<u64>,
    Seq<u8>,
) {
    match deadline {
        None => (Seq::empty(), None, buffer),
        Some(d) => if now > d {
            (Seq::empty(), None, Seq::empty())
        } else {
            match response_events(buffer + bytes) {
                Some(evs) => (evs, None, Seq::empty()),
                None => (Seq::empty(), Some(d), buffer + bytes),
            }
        },
    }
}

impl QueryState {
    /// No window open.
    pub fn new() -> (r: QueryState)
        ensures
            r.deadline is None,
            r.buffer@ == Seq::<u8>::empty(),
    {
        QueryState { deadline: None, buffer: Vec::new() }
    }

    /// Opens a query window at time `now` (milliseconds) and returns the
    /// query to write to the terminal.
    pub fn open_query(&mut self, now: u64) -> (r: &'static str)
        ensures
            r@ == query_text(),
            final(self).deadline == Some(
                if now <= u64::MAX - QUERY_TIMEOUT_MS {
                    (now + QUERY_TIMEOUT_MS) as u64
                } else {
                    u64::MAX
                },
            ),
            final(self).buffer@ == Seq::<u8>::empty(),
    {
        self.deadline = Some(now.saturating_add(QUERY_TIMEOUT_MS));
        self.buffer = Vec::new();
        proof {
            reveal_strlit("\x1b[14t\x1b[16t");
        }
        "\x1b[14t\x1b[16t"
    }

    /// Whether a window is open and its deadline not passed at `now`.
    pub fn should_parse_as_response(&self, now: u64) -> (r: bool)
        ensures
            r == (self.deadline is Some && now <= self.deadline->Some_0),
    {
        match self.deadline {
            Some(d) => now <= d,
            None => false,
        }
    }

    /// Takes `bytes` received at time `now` while a window may be open.
    pub fn consume(&mut self, bytes: &[u8], now: u64) -> (r: Vec<CapabilityEvent>)
        requires
            old(self).buffer@.len() + bytes@.len() <= usize::MAX,
        ensures
            r@ == consume_result(old(self).deadline, old(self).buffer@, bytes@, now).0,
            final(self).deadline == consume_result(
                old(self).deadline,
                old(self).buffer@,
                bytes@,
                now,
            ).1,
            final(self).buffer@ == consume_result(
                old(self).deadline,
                old(self).buffer@,
                bytes@,
                now,
            ).2,
    {
        match self.deadline {
            None => Vec::new(),
            Some(d) => {
                if now > d {
                    self.deadline = None;
                    self.buffer = Vec::new();
                    Vec::new()
                } else {
                    let ghost before = self.buffer@;
                    let mut k: usize = 0;
                    while k < bytes.len()
                        invariant
                            k <= bytes@.len(),
                            self.buffer@ == before + bytes@.subrange(0, k as int),
                            before.len() + bytes@.len() <= usize::MAX,
                            self.deadline == Some(d),
                        decreases bytes@.len() - k,
                    {
                        self.buffer.push(bytes[k]);
                        proof {
                            assert(bytes@.subrange(0, k + 1) == bytes@.subrange(0, k as int).push(
                                bytes@[k as int],
                            ));
                        }
                        k = k + 1;
                    }
                    assert(bytes@.subrange(0, bytes@.len() as int) == bytes@);
                    match parse_response(self.buffer.as_slice()) {
                        Some(evs) => {
                            self.deadline = None;
                            self.buffer = Vec::new();
                            evs
                        },
                        None => Vec::new(),
                    }
                }
            },
        }
    }
}

} // verus!
