use vstd::prelude::*;
use vstd::utf8::{valid_utf8, decode_utf8, encode_utf8, encode_utf8_valid_utf8, encode_utf8_decode_utf8};
use crate::text::{chars_of, parse_unsigned, parse_unsigned_spec};

verus! {

/// One line of a container's log: its stream type and its text.
pub struct LogLineHttpModel {
    pub tp: u8,
    pub line: String,
}

/// Where a request for data stands: not made yet, under way, answered, or failed.
pub enum DataState<T> {
    Empty,
    Loading,
    Loaded(T),
    Error(String),
}

/// The state of the dialog that shows a container's log: the requested lines
/// and the number of lines to ask for, as typed.
pub struct DialogState {
    pub data: DataState<Vec<LogLineHttpModel>>,
    pub lines_amount: String,
}

/// The number of lines asked for when the typed amount is not a number.
pub const DEFAULT_LINES_AMOUNT: u32 = 100;

/// The number of lines that the typed amount asks for.
pub open spec fn lines_amount_of(typed: Seq<char>) -> u32 {
    match parse_unsigned_spec(typed, u32::MAX as int) {
        Some(v) => v as u32,
        None => DEFAULT_LINES_AMOUNT,
    }
}

impl DialogState {
    pub fn new() -> (r: Self)
        ensures
            r.data is Empty,
            r.lines_amount@ == "100"@,
    {
        DialogState { data: DataState::Empty, lines_amount: "100".to_owned() }
    }

    /// The number of lines to ask for: the typed amount when it is a number
    /// that fits in a `u32`, 100 otherwise.
    pub fn get_lines_amount(&self) -> (r: u32)
        ensures
            r == lines_amount_of(self.lines_amount@),
    {
        let chars = chars_of(self.lines_amount.as_str());
        match parse_unsigned(chars.as_slice(), 4294967295) {
            Some(v) => v as u32,
            None => DEFAULT_LINES_AMOUNT,
        }
    }

    /// Starts a request when none was made yet: the data becomes `Loading` and
    /// the number of lines to ask for is returned. A request under way, an
    /// answer or an error is left as it is, and nothing is asked.
    pub fn start_request(&mut self) -> (r: Option<u32>)
        ensures
            final(self).lines_amount == old(self).lines_amount,
            old(self).data is Empty ==> final(self).data is Loading && r == Some(
                lines_amount_of(old(self).lines_amount@),
            ),
            !(old(self).data is Empty) ==> final(self).data == old(self).data && r is None,
    {
        match self.data {
            DataState::Empty => {
                let amount = self.get_lines_amount();
                self.data = DataState::Loading;
                Some(amount)
            },
            _ => None,
        }
    }

    /// Takes the answer to a request: the lines, or the error's text.
    pub fn finish_request(&mut self, result: Result<Vec<LogLineHttpModel>, String>)
        ensures
            final(self).lines_amount == old(self).lines_amount,
            match result {
                Ok(v) => final(self).data == DataState::Loaded(v),
                Err(e) => final(self).data == DataState::<Vec<LogLineHttpModel>>::Error(e),
            },
    {
        self.data = match result {
            Ok(v) => DataState::Loaded(v),
            Err(e) => DataState::Error(e),
        };
    }

    /// Asks for the log again (the Request button): the data is dropped, so
    /// that the next `start_request` asks with the amount typed by then.
    pub fn request_again(&mut self)
        ensures
            final(self).lines_amount == old(self).lines_amount,
            final(self).data is Empty,
    {
        self.data = DataState::Empty;
    }

    /// Takes the typed number of lines.
    pub fn set_lines_amount(&mut self, typed: String)
        ensures
            final(self).lines_amount == typed,
            final(self).data == old(self).data,
    {
        self.lines_amount = typed;
    }
}

/// The color in which a log line of stream type `tp` is shown.
pub open spec fn line_color_spec(tp: u8) -> Seq<char> {
    if tp == 0 {
        "orange"@
    } else if tp == 1 {
        "black"@
    } else if tp == 2 {
        "red"@
    } else {
        "gray"@
    }
}

/// The color in which a log line of stream type `tp` is shown: standard input
/// orange, standard output black, standard error red, anything else gray.
pub fn log_line_color(tp: u8) -> (r: &'static str)
    ensures
        r@ == line_color_spec(tp),
{
    match tp {
        0 => "orange",
        1 => "black",
        2 => "red",
        _ => "gray",
    }
}

/// The length that the four bytes at `i` give, most significant first.
pub open spec fn frame_size(p: Seq<u8>, i: int) -> int {
    p[i] * 16777216 + p[i + 1] * 65536 + p[i + 2] * 256 + p[i + 3]
}

/// The lines of a multiplexed log stream: each frame is a stream type byte,
/// two zero bytes, one more byte, a four-byte length (most significant first)
/// and that many bytes, the last of which ends the line and is dropped.
/// Reading stops, with the lines read so far, at the end of the stream or at a
/// frame whose second or third byte is missing or not zero. `None` when a
/// frame breaks off within its length or its content, when a length is 0, or
/// when a line is not UTF-8.
pub open spec fn decode_log_frames(p: Seq<u8>) -> Option<Seq<(u8, Seq<char>)>>
    decreases p.len(),
{
    if p.len() == 0 {
        Some(Seq::empty())
    } else if p.len() < 2 || p[1] != 0 {
        Some(Seq::empty())
    } else if p.len() < 3 || p[2] != 0 {
        Some(Seq::empty())
    } else if p.len() < 8 {
        None
    } else {
        let size = frame_size(p, 4);
        if size == 0 || p.len() < 8 + size {
            None
        } else {
            let line = p.subrange(8, 8 + size - 1);
            if !valid_utf8(line) {
                None
            } else {
                match decode_log_frames(p.subrange(8 + size, p.len() as int)) {
                    Some(rest) => Some(seq![(p[0], decode_utf8(line))] + rest),
                    None => None,
                }
            }
        }
    }
}

/// Four bytes that hold `n`, most significant first.
pub open spec fn size_bytes(n: int) -> Seq<u8> {
    seq![(n / 16777216) as u8, (n / 65536 % 256) as u8, (n / 256 % 256) as u8, (n % 256) as u8]
}

/// A log stream as an agent writes it: for each line a frame of its stream
/// type, three bytes, the length of what follows, the UTF-8 text and a line
/// feed.
pub open spec fn encode_log_frames(lines: Seq<(u8, Seq<char>)>) -> Seq<u8>
    decreases lines.len(),
{
    if lines.len() == 0 {
        Seq::empty()
    } else {
        let (tp, text) = lines[0];
        seq![tp, 0u8, 0u8, 0u8] + size_bytes(encode_utf8(text).len() as int + 1) + encode_utf8(text) + seq![10u8]
            + encode_log_frames(lines.drop_first())
    }
}

proof fn lemma_size_bytes(n: int)
    requires
        0 <= n < 0x1_0000_0000,
    ensures
        frame_size(seq![0u8, 0u8, 0u8, 0u8] + size_bytes(n), 4) == n,
{
    let s = seq![0u8, 0u8, 0u8, 0u8] + size_bytes(n);
    let a = n / 16777216;
    let b = n / 65536 % 256;
    let c = n / 256 % 256;
    let d = n % 256;
    assert(a * 16777216 + b * 65536 + c * 256 + d == n) by (nonlinear_arith)
        requires
            0 <= n < 0x1_0000_0000,
            a == n / 16777216,
            b == n / 65536 % 256,
            c == n / 256 % 256,
            d == n % 256,
    ;
    assert(0 <= a < 256 && 0 <= b < 256 && 0 <= c < 256 && 0 <= d < 256) by (nonlinear_arith)
        requires
            0 <= n < 0x1_0000_0000,
            a == n / 16777216,
            b == n / 65536 % 256,
            c == n / 256 % 256,
            d == n % 256,
    ;
    assert(s[4] == a && s[5] == b && s[6] == c && s[7] == d);
}

/// Reading a log stream gives back every line that was written to it, in
/// order, when each line's length fits in the four length bytes.
pub proof fn lemma_decode_after_encode(lines: Seq<(u8, Seq<char>)>)
    requires
        forall|i: int| 0 <= i < lines.len() ==> encode_utf8((#[trigger] lines[i]).1).len() + 1 < 0x1_0000_0000,
    ensures
        decode_log_frames(encode_log_frames(lines)) == Some(lines),
    decreases lines.len(),
{
    if lines.len() > 0 {
        let (tp, text) = lines[0];
        let bytes = encode_utf8(text);
        let n: int = bytes.len() as int + 1;
        let rest = lines.drop_first();
        assert forall|i: int| 0 <= i < rest.len() implies encode_utf8((#[trigger] rest[i]).1).len() + 1
            < 0x1_0000_0000 by {
            assert(rest[i] == lines[i + 1]);
        }
        lemma_decode_after_encode(rest);
        let head = seq![tp, 0u8, 0u8, 0u8] + size_bytes(n);
        let p = head + bytes + seq![10u8] + encode_log_frames(rest);
        assert(p == encode_log_frames(lines));
        lemma_size_bytes(n);
        assert(frame_size(p, 4) == frame_size(seq![0u8, 0u8, 0u8, 0u8] + size_bytes(n), 4));
        assert(p.subrange(8, 8 + n - 1) =~= bytes);
        assert(p.subrange(8 + n, p.len() as int) =~= encode_log_frames(rest));
        encode_utf8_valid_utf8(text);
        encode_utf8_decode_utf8(text);
        assert(seq![(tp, text)] + rest =~= lines);
    } else {
        assert(encode_log_frames(lines) =~= Seq::<u8>::empty());
        assert(lines =~= Seq::<(u8, Seq<char>)>::empty());
    }
}

/// The lines of a list, as stream types and texts.
pub open spec fn log_lines_view(v: Seq<LogLineHttpModel>) -> Seq<(u8, Seq<char>)> {
    v.map_values(|l: LogLineHttpModel| (l.tp, l.line@))
}

/// Calls `String::from_utf8`. The contract claims that it gives a string
/// exactly when the bytes are valid UTF-8 (as vstd's `valid_utf8` defines it),
/// and that the string then holds the characters the bytes encode.
#[verifier::external_body]
fn string_from_utf8(bytes: Vec<u8>) -> (r: Option<String>)
    ensures
        match r {
            Some(s) => valid_utf8(bytes@) && s@ == decode_utf8(bytes@),
            None => !valid_utf8(bytes@),
        },
{
    String::from_utf8(bytes).ok()
}

/// The lines of a log stream, or `None` where reading it fails.
pub fn try_decode_log_lines(payload: &[u8]) -> (r: Option<Vec<LogLineHttpModel>>)
    ensures
        match r {
            Some(v) => decode_log_frames(payload@) == Some(log_lines_view(v@)),
            None => decode_log_frames(payload@) is None,
        },
{
    let mut result: Vec<LogLineHttpModel> = Vec::new();
    let mut pos: usize = 0;
    let n = payload.len();
    let ghost p = payload@;
    assert(p.subrange(0, p.len() as int) =~= p);
    loop
        invariant
            n == p.len(),
            p == payload@,
            pos <= n,
            decode_log_frames(p) == match decode_log_frames(p.subrange(pos as int, n as int)) {
                Some(rest) => Some(log_lines_view(result@) + rest),
                None => None::<Seq<(u8, Seq<char>)>>,
            },
        decreases n - pos,
    {
        let ghost q = p.subrange(pos as int, n as int);
        if pos == n {
            assert(log_lines_view(result@) + Seq::<(u8, Seq<char>)>::empty() =~= log_lines_view(result@));
            return Some(result);
        }
        if n - pos < 2 || payload[pos + 1] != 0 || n - pos < 3 || payload[pos + 2] != 0 {
            assert(log_lines_view(result@) + Seq::<(u8, Seq<char>)>::empty() =~= log_lines_view(result@));
            return Some(result);
        }
        if n - pos < 8 {
            return None;
        }
        let tp = payload[pos];
        let size: u64 = (payload[pos + 4] as u64) * 16777216 + (payload[pos + 5] as u64) * 65536
            + (payload[pos + 6] as u64) * 256 + (payload[pos + 7] as u64);
        assert(size == frame_size(q, 4));
        if size == 0 || ((n - pos - 8) as u64) < size {
            return None;
        }
        let size = size as usize;
        let mut line: Vec<u8> = Vec::new();
        let start = pos + 8;
        let mut k: usize = 0;
        while k < size - 1
            invariant
                start + size <= n,
                n == payload@.len(),
                0 < size,
                k <= size - 1,
                line@ == payload@.subrange(start as int, start + k),
            decreases size - 1 - k,
        {
            line.push(payload[start + k]);
            assert(line@ =~= payload@.subrange(start as int, start + k + 1));
            k = k + 1;
        }
        assert(line@ =~= q.subrange(8, 8 + size - 1));
        let text = match string_from_utf8(line) {
            Some(t) => t,
            None => {
                return None;
            },
        };
        let ghost before = result@;
        let item = LogLineHttpModel { tp, line: text };
        result.push(item);
        let next = start + size;
        proof {
            assert(q.subrange(8 + size, q.len() as int) =~= p.subrange(next as int, n as int));
            assert(log_lines_view(result@) =~= log_lines_view(before).push((tp, text@)));
            let rest = decode_log_frames(p.subrange(next as int, n as int));
            if let Some(r) = rest {
                assert(log_lines_view(before) + (seq![(tp, text@)] + r) =~= log_lines_view(result@) + r);
            }
        }
        pos = next;
    }
}

/// The lines of a log stream that reads without failing.
pub fn decode_log_lines(payload: &[u8]) -> (r: Vec<LogLineHttpModel>)
    requires
        decode_log_frames(payload@) is Some,
    ensures
        decode_log_frames(payload@) == Some(log_lines_view(r@)),
{
    match try_decode_log_lines(payload) {
        Some(v) => v,
        None => Vec::new(),
    }
}

} // verus!
