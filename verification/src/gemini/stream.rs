//! Splits a streamed response, which is one JSON array of objects, into its
//! objects, whatever the boundaries of the chunks that it arrives in.
use vstd::prelude::*;
use vstd::string::*;

use crate::grammar::is_space;
use crate::stream::StreamError;
use crate::text::{decimal, digits};

verus! {

/// What comes out of the scanner: the bytes of an object, or what is wrong
/// with the stream.
#[derive(Debug, PartialEq)]
pub enum Frame {
    Object(Vec<u8>),
    Error(StreamError),
}

/// The scanner's state between chunks.
#[derive(Debug)]
pub struct Scanner {
    buf: Vec<u8>,
    started: bool,
    finished: bool,
    depth: usize,
    in_string: bool,
    escape_pending: bool,
}

// ---------------------------------------------------------------------------
// Model
// ---------------------------------------------------------------------------

/// The model of `Scanner`.
#[verifier::ext_equal]
pub struct Scan {
    pub buf: Seq<u8>,
    pub started: bool,
    pub finished: bool,
    pub depth: nat,
    pub in_string: bool,
    pub escape_pending: bool,
}

/// The model of `Frame`.
#[verifier::ext_equal]
pub enum Framed {
    Object(Seq<u8>),
    Error(Seq<char>),
}

/// The state before the first byte.
pub open spec fn nothing_scanned() -> Scan {
    Scan {
        buf: seq![],
        started: false,
        finished: false,
        depth: 0,
        in_string: false,
        escape_pending: false,
    }
}

/// The hexadecimal digit of a number below sixteen.
pub open spec fn hex_digit(n: u8) -> char {
    if n < 10 {
        ('0' as u8 + n) as char
    } else {
        ('a' as u8 + n - 10) as char
    }
}

/// The two hexadecimal digits of a byte.
pub open spec fn hex(b: u8) -> Seq<char> {
    seq![hex_digit(b / 16), hex_digit(b % 16)]
}

/// The message for a stream that does not start with an array.
pub open spec fn bad_start(b: u8) -> Seq<char> {
    "expected `[` at start of Gemini stream, got byte 0x"@ + hex(b)
}

/// The message for a byte between objects that does not belong there.
pub open spec fn bad_between(b: u8) -> Seq<char> {
    "unexpected byte 0x"@ + hex(b) + " between Gemini stream objects"@
}

/// The state after one byte.
pub open spec fn step(s: Scan, b: u8) -> Scan {
    if s.finished {
        s
    } else if !s.started {
        if is_space(b) {
            s
        } else if b == 0x5B {
            Scan { started: true, ..s }
        } else {
            Scan { finished: true, ..s }
        }
    } else if s.depth == 0 {
        if b == 0x7B {
            Scan { depth: 1, buf: s.buf.push(b), ..s }
        } else if b == 0x5D {
            Scan { finished: true, ..s }
        } else {
            s
        }
    } else {
        let t = Scan { buf: s.buf.push(b), ..s };
        if s.in_string {
            if s.escape_pending {
                Scan { escape_pending: false, ..t }
            } else if b == 0x5C {
                Scan { escape_pending: true, ..t }
            } else if b == 0x22 {
                Scan { in_string: false, ..t }
            } else {
                t
            }
        } else if b == 0x22 {
            Scan { in_string: true, ..t }
        } else if b == 0x7B {
            Scan { depth: s.depth + 1, ..t }
        } else if b == 0x7D {
            if s.depth == 1 {
                Scan { depth: 0, buf: seq![], ..t }
            } else {
                Scan { depth: (s.depth - 1) as nat, ..t }
            }
        } else {
            t
        }
    }
}

/// What one byte brings out.
pub open spec fn step_frames(s: Scan, b: u8) -> Seq<Framed> {
    if s.finished {
        seq![]
    } else if !s.started {
        if is_space(b) || b == 0x5B {
            seq![]
        } else {
            seq![Framed::Error(bad_start(b))]
        }
    } else if s.depth == 0 {
        if b == 0x7B || b == 0x5D || is_space(b) || b == 0x2C {
            seq![]
        } else {
            seq![Framed::Error(bad_between(b))]
        }
    } else if !s.in_string && b == 0x7D && s.depth == 1 {
        seq![Framed::Object(s.buf.push(b))]
    } else {
        seq![]
    }
}

/// The state after a sequence of bytes.
pub open spec fn scan(s: Scan, bytes: Seq<u8>) -> Scan
    decreases bytes.len(),
{
    if bytes.len() == 0 {
        s
    } else {
        step(scan(s, bytes.drop_last()), bytes.last())
    }
}

/// What a sequence of bytes brings out.
pub open spec fn frames(s: Scan, bytes: Seq<u8>) -> Seq<Framed>
    decreases bytes.len(),
{
    if bytes.len() == 0 {
        seq![]
    } else {
        frames(s, bytes.drop_last()) + step_frames(scan(s, bytes.drop_last()), bytes.last())
    }
}

/// An object is buffered while it is open, and strings occur inside objects
/// only.
pub open spec fn well_formed(s: Scan) -> bool {
    &&& s.depth <= s.buf.len()
    &&& s.depth == 0 ==> s.buf.len() == 0 && !s.in_string
    &&& s.depth > 0 ==> s.buf.len() > 0 && s.buf[0] == 0x7B
    &&& s.escape_pending ==> s.in_string
}

impl Frame {
    pub open spec fn view(&self) -> Framed {
        match self {
            Frame::Object(bytes) => Framed::Object(bytes@),
            Frame::Error(StreamError::Decode(text)) => Framed::Error(text@),
            Frame::Error(StreamError::Upstream(text)) => Framed::Error(text@),
        }
    }
}

/// The models of a sequence of frames.
pub open spec fn framed(s: Seq<Frame>) -> Seq<Framed> {
    Seq::new(s.len(), |i: int| s[i]@)
}

/// Whether every error among the frames is one of decoding.
pub open spec fn only_decode_errors(s: Seq<Frame>) -> bool {
    forall|i: int|
        0 <= i < s.len() ==> match #[trigger] s[i] {
            Frame::Error(StreamError::Upstream(_)) => false,
            _ => true,
        }
}

/// The message for a stream that ends inside an object.
pub open spec fn unfinished(s: Scan) -> Seq<char> {
    "Gemini stream ended mid-object (depth="@ + decimal(s.depth) + ", in_string="@ + (
    if s.in_string {
        "true"@
    } else {
        "false"@
    }) + ")"@
}

// ---------------------------------------------------------------------------
// Operations
// ---------------------------------------------------------------------------

/// Whether a byte is JSON white space.
pub fn is_json_whitespace(b: u8) -> (space: bool)
    ensures
        space == is_space(b),
{
    b == 0x20 || b == 0x09 || b == 0x0A || b == 0x0D
}

fn hex_digit_text(n: u8) -> (text: &'static str)
    requires
        n < 16,
    ensures
        text@ == seq![hex_digit(n)],
{
    proof {
        reveal_strlit("0");
        reveal_strlit("1");
        reveal_strlit("2");
        reveal_strlit("3");
        reveal_strlit("4");
        reveal_strlit("5");
        reveal_strlit("6");
        reveal_strlit("7");
        reveal_strlit("8");
        reveal_strlit("9");
        reveal_strlit("a");
        reveal_strlit("b");
        reveal_strlit("c");
        reveal_strlit("d");
        reveal_strlit("e");
        reveal_strlit("f");
    }
    let text = match n {
        0 => "0",
        1 => "1",
        2 => "2",
        3 => "3",
        4 => "4",
        5 => "5",
        6 => "6",
        7 => "7",
        8 => "8",
        9 => "9",
        10 => "a",
        11 => "b",
        12 => "c",
        13 => "d",
        14 => "e",
        _ => "f",
    };
    assert(text@ =~= seq![hex_digit(n)]);
    text
}

fn push_hex(text: &mut String, b: u8)
    ensures
        final(text)@ == old(text)@ + hex(b),
{
    let ghost before = text@;
    text.append(hex_digit_text(b / 16));
    text.append(hex_digit_text(b % 16));
    assert(text@ =~= before + hex(b));
}

fn push_frame(out: &mut Vec<Frame>, frame: Frame)
    requires
        match frame {
            Frame::Error(StreamError::Upstream(_)) => false,
            _ => true,
        },
        only_decode_errors(old(out)@),
    ensures
        framed(final(out)@) == framed(old(out)@).push(frame@),
        only_decode_errors(final(out)@),
{
    out.push(frame);
    assert(framed(out@) =~= framed(old(out)@).push(frame@));
}

impl Scanner {
    pub closed spec fn view(&self) -> Scan {
        Scan {
            buf: self.buf@,
            started: self.started,
            finished: self.finished,
            depth: self.depth as nat,
            in_string: self.in_string,
            escape_pending: self.escape_pending,
        }
    }

    pub fn new() -> (scanner: Scanner)
        ensures
            scanner@ == nothing_scanned(),
            well_formed(scanner@),
    {
        let scanner = Scanner {
            buf: Vec::new(),
            started: false,
            finished: false,
            depth: 0,
            in_string: false,
            escape_pending: false,
        };
        assert(scanner@ =~= nothing_scanned());
        scanner
    }

    fn feed_byte(&mut self, byte: u8, out: &mut Vec<Frame>)
        requires
            well_formed(old(self)@),
            only_decode_errors(old(out)@),
        ensures
            final(self)@ == step(old(self)@, byte),
            framed(final(out)@) == framed(old(out)@) + step_frames(old(self)@, byte),
            well_formed(final(self)@),
            only_decode_errors(final(out)@),
    {
        let ghost before = framed(out@);
        let ghost start = self@;
        if self.finished {
            assert(before + step_frames(start, byte) =~= before);
            return;
        }
        if !self.started {
            if is_json_whitespace(byte) {
                assert(before + step_frames(start, byte) =~= before);
                return;
            }
            if byte == 0x5B {
                self.started = true;
                assert(before + step_frames(start, byte) =~= before);
                return;
            }
            self.finished = true;
            let mut text = "expected `[` at start of Gemini stream, got byte 0x".to_owned();
            push_hex(&mut text, byte);
            push_frame(out, Frame::Error(StreamError::Decode(text)));
            assert(framed(out@) =~= before + step_frames(start, byte));
            return;
        }
        if self.depth == 0 {
            if byte == 0x7B {
                self.depth = 1;
                self.buf.push(byte);
            } else if byte == 0x5D {
                self.finished = true;
            } else if !is_json_whitespace(byte) && byte != 0x2C {
                let mut text = "unexpected byte 0x".to_owned();
                push_hex(&mut text, byte);
                text.append(" between Gemini stream objects");
                push_frame(out, Frame::Error(StreamError::Decode(text)));
            }
            assert(framed(out@) =~= before + step_frames(start, byte));
            return;
        }
        self.buf.push(byte);
        let length = self.buf.len();
        assert(before + Seq::<Framed>::empty() =~= before);
        if self.in_string {
            if self.escape_pending {
                self.escape_pending = false;
            } else if byte == 0x5C {
                self.escape_pending = true;
            } else if byte == 0x22 {
                self.in_string = false;
            }
            return;
        }
        if byte == 0x22 {
            self.in_string = true;
        } else if byte == 0x7B {
            assert(self.depth < length);
            self.depth = self.depth + 1;
        } else if byte == 0x7D {
            self.depth = self.depth - 1;
            if self.depth == 0 {
                let mut object: Vec<u8> = Vec::new();
                std::mem::swap(&mut object, &mut self.buf);
                push_frame(out, Frame::Object(object));
                assert(framed(out@) =~= before + step_frames(start, byte));
                assert(self@.buf =~= seq![]);
            }
        }
    }

    /// Takes in a chunk and hands out what it completes.
    pub fn feed(&mut self, chunk: &[u8]) -> (out: Vec<Frame>)
        requires
            well_formed(old(self)@),
        ensures
            final(self)@ == scan(old(self)@, chunk@),
            framed(out@) == frames(old(self)@, chunk@),
            well_formed(final(self)@),
            only_decode_errors(out@),
    {
        let mut out: Vec<Frame> = Vec::new();
        let ghost start = self@;
        let mut i: usize = 0;
        assert(framed(out@) =~= seq![]);
        while i < chunk.len()
            invariant
                i <= chunk@.len(),
                self@ == scan(start, chunk@.take(i as int)),
                framed(out@) == frames(start, chunk@.take(i as int)),
                well_formed(self@),
                only_decode_errors(out@),
            decreases chunk.len() - i,
        {
            proof {
                assert(chunk@.take(i + 1).drop_last() =~= chunk@.take(i as int));
                assert(chunk@.take(i + 1).last() == chunk@[i as int]);
            }
            self.feed_byte(chunk[i], &mut out);
            i = i + 1;
        }
        assert(chunk@.take(i as int) =~= chunk@);
        out
    }

    /// Ends the stream: an error where it ends inside an object.
    pub fn finalize(&self) -> (error: Option<StreamError>)
        ensures
            match error {
                None => self@.depth == 0 && !self@.in_string,
                Some(StreamError::Decode(text)) => (self@.depth > 0 || self@.in_string) && text@
                    == unfinished(self@),
                Some(StreamError::Upstream(_)) => false,
            },
    {
        if self.depth > 0 || self.in_string {
            let mut text = "Gemini stream ended mid-object (depth=".to_owned();
            text.append(digits(self.depth as u64).as_str());
            text.append(", in_string=");
            if self.in_string {
                text.append("true");
            } else {
                text.append("false");
            }
            text.append(")");
            Some(StreamError::Decode(text))
        } else {
            None
        }
    }
}

/// The error for an object that could not be decoded, given the decoder's
/// message.
pub fn undecodable(message: &str) -> (error: StreamError)
    ensures
        match error {
            StreamError::Decode(text) => text@ == "failed to decode Gemini stream object: "@
                + message@,
            StreamError::Upstream(_) => false,
        },
{
    let mut text = "failed to decode Gemini stream object: ".to_owned();
    text.append(message);
    StreamError::Decode(text)
}

// ---------------------------------------------------------------------------
// Laws
// ---------------------------------------------------------------------------

/// The boundaries of the chunks do not matter: two chunks leave the same state
/// and bring out the same as their bytes in one chunk.
pub proof fn chunk_boundaries_do_not_matter(s: Scan, a: Seq<u8>, b: Seq<u8>)
    ensures
        scan(s, a + b) == scan(scan(s, a), b),
        frames(s, a + b) == frames(s, a) + frames(scan(s, a), b),
    decreases b.len(),
{
    if b.len() == 0 {
        assert(a + b =~= a);
        assert(frames(s, a) + frames(scan(s, a), b) =~= frames(s, a));
    } else {
        assert((a + b).drop_last() =~= a + b.drop_last());
        chunk_boundaries_do_not_matter(s, a, b.drop_last());
        let last = step_frames(scan(s, a + b.drop_last()), b.last());
        assert(frames(s, a + b) =~= frames(s, a) + (frames(scan(s, a), b.drop_last()) + last));
    }
}

/// What follows the end of the array is ignored.
pub proof fn bytes_after_the_end_are_ignored(s: Scan, bytes: Seq<u8>)
    requires
        s.finished,
    ensures
        scan(s, bytes) == s,
        frames(s, bytes) == Seq::<Framed>::empty(),
    decreases bytes.len(),
{
    if bytes.len() > 0 {
        bytes_after_the_end_are_ignored(s, bytes.drop_last());
        assert(frames(s, bytes) =~= Seq::<Framed>::empty());
    }
}

/// Scanning keeps the scanner's state valid.
pub proof fn scanning_keeps_validity(s: Scan, bytes: Seq<u8>)
    requires
        well_formed(s),
    ensures
        well_formed(scan(s, bytes)),
    decreases bytes.len(),
{
    if bytes.len() > 0 {
        scanning_keeps_validity(s, bytes.drop_last());
    }
}

/// Every object that comes out starts with `{` and ends with `}`.
pub proof fn objects_are_braced(s: Scan, bytes: Seq<u8>, i: int)
    requires
        well_formed(s),
        0 <= i < frames(s, bytes).len(),
    ensures
        match frames(s, bytes)[i] {
            Framed::Object(object) => object.len() >= 2 && object[0] == 0x7B && object.last()
                == 0x7D,
            Framed::Error(_) => true,
        },
    decreases bytes.len(),
{
    let before = frames(s, bytes.drop_last());
    if bytes.len() > 0 {
        scanning_keeps_validity(s, bytes.drop_last());
        if i < before.len() {
            objects_are_braced(s, bytes.drop_last(), i);
        }
    }
}

} // verus!
