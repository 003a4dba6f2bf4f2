//! The wire format of frames: a tag byte, a line that ends in CR LF, and for
//! blobs and arrays what the line announces.

use crate::net::frame::{Frame, FrameView};
use vstd::prelude::*;

verus! {

pub const CR: u8 = 13;

pub const LF: u8 = 10;

/// `+`, the tag of a simple string.
pub const TAG_SIMPLE: u8 = 43;

/// `-`, the tag of an error, and the sign of the length of the null frame.
pub const TAG_ERROR: u8 = 45;

/// `:`, the tag of an integer.
pub const TAG_INTEGER: u8 = 58;

/// `$`, the tag of a blob and of the null frame.
pub const TAG_BULK: u8 = 36;

/// `*`, the tag of an array.
pub const TAG_ARRAY: u8 = 42;

/// `0`, the first of the ten digits.
pub const DIGIT_ZERO: u8 = 48;

/// The line terminator.
pub open spec fn crlf() -> Seq<u8> {
    seq![CR, LF]
}

pub open spec fn is_digit(b: u8) -> bool {
    48 <= b <= 57
}

/// The decimal digits of `n`, without leading zeros.
pub open spec fn decimal_spec(n: nat) -> Seq<u8>
    decreases n,
{
    if n < 10 {
        seq![(48 + n) as u8]
    } else {
        decimal_spec(n / 10).push((48 + n % 10) as u8)
    }
}

/// The number that `digits` is the decimal form of; none when `digits` is
/// empty, holds anything but digits, or has a leading zero.
pub open spec fn decimal_value(digits: Seq<u8>) -> Option<nat>
    decreases digits.len(),
{
    if digits.len() == 0 || !is_digit(digits.last()) {
        None
    } else if digits.len() == 1 {
        Some((digits.last() - 48) as nat)
    } else {
        match decimal_value(digits.drop_last()) {
            Some(high) => if high > 0 {
                Some(10 * high + (digits.last() - 48) as nat)
            } else {
                None
            },
            None => None,
        }
    }
}

/// The index of the first CR LF at or after `from`.
pub open spec fn line_end(bytes: Seq<u8>, from: int) -> Option<int>
    decreases bytes.len() - from,
{
    if from < 0 || from + 1 >= bytes.len() {
        None
    } else if bytes[from] == CR && bytes[from + 1] == LF {
        Some(from)
    } else {
        line_end(bytes, from + 1)
    }
}

/// Whether `bytes` holds a CR LF.
pub open spec fn has_line_break(bytes: Seq<u8>) -> bool {
    exists|i: int| 0 <= i && i + 1 < bytes.len() && bytes[i] == CR && #[trigger] bytes[i + 1] == LF
}

/// The digits of a number read back give the number, and digits hold no
/// line break.
pub proof fn lemma_decimal_round_trip(n: nat)
    ensures
        decimal_value(decimal_spec(n)) == Some(n),
        decimal_spec(n).len() > 0,
        forall|i: int| 0 <= i < decimal_spec(n).len() ==> is_digit(#[trigger] decimal_spec(n)[i]),
        !has_line_break(decimal_spec(n)),
    decreases n,
{
    if n >= 10 {
        lemma_decimal_round_trip(n / 10);
        let high = decimal_spec(n / 10);
        assert(decimal_spec(n).drop_last() =~= high);
    }
}

/// The value of a decimal form is at least the value of any of its leading
/// parts, each of which is a decimal form too.
pub proof fn lemma_decimal_prefix(digits: Seq<u8>, k: int)
    requires
        decimal_value(digits) is Some,
        1 <= k <= digits.len(),
    ensures
        decimal_value(digits.take(k)) is Some,
        decimal_value(digits.take(k)).unwrap() <= decimal_value(digits).unwrap(),
    decreases digits.len(),
{
    if k == digits.len() {
        assert(digits.take(k) =~= digits);
    } else {
        lemma_decimal_prefix(digits.drop_last(), k);
        assert(digits.drop_last().take(k) =~= digits.take(k));
    }
}

/// Appends `bytes`.
pub fn put_bytes(out: &mut Vec<u8>, bytes: &[u8])
    ensures
        final(out)@ == old(out)@ + bytes@,
{
    let mut i: usize = 0;
    while i < bytes.len()
        invariant
            i <= bytes@.len(),
            out@ == old(out)@ + bytes@.take(i as int),
        decreases bytes@.len() - i,
    {
        out.push(bytes[i]);
        assert(out@ =~= old(out)@ + bytes@.take(i + 1));
        i += 1;
    }
    assert(bytes@.take(bytes@.len() as int) =~= bytes@);
}

/// Appends the line terminator.
pub fn put_crlf(out: &mut Vec<u8>)
    ensures
        final(out)@ == old(out)@ + crlf(),
{
    out.push(CR);
    out.push(LF);
    assert(out@ =~= old(out)@ + crlf());
}

/// Appends the decimal digits of `n`.
pub fn put_decimal(out: &mut Vec<u8>, n: u64)
    ensures
        final(out)@ == old(out)@ + decimal_spec(n as nat),
    decreases n,
{
    if n < 10 {
        out.push(DIGIT_ZERO + n as u8);
        assert(out@ =~= old(out)@ + decimal_spec(n as nat));
    } else {
        put_decimal(out, n / 10);
        out.push(DIGIT_ZERO + (n % 10) as u8);
        assert(out@ =~= old(out)@ + decimal_spec(n as nat));
    }
}

/// Reads a number from its decimal form.  `None` when `digits` is the
/// decimal form of no number or of one beyond 64 bits.
pub fn read_decimal(digits: &[u8]) -> (r: Option<u64>)
    ensures
        match r {
            Some(v) => decimal_value(digits@) == Some(v as nat),
            None => decimal_value(digits@) is None || decimal_value(digits@).unwrap() > u64::MAX,
        },
{
    if digits.len() == 0 {
        return None;
    }
    if !(digits[0] >= DIGIT_ZERO && digits[0] <= 57) {
        proof {
            if decimal_value(digits@) is Some {
                lemma_decimal_prefix(digits@, 1);
                assert(digits@.take(1).last() == digits@[0]);
            }
        }
        return None;
    }
    let mut acc: u64 = (digits[0] - DIGIT_ZERO) as u64;
    let mut i: usize = 1;
    assert(digits@.take(1).last() == digits@[0]);
    while i < digits.len()
        invariant
            1 <= i <= digits@.len(),
            decimal_value(digits@.take(i as int)) == Some(acc as nat),
        decreases digits@.len() - i,
    {
        let b: u8 = digits[i];
        proof {
            assert(digits@.take(i + 1).drop_last() =~= digits@.take(i as int));
            assert(digits@.take(i + 1).last() == b);
            if decimal_value(digits@) is Some {
                lemma_decimal_prefix(digits@, i + 1);
            }
        }
        if !(b >= DIGIT_ZERO && b <= 57) || acc == 0 {
            return None;
        }
        let d: u64 = (b - DIGIT_ZERO) as u64;
        if acc > (u64::MAX - d) / 10 {
            return None;
        }
        acc = 10 * acc + d;
        i += 1;
    }
    assert(digits@.take(digits@.len() as int) =~= digits@);
    Some(acc)
}

/// Finds the first CR LF at or after `from`.
pub fn find_line_end(bytes: &[u8], from: usize) -> (r: Option<usize>)
    ensures
        match r {
            Some(e) => line_end(bytes@, from as int) == Some(e as int) && from <= e && e + 1
                < bytes@.len(),
            None => line_end(bytes@, from as int) is None,
        },
{
    let mut i: usize = from;
    while i < bytes.len() && bytes.len() - i >= 2
        invariant
            from <= i,
            line_end(bytes@, from as int) == line_end(bytes@, i as int),
        decreases bytes@.len() - i,
    {
        if bytes[i] == CR && bytes[i + 1] == LF {
            return Some(i);
        }
        i += 1;
    }
    None
}

/// The bytes of a frame on the wire.
pub open spec fn encode_spec(frame: FrameView) -> Seq<u8>
    decreases frame, 0nat,
{
    match frame {
        FrameView::Simple(text) => seq![TAG_SIMPLE] + vstd::utf8::encode_utf8(text) + crlf(),
        FrameView::Error(text) => seq![TAG_ERROR] + vstd::utf8::encode_utf8(text) + crlf(),
        FrameView::Integer(n) => seq![TAG_INTEGER] + decimal_spec(n as nat) + crlf(),
        FrameView::Bulk(blob) => seq![TAG_BULK] + decimal_spec(blob.len()) + crlf() + blob
            + crlf(),
        FrameView::Null => seq![TAG_BULK, TAG_ERROR, 49u8] + crlf(),
        FrameView::Array(frames) => seq![TAG_ARRAY] + decimal_spec(frames.len()) + crlf()
            + encode_all(frames, frames.len()),
    }
}

/// The bytes of the first `n` of `frames`, one after the other.
pub open spec fn encode_all(frames: Seq<FrameView>, n: nat) -> Seq<u8>
    decreases frames, n,
{
    if n == 0 || n > frames.len() {
        Seq::empty()
    } else {
        encode_all(frames, (n - 1) as nat) + encode_spec(frames[n - 1])
    }
}

/// Appends the bytes of `frame`.
pub fn encode(frame: &Frame, out: &mut Vec<u8>)
    ensures
        final(out)@ == old(out)@ + encode_spec(frame@),
    decreases frame,
{
    match frame {
        Frame::Simple(text) => {
            out.push(TAG_SIMPLE);
            put_bytes(out, text.as_str().as_bytes());
            put_crlf(out);
            assert(out@ =~= old(out)@ + encode_spec(frame@));
        },
        Frame::Error(text) => {
            out.push(TAG_ERROR);
            put_bytes(out, text.as_str().as_bytes());
            put_crlf(out);
            assert(out@ =~= old(out)@ + encode_spec(frame@));
        },
        Frame::Integer(n) => {
            out.push(TAG_INTEGER);
            put_decimal(out, *n);
            put_crlf(out);
            assert(out@ =~= old(out)@ + encode_spec(frame@));
        },
        Frame::Bulk(blob) => {
            out.push(TAG_BULK);
            put_decimal(out, blob.len() as u64);
            put_crlf(out);
            put_bytes(out, blob.as_slice());
            put_crlf(out);
            assert(out@ =~= old(out)@ + encode_spec(frame@));
        },
        Frame::Null => {
            out.push(TAG_BULK);
            out.push(TAG_ERROR);
            out.push(49u8);
            put_crlf(out);
            assert(out@ =~= old(out)@ + encode_spec(frame@));
        },
        Frame::Array(frames) => {
            out.push(TAG_ARRAY);
            put_decimal(out, frames.len() as u64);
            put_crlf(out);
            let ghost head = out@;
            let ghost views = crate::net::frame::views(frames@);
            proof {
                crate::net::frame::lemma_array_view(*frames);
            }
            let mut i: usize = 0;
            assert(out@ =~= head + encode_all(views, 0));
            while i < frames.len()
                invariant
                    i <= frames@.len(),
                    *frame == Frame::Array(*frames),
                    views == crate::net::frame::views(frames@),
                    out@ == head + encode_all(views, i as nat),
                decreases frames@.len() - i,
            {
                // The frame written next is part of this one.
                assert(decreases_to!(*frame => frame->Array_0[i as int]));
                encode(&frames[i], out);
                assert(out@ =~= head + encode_all(views, (i + 1) as nat));
                i += 1;
            }
            assert(out@ =~= old(out)@ + encode_spec(frame@));
        },
    }
}

/// The bytes of `frame` on the wire.
pub fn to_bytes(frame: &Frame) -> (bytes: Vec<u8>)
    ensures
        bytes@ == encode_spec(frame@),
{
    let mut out: Vec<u8> = Vec::new();
    encode(frame, &mut out);
    assert(out@ =~= encode_spec(frame@));
    out
}

/// What reading from the front of some bytes comes to: a value and the
/// number of bytes that it took; not enough bytes yet; or bytes that no
/// further bytes can mend.
pub enum Parsed<T> {
    Complete(T, int),
    Incomplete,
    Invalid,
}

/// Whether `b` is one of the five tags.
pub open spec fn is_tag(b: u8) -> bool {
    b == TAG_SIMPLE || b == TAG_ERROR || b == TAG_INTEGER || b == TAG_BULK || b == TAG_ARRAY
}

/// The frames of a run as one array frame.
pub open spec fn as_array(run: Parsed<Seq<FrameView>>) -> Parsed<FrameView> {
    match run {
        Parsed::Complete(frames, end) => Parsed::Complete(FrameView::Array(frames), end),
        Parsed::Incomplete => Parsed::Incomplete,
        Parsed::Invalid => Parsed::Invalid,
    }
}

/// The frame at the front of `bytes`.
pub open spec fn parse_spec(bytes: Seq<u8>) -> Parsed<FrameView>
    decreases bytes.len(), 1nat, 0nat,
{
    if bytes.len() == 0 {
        Parsed::Incomplete
    } else if !is_tag(bytes[0]) {
        Parsed::Invalid
    } else {
        match line_end(bytes, 1) {
            None => Parsed::Incomplete,
            Some(e) => {
                let line = bytes.subrange(1, e);
                let after = e + 2;
                if e < 1 || after > bytes.len() {
                    Parsed::Invalid
                } else if bytes[0] == TAG_SIMPLE {
                    if vstd::utf8::valid_utf8(line) {
                        Parsed::Complete(FrameView::Simple(vstd::utf8::decode_utf8(line)), after)
                    } else {
                        Parsed::Invalid
                    }
                } else if bytes[0] == TAG_ERROR {
                    if vstd::utf8::valid_utf8(line) {
                        Parsed::Complete(FrameView::Error(vstd::utf8::decode_utf8(line)), after)
                    } else {
                        Parsed::Invalid
                    }
                } else if bytes[0] == TAG_INTEGER {
                    match decimal_value(line) {
                        Some(n) => if n <= u64::MAX {
                            Parsed::Complete(FrameView::Integer(n as u64), after)
                        } else {
                            Parsed::Invalid
                        },
                        None => Parsed::Invalid,
                    }
                } else if bytes[0] == TAG_BULK {
                    if line == seq![TAG_ERROR, 49u8] {
                        Parsed::Complete(FrameView::Null, after)
                    } else {
                        match decimal_value(line) {
                            Some(n) => if n > u64::MAX {
                                Parsed::Invalid
                            } else if bytes.len() < after + n + 2 {
                                Parsed::Incomplete
                            } else if bytes[after + n] != CR || bytes[after + n + 1] != LF {
                                Parsed::Invalid
                            } else {
                                Parsed::Complete(
                                    FrameView::Bulk(bytes.subrange(after, after + n)),
                                    after + n + 2,
                                )
                            },
                            None => Parsed::Invalid,
                        }
                    }
                } else {
                    match decimal_value(line) {
                        Some(n) => if n > u64::MAX {
                            Parsed::Invalid
                        } else {
                            as_array(parse_all(bytes, after, n))
                        },
                        None => Parsed::Invalid,
                    }
                }
            },
        }
    }
}

/// The `count` frames that follow one another in `bytes` from `start` on,
/// and where the last of them ends.
pub open spec fn parse_all(bytes: Seq<u8>, start: int, count: nat) -> Parsed<Seq<FrameView>>
    decreases bytes.len(), 0nat, count,
{
    if count == 0 {
        Parsed::Complete(Seq::empty(), start)
    } else {
        match parse_all(bytes, start, (count - 1) as nat) {
            Parsed::Complete(frames, at) => if start < 1 || at < start || at > bytes.len() {
                Parsed::Invalid
            } else {
                match parse_spec(bytes.subrange(at, bytes.len() as int)) {
                    Parsed::Complete(frame, used) => Parsed::Complete(frames.push(frame),
                        at + used),
                    Parsed::Incomplete => Parsed::Incomplete,
                    Parsed::Invalid => Parsed::Invalid,
                }
            },
            Parsed::Incomplete => Parsed::Incomplete,
            Parsed::Invalid => Parsed::Invalid,
        }
    }
}

/// What reading a frame comes to.
#[derive(Debug)]
pub enum Decoded {
    /// A frame, and the number of bytes that it took.
    Complete(Frame, usize),
    /// The bytes end before the frame does.
    Incomplete,
    /// The bytes are not the beginning of any frame.
    Invalid,
}

impl View for Decoded {
    type V = Parsed<FrameView>;

    open spec fn view(&self) -> Parsed<FrameView> {
        match self {
            Decoded::Complete(frame, used) => Parsed::Complete(frame@, *used as int),
            Decoded::Incomplete => Parsed::Incomplete,
            Decoded::Invalid => Parsed::Invalid,
        }
    }
}

/// Calls `String::from_utf8`, which turns a vector of bytes into the string
/// that has those bytes, and fails when they are not valid UTF-8.
#[verifier::external_body]
fn string_from_utf8(bytes: Vec<u8>) -> (r: Option<String>)
    ensures
        match r {
            Some(s) => vstd::utf8::valid_utf8(bytes@) && vstd::utf8::encode_utf8(s@) == bytes@,
            None => !vstd::utf8::valid_utf8(bytes@),
        },
{
    String::from_utf8(bytes).ok()
}

/// Reads the text of a line.
fn read_text(line: &[u8]) -> (r: Option<String>)
    ensures
        match r {
            Some(s) => vstd::utf8::valid_utf8(line@) && s@ == vstd::utf8::decode_utf8(line@),
            None => !vstd::utf8::valid_utf8(line@),
        },
{
    let r = string_from_utf8(vstd::slice::slice_to_vec(line));
    proof {
        if r is Some {
            vstd::utf8::encode_utf8_decode_utf8(r->Some_0@);
        }
    }
    r
}

/// A frame that is complete has taken its tag and its line terminator.
pub proof fn lemma_parse_takes_bytes(bytes: Seq<u8>)
    ensures
        parse_spec(bytes) matches Parsed::Complete(_, used) ==> 3 <= used <= bytes.len(),
    decreases bytes.len(), 1nat, 0nat,
{
    if bytes.len() > 0 && is_tag(bytes[0]) {
        lemma_line_end_bounds(bytes, 1);
        if let Some(e) = line_end(bytes, 1) {
            if bytes[0] == TAG_ARRAY {
                if let Some(n) = decimal_value(bytes.subrange(1, e)) {
                    lemma_parse_all_takes_bytes(bytes, e + 2, n);
                }
            }
        }
    }
}

/// Frames that follow a start end after it and within the bytes.
pub proof fn lemma_parse_all_takes_bytes(bytes: Seq<u8>, start: int, count: nat)
    requires
        3 <= start <= bytes.len(),
    ensures
        parse_all(bytes, start, count) matches Parsed::Complete(frames, end) ==> start <= end
            <= bytes.len() && frames.len() == count,
    decreases bytes.len(), 0nat, count,
{
    if count > 0 {
        lemma_parse_all_takes_bytes(bytes, start, (count - 1) as nat);
        if let Parsed::Complete(frames, at) = parse_all(bytes, start, (count - 1) as nat) {
            lemma_parse_takes_bytes(bytes.subrange(at, bytes.len() as int));
        }
    }
}

/// A line ends where a search for its end began, or later, and its
/// terminator lies within the bytes.
pub proof fn lemma_line_end_bounds(bytes: Seq<u8>, from: int)
    ensures
        line_end(bytes, from) matches Some(e) ==> from <= e && e + 1 < bytes.len() && bytes[e]
            == CR && bytes[e + 1] == LF,
    decreases bytes.len() - from,
{
    if !(from < 0 || from + 1 >= bytes.len()) && !(bytes[from] == CR && bytes[from + 1] == LF) {
        lemma_line_end_bounds(bytes, from + 1);
    }
}

/// Reads the frame at the front of `bytes`.
pub fn decode(bytes: &[u8]) -> (r: Decoded)
    ensures
        r@ == parse_spec(bytes@),
    decreases bytes@.len(),
{
    if bytes.len() == 0 {
        return Decoded::Incomplete;
    }
    let tag: u8 = bytes[0];
    if !(tag == TAG_SIMPLE || tag == TAG_ERROR || tag == TAG_INTEGER || tag == TAG_BULK || tag
        == TAG_ARRAY) {
        return Decoded::Invalid;
    }
    let e: usize = match find_line_end(bytes, 1) {
        None => {
            return Decoded::Incomplete;
        },
        Some(e) => e,
    };
    let line = vstd::slice::slice_subrange(bytes, 1, e);
    let after: usize = e + 2;
    if tag == TAG_SIMPLE {
        match read_text(line) {
            Some(text) => Decoded::Complete(Frame::Simple(text), after),
            None => Decoded::Invalid,
        }
    } else if tag == TAG_ERROR {
        match read_text(line) {
            Some(text) => Decoded::Complete(Frame::Error(text), after),
            None => Decoded::Invalid,
        }
    } else if tag == TAG_INTEGER {
        match read_decimal(line) {
            Some(n) => Decoded::Complete(Frame::Integer(n), after),
            None => Decoded::Invalid,
        }
    } else if tag == TAG_BULK {
        if line.len() == 2 && line[0] == TAG_ERROR && line[1] == 49u8 {
            assert(line@ =~= seq![TAG_ERROR, 49u8]);
            return Decoded::Complete(Frame::Null, after);
        }
        assert(line@ != seq![TAG_ERROR, 49u8]) by {
            if line@ == seq![TAG_ERROR, 49u8] {
                assert(line@.len() == 2 && line@[0] == TAG_ERROR && line@[1] == 49u8);
            }
        }
        match read_decimal(line) {
            None => Decoded::Invalid,
            Some(n) => {
                let left: usize = bytes.len() - after;
                if left < 2 || n > (left - 2) as u64 {
                    return Decoded::Incomplete;
                }
                let len: usize = n as usize;
                if bytes[after + len] != CR || bytes[after + len + 1] != LF {
                    return Decoded::Invalid;
                }
                let blob = vstd::slice::slice_to_vec(
                    vstd::slice::slice_subrange(bytes, after, after + len),
                );
                Decoded::Complete(Frame::Bulk(blob), after + len + 2)
            },
        }
    } else {
        match read_decimal(line) {
            None => Decoded::Invalid,
            Some(n) => {
                let mut frames: Vec<Frame> = Vec::new();
                let mut at: usize = after;
                let mut i: u64 = 0;
                assert(crate::net::frame::views(frames@) =~= Seq::<FrameView>::empty());
                while i < n
                    invariant
                        i <= n,
                        3 <= after <= at <= bytes@.len(),
                        parse_spec(bytes@) == as_array(
                            parse_all(bytes@, after as int, n as nat),
                        ),
                        parse_all(bytes@, after as int, i as nat) == Parsed::Complete(
                            crate::net::frame::views(frames@),
                            at as int,
                        ),
                    decreases n - i,
                {
                    let rest = vstd::slice::slice_subrange(bytes, at, bytes.len());
                    proof {
                        lemma_parse_takes_bytes(rest@);
                    }
                    match decode(rest) {
                        Decoded::Complete(frame, used) => {
                            let ghost before = crate::net::frame::views(frames@);
                            frames.push(frame);
                            assert(crate::net::frame::views(frames@) =~= before.push(frame@));
                            at = at + used;
                        },
                        Decoded::Incomplete => {
                            proof {
                                lemma_parse_all_stops(bytes@, after as int, (i + 1) as nat,
                                    n as nat);
                            }
                            return Decoded::Incomplete;
                        },
                        Decoded::Invalid => {
                            proof {
                                lemma_parse_all_stops(bytes@, after as int, (i + 1) as nat,
                                    n as nat);
                            }
                            return Decoded::Invalid;
                        },
                    }
                    i += 1;
                }
                proof {
                    crate::net::frame::lemma_array_view(frames);
                }
                Decoded::Complete(Frame::Array(frames), at)
            },
        }
    }
}

/// Once some frame of a run is incomplete or invalid, so is every longer
/// run.
pub proof fn lemma_parse_all_stops(bytes: Seq<u8>, start: int, k: nat, count: nat)
    requires
        k <= count,
        !(parse_all(bytes, start, k) is Complete),
    ensures
        parse_all(bytes, start, count) == parse_all(bytes, start, k),
    decreases count,
{
    if k < count {
        lemma_parse_all_stops(bytes, start, k, (count - 1) as nat);
    }
}

/// Whether a frame can be read back from its bytes: its text holds no CR
/// LF, and its lengths fit 64 bits.
pub open spec fn well_formed(frame: FrameView) -> bool
    decreases frame,
{
    match frame {
        FrameView::Simple(text) => !has_line_break(vstd::utf8::encode_utf8(text)),
        FrameView::Error(text) => !has_line_break(vstd::utf8::encode_utf8(text)),
        FrameView::Integer(_) => true,
        FrameView::Bulk(blob) => blob.len() <= u64::MAX,
        FrameView::Null => true,
        FrameView::Array(frames) => frames.len() <= u64::MAX && forall|i: int|
            0 <= i < frames.len() ==> well_formed(#[trigger] frames[i]),
    }
}

/// A line without a line break ends at its terminator.
proof fn lemma_line_end_found(tag: u8, line: Seq<u8>, rest: Seq<u8>, from: int)
    requires
        !has_line_break(line),
        1 <= from <= 1 + line.len(),
    ensures
        line_end(seq![tag] + line + crlf() + rest, from) == Some(1 + line.len() as int),
    decreases 1 + line.len() - from,
{
    let bytes = seq![tag] + line + crlf() + rest;
    assert(bytes[1 + line.len() as int] == CR);
    assert(bytes[2 + line.len() as int] == LF);
    if from < 1 + line.len() {
        assert(bytes[from] == line[from - 1]);
        if bytes[from] == CR && bytes[from + 1] == LF {
            if from + 1 < 1 + line.len() {
                assert(bytes[from + 1] == line[from]);
                assert(line[(from - 1) + 1] == LF);
                assert(has_line_break(line));
            }
        }
        lemma_line_end_found(tag, line, rest, from + 1);
    }
}

/// The first `n` frames of `frames` are encoded at the front of all of
/// them.
proof fn lemma_encode_all_prefix(frames: Seq<FrameView>, n: nat, m: nat)
    requires
        n <= m <= frames.len(),
    ensures
        encode_all(frames, n).len() <= encode_all(frames, m).len(),
        encode_all(frames, m).subrange(0, encode_all(frames, n).len() as int) == encode_all(
            frames,
            n,
        ),
    decreases m - n,
{
    if n < m {
        lemma_encode_all_prefix(frames, n, (m - 1) as nat);
        assert(encode_all(frames, m).subrange(0, encode_all(frames, n).len() as int) =~= encode_all(
            frames,
            (m - 1) as nat,
        ).subrange(0, encode_all(frames, n).len() as int));
    } else {
        assert(encode_all(frames, m).subrange(0, encode_all(frames, n).len() as int) =~= encode_all(
            frames,
            n,
        ));
    }
}

/// Reading gives back what was written: a well-formed frame is read from
/// its bytes, whatever follows them, and takes exactly its bytes.
pub proof fn lemma_parse_encode(frame: FrameView, rest: Seq<u8>)
    requires
        well_formed(frame),
    ensures
        parse_spec(encode_spec(frame) + rest) == Parsed::Complete(
            frame,
            encode_spec(frame).len() as int,
        ),
    decreases frame, 0nat,
{
    let bytes = encode_spec(frame) + rest;
    match frame {
        FrameView::Simple(text) => {
            let line = vstd::utf8::encode_utf8(text);
            assert(bytes =~= seq![TAG_SIMPLE] + line + crlf() + rest);
            lemma_line_end_found(TAG_SIMPLE, line, rest, 1);
            assert(bytes.subrange(1, 1 + line.len() as int) =~= line);
            vstd::utf8::encode_utf8_valid_utf8(text);
            vstd::utf8::encode_utf8_decode_utf8(text);
        },
        FrameView::Error(text) => {
            let line = vstd::utf8::encode_utf8(text);
            assert(bytes =~= seq![TAG_ERROR] + line + crlf() + rest);
            lemma_line_end_found(TAG_ERROR, line, rest, 1);
            assert(bytes.subrange(1, 1 + line.len() as int) =~= line);
            vstd::utf8::encode_utf8_valid_utf8(text);
            vstd::utf8::encode_utf8_decode_utf8(text);
        },
        FrameView::Integer(n) => {
            let line = decimal_spec(n as nat);
            lemma_decimal_round_trip(n as nat);
            assert(bytes =~= seq![TAG_INTEGER] + line + crlf() + rest);
            lemma_line_end_found(TAG_INTEGER, line, rest, 1);
            assert(bytes.subrange(1, 1 + line.len() as int) =~= line);
        },
        FrameView::Bulk(blob) => {
            let line = decimal_spec(blob.len());
            lemma_decimal_round_trip(blob.len());
            assert(bytes =~= seq![TAG_BULK] + line + crlf() + (blob + crlf() + rest));
            lemma_line_end_found(TAG_BULK, line, blob + crlf() + rest, 1);
            assert(bytes.subrange(1, 1 + line.len() as int) =~= line);
            assert(line != seq![TAG_ERROR, 49u8]) by {
                assert(is_digit(line[0]));
            }
            let after = 3 + line.len() as int;
            assert(bytes.subrange(after, after + blob.len()) =~= blob);
            assert(bytes[after + blob.len()] == CR);
            assert(bytes[after + blob.len() + 1] == LF);
        },
        FrameView::Null => {
            let line = seq![TAG_ERROR, 49u8];
            assert(bytes =~= seq![TAG_BULK] + line + crlf() + rest);
            assert(!has_line_break(line));
            lemma_line_end_found(TAG_BULK, line, rest, 1);
            assert(bytes.subrange(1, 3) =~= line);
        },
        FrameView::Array(frames) => {
            let line = decimal_spec(frames.len());
            lemma_decimal_round_trip(frames.len());
            let body = encode_all(frames, frames.len());
            assert(bytes =~= seq![TAG_ARRAY] + line + crlf() + (body + rest));
            lemma_line_end_found(TAG_ARRAY, line, body + rest, 1);
            assert(bytes.subrange(1, 1 + line.len() as int) =~= line);
            let head = seq![TAG_ARRAY] + line + crlf();
            assert(bytes =~= head + body + rest);
            lemma_parse_all_encode(head, frames, frames.len(), rest);
            assert(frames.take(frames.len() as int) =~= frames);
        },
    }
}

/// The first `n` frames of an array are read from the bytes of the array,
/// one after the other.
proof fn lemma_parse_all_encode(head: Seq<u8>, frames: Seq<FrameView>, n: nat, rest: Seq<u8>)
    requires
        head.len() >= 3,
        n <= frames.len(),
        forall|i: int| 0 <= i < frames.len() ==> well_formed(#[trigger] frames[i]),
    ensures
        parse_all(
            head + encode_all(frames, frames.len()) + rest,
            head.len() as int,
            n,
        ) == Parsed::Complete(
            frames.take(n as int),
            (head.len() + encode_all(frames, n).len()) as int,
        ),
    decreases frames, n,
{
    let body = encode_all(frames, frames.len());
    let bytes = head + body + rest;
    if n == 0 {
        assert(frames.take(0) =~= Seq::<FrameView>::empty());
    } else {
        lemma_parse_all_encode(head, frames, (n - 1) as nat, rest);
        lemma_encode_all_prefix(frames, (n - 1) as nat, n);
        lemma_encode_all_prefix(frames, n, frames.len());
        let at = head.len() + encode_all(frames, (n - 1) as nat).len();
        let one = encode_spec(frames[n - 1]);
        let end = head.len() + encode_all(frames, n).len();
        let tail = bytes.subrange(end as int, bytes.len() as int);
        assert(encode_all(frames, n) == encode_all(frames, (n - 1) as nat) + one);
        assert(bytes.subrange(at as int, bytes.len() as int) =~= one + tail) by {
            assert(body.subrange(0, encode_all(frames, n).len() as int) == encode_all(frames, n));
            assert forall|k: int| 0 <= k < one.len() implies bytes[at + k] == one[k] by {
                assert(bytes[at + k] == body[at - head.len() + k]);
                assert(body[at - head.len() + k] == body.subrange(
                    0,
                    encode_all(frames, n).len() as int,
                )[at - head.len() + k]);
            }
        }
        lemma_parse_encode(frames[n - 1], tail);
        assert(frames.take(n as int) =~= frames.take(n - 1).push(frames[n - 1]));
    }
}

} // verus!
