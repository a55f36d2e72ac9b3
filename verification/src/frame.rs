//! LSP base-protocol framing: `Content-Length: <n>\r\n\r\n<body>`.
//!
//! The reader splits a byte stream into message bodies, tolerant to
//! real-world header quirks; the writer frames a body with a canonical
//! header. Splitting what the writer produced gives back exactly the
//! original bodies ([`lemma_framing_round_trip`]).

use vstd::prelude::*;
use vstd::utf8::valid_utf8;
use crate::search::{
    first_match, first_match_from, lemma_first_match_from_props, lemma_first_match_skip, match_at,
    find_from, find_sub,
};
use crate::text::{ascii_bytes, bytes_eq, concat_bytes, str_bytes, subrange_bytes};

verus! {

/// Upper bound on a message body: larger `Content-Length` values are
/// rejected.
pub const MAX_CONTENT_LENGTH: usize = 16777216;

/// Upper bound on a header block.
pub const MAX_HEADER_BYTES: usize = 8192;

/// Why a stream cannot be framed.
#[derive(Clone, Copy, PartialEq, Eq, Structural, Debug)]
pub enum FrameError {
    /// The header block exceeds [`MAX_HEADER_BYTES`].
    HeaderTooLarge,
    /// The header block is not UTF-8.
    HeaderNotUtf8,
    /// No `Content-Length` header is present.
    MissingContentLength,
    /// The `Content-Length` value is not a decimal number.
    BadContentLength,
    /// The `Content-Length` value exceeds [`MAX_CONTENT_LENGTH`].
    ContentLengthTooLarge,
    /// The stream ended inside a frame.
    UnexpectedEof,
}

/// The header line separator.
pub open spec fn crlf() -> Seq<u8> {
    seq![13u8, 10u8]
}

/// The sentinel between the header block and the body.
pub open spec fn crlf_crlf() -> Seq<u8> {
    seq![13u8, 10u8, 13u8, 10u8]
}

/// An ASCII decimal digit.
pub open spec fn is_digit(b: u8) -> bool {
    48 <= b <= 57
}

/// All bytes are decimal digits.
pub open spec fn all_digits(s: Seq<u8>) -> bool {
    forall|i: int| 0 <= i < s.len() ==> is_digit(#[trigger] s[i])
}

/// The number a digit sequence denotes (most significant first); non-digit
/// bytes count as zero.
pub open spec fn dec_value(s: Seq<u8>) -> int
    decreases s.len(),
{
    if s.len() == 0 {
        0
    } else {
        dec_value(s.drop_last()) * 10 + (if is_digit(s.last()) {
            s.last() - 48
        } else {
            0
        })
    }
}

/// The decimal digits of `n`, most significant first, no leading zeros.
pub open spec fn dec_repr(n: nat) -> Seq<u8>
    decreases n,
{
    if n < 10 {
        seq![(48 + n) as u8]
    } else {
        dec_repr(n / 10).push((48 + n % 10) as u8)
    }
}

/// The decimal representation consists of digits and denotes `n`.
pub proof fn lemma_dec_repr(n: nat)
    ensures
        dec_repr(n).len() >= 1,
        all_digits(dec_repr(n)),
        dec_value(dec_repr(n)) == n,
    decreases n,
{
    if n < 10 {
        assert(dec_repr(n) =~= seq![(48 + n) as u8]);
        let d = seq![(48 + n) as u8];
        assert(d.drop_last() =~= Seq::<u8>::empty());
        assert(dec_value(Seq::<u8>::empty()) == 0);
        assert(d.last() == (48 + n) as u8);
        assert(is_digit(d.last()));
        assert(dec_value(d) == dec_value(d.drop_last()) * 10 + (d.last() - 48));
        assert(dec_value(d) == n);
    } else {
        assert(n / 10 < n) by (nonlinear_arith)
            requires
                n >= 10,
        ;
        lemma_dec_repr(n / 10);
        let d = dec_repr(n / 10);
        let w = d.push((48 + n % 10) as u8);
        assert(w.drop_last() =~= d);
        assert(forall|i: int| 0 <= i < w.len() ==> is_digit(#[trigger] w[i]));
        assert(n / 10 * 10 + n % 10 == n) by (nonlinear_arith);
    }
}

/// A value below `10^k` prints in at most `k` digits.
pub proof fn lemma_dec_repr_len(n: nat, k: nat)
    requires
        k >= 1,
        n < pow10(k),
    ensures
        dec_repr(n).len() <= k,
    decreases k,
{
    if n < 10 {
    } else {
        assert(k >= 2) by {
            if k == 1 {
                assert(pow10(0nat) == 1);
                assert(pow10(1nat) == 10);
            }
        }
        assert(n / 10 < pow10((k - 1) as nat)) by (nonlinear_arith)
            requires
                n < pow10(k),
                pow10(k) == 10 * pow10((k - 1) as nat),
                n >= 10,
        ;
        lemma_dec_repr_len(n / 10, (k - 1) as nat);
    }
}

/// Powers of ten.
pub open spec fn pow10(k: nat) -> nat
    decreases k,
{
    if k == 0 {
        1
    } else {
        10 * pow10((k - 1) as nat)
    }
}

/// A digit string's value only grows as digits are appended.
pub proof fn lemma_dec_value_take(s: Seq<u8>, i: int)
    requires
        0 <= i <= s.len(),
    ensures
        dec_value(s) >= dec_value(s.take(i)) >= 0,
    decreases s.len() - i,
{
    if i == s.len() {
        assert(s.take(i) =~= s);
        lemma_dec_value_nonneg(s);
    } else {
        lemma_dec_value_take(s, i + 1);
        let t = s.take(i + 1);
        assert(t.drop_last() =~= s.take(i));
        lemma_dec_value_nonneg(s.take(i));
    }
}

/// A digit string's value is never negative.
pub proof fn lemma_dec_value_nonneg(s: Seq<u8>)
    ensures
        dec_value(s) >= 0,
    decreases s.len(),
{
    if s.len() > 0 {
        lemma_dec_value_nonneg(s.drop_last());
    }
}

/// Appending one digit multiplies by ten and adds it.
pub proof fn lemma_dec_value_step(s: Seq<u8>, i: int)
    requires
        0 <= i < s.len(),
    ensures
        dec_value(s.take(i + 1)) == dec_value(s.take(i)) * 10 + (if is_digit(s[i]) {
            s[i] - 48
        } else {
            0
        }),
{
    let t = s.take(i + 1);
    assert(t.drop_last() =~= s.take(i));
    assert(t.last() == s[i]);
}

/// Print `n` in decimal, as executable code.
pub fn format_dec(n: usize) -> (r: Vec<u8>)
    ensures
        r@ == dec_repr(n as nat),
    decreases n,
{
    if n < 10 {
        let mut v: Vec<u8> = Vec::new();
        v.push(48 + (n as u8));
        proof {
            assert(v@ =~= seq![(48 + n) as u8]);
        }
        v
    } else {
        proof {
            assert(n / 10 < n) by (nonlinear_arith)
                requires
                    n >= 10,
            ;
        }
        let mut v = format_dec(n / 10);
        v.push(48 + ((n % 10) as u8));
        v
    }
}

/// ASCII whitespace, as header values are trimmed.
pub open spec fn is_ws(b: u8) -> bool {
    b == 9 || b == 10 || b == 13 || b == 32
}

/// Leading whitespace removed.
pub open spec fn trim_front(s: Seq<u8>) -> Seq<u8>
    decreases s.len(),
{
    if s.len() > 0 && is_ws(s[0]) {
        trim_front(s.skip(1))
    } else {
        s
    }
}

/// Trailing whitespace removed.
pub open spec fn trim_back(s: Seq<u8>) -> Seq<u8>
    decreases s.len(),
{
    if s.len() > 0 && is_ws(s.last()) {
        trim_back(s.drop_last())
    } else {
        s
    }
}

/// Whitespace removed from both ends.
pub open spec fn trim_spec(s: Seq<u8>) -> Seq<u8> {
    trim_back(trim_front(s))
}

/// Trim ASCII whitespace from both ends, as executable code.
pub fn trim_bytes(s: &[u8]) -> (r: Vec<u8>)
    ensures
        r@ == trim_spec(s@),
{
    let n = s.len();
    let mut i: usize = 0;
    proof {
        assert(s@.skip(0) =~= s@);
    }
    while i < n && (s[i] == 9 || s[i] == 10 || s[i] == 13 || s[i] == 32)
        invariant
            0 <= i <= n,
            n == s@.len(),
            trim_front(s@) == trim_front(s@.skip(i as int)),
        decreases n - i,
    {
        proof {
            assert(s@.skip(i as int).skip(1) =~= s@.skip(i + 1));
        }
        i = i + 1;
    }
    proof {
        if i < n {
            assert(trim_front(s@) == s@.skip(i as int));
        } else {
            assert(s@.skip(n as int) =~= Seq::<u8>::empty());
            assert(trim_front(s@) =~= Seq::<u8>::empty());
        }
    }
    if i == n {
        let r: Vec<u8> = Vec::new();
        proof {
            assert(r@ =~= trim_spec(s@));
        }
        return r;
    }
    let mut j: usize = n;
    while j > i && (s[j - 1] == 9 || s[j - 1] == 10 || s[j - 1] == 13 || s[j - 1] == 32)
        invariant
            i <= j <= n,
            i < n,
            n == s@.len(),
            trim_front(s@) == s@.skip(i as int),
            trim_back(s@.skip(i as int)) == trim_back(s@.subrange(i as int, j as int)),
        decreases j,
    {
        proof {
            assert(s@.subrange(i as int, j as int).drop_last() =~= s@.subrange(i as int, j - 1));
            assert(s@.subrange(i as int, j as int).last() == s@[j - 1]);
        }
        j = j - 1;
    }
    proof {
        assert(s@.skip(i as int) =~= s@.subrange(i as int, n as int));
        if j > i {
            assert(s@.subrange(i as int, j as int).last() == s@[j - 1]);
            assert(trim_back(s@.subrange(i as int, j as int)) == s@.subrange(i as int, j as int));
        } else {
            assert(s@.subrange(i as int, i as int) =~= Seq::<u8>::empty());
            assert(trim_back(s@.subrange(i as int, j as int)) =~= Seq::<u8>::empty());
        }
    }
    subrange_bytes(s, i, j)
}

/// Byte-wise ASCII lower-casing.
pub open spec fn lower_seq(s: Seq<u8>) -> Seq<u8> {
    Seq::new(s.len(), |i| crate::config::lower_byte(s[i]))
}

/// Lower-case a byte string, as executable code.
pub fn lower_bytes(s: &[u8]) -> (r: Vec<u8>)
    ensures
        r@ == lower_seq(s@),
{
    let mut out: Vec<u8> = Vec::new();
    let mut i: usize = 0;
    while i < s.len()
        invariant
            i <= s@.len(),
            s@.len() == s.len(),
            out@ == lower_seq(s@).subrange(0, i as int),
        decreases s@.len() - i,
    {
        let c = s[i];
        if 65 <= c && c <= 90 {
            out.push(c + 32);
        } else {
            out.push(c);
        }
        proof {
            assert(out@ =~= lower_seq(s@).subrange(0, i + 1));
        }
        i = i + 1;
    }
    proof {
        assert(out@ =~= lower_seq(s@));
    }
    out
}

/// Whether a header line carries the content length: the part before the
/// first colon, trimmed, must be `content-length` in any case, or the bare
/// `ontent-length` some servers have been seen to send in their first
/// message.
pub open spec fn is_cl_line(line: Seq<u8>) -> bool {
    match first_match(line, seq![58u8]) {
        None => false,
        Some(c) => {
            let key = trim_spec(line.subrange(0, c));
            lower_seq(key) == ascii_bytes("content-length"@) || key == ascii_bytes(
                "ontent-length"@,
            )
        },
    }
}

/// The raw value after the first colon of a line.
pub open spec fn line_value(line: Seq<u8>) -> Seq<u8> {
    match first_match(line, seq![58u8]) {
        None => Seq::empty(),
        Some(c) => line.skip(c + 1),
    }
}

/// The raw value of the first content-length line of a header block, if
/// any: lines are separated by `\r\n`, other lines are ignored.
pub open spec fn header_value(headers: Seq<u8>) -> Option<Seq<u8>>
    decreases headers.len(),
    via header_value_decreases
{
    match first_match(headers, crlf()) {
        None => if is_cl_line(headers) {
            Some(line_value(headers))
        } else {
            None
        },
        Some(i) => {
            let line = headers.subrange(0, i);
            if is_cl_line(line) {
                Some(line_value(line))
            } else {
                header_value(headers.skip(i + 2))
            }
        },
    }
}

#[via_fn]
proof fn header_value_decreases(headers: Seq<u8>) {
    lemma_first_match_from_props(headers, crlf(), 0);
}

/// Whether a line is a content-length line, as executable code; returns the
/// raw value when it is.
fn check_cl_line(line: &[u8]) -> (r: Option<Vec<u8>>)
    ensures
        match r {
            Some(v) => is_cl_line(line@) && v@ == line_value(line@),
            None => !is_cl_line(line@),
        },
{
    proof {
        reveal_strlit("content-length");
        reveal_strlit("ontent-length");
    }
    let mut colon: Vec<u8> = Vec::new();
    colon.push(58u8);
    proof {
        assert(colon@ =~= seq![58u8]);
    }
    let n = line.len();
    match find_sub(line, colon.as_slice()) {
        None => None,
        Some(c) => {
            proof {
                lemma_first_match_from_props(line@, colon@, 0);
            }
            let raw_key = subrange_bytes(line, 0, c);
            let key = trim_bytes(raw_key.as_slice());
            let lowered = lower_bytes(key.as_slice());
            let want = str_bytes("content-length");
            let quirk = str_bytes("ontent-length");
            if bytes_eq(lowered.as_slice(), want.as_slice()) || bytes_eq(
                key.as_slice(),
                quirk.as_slice(),
            ) {
                let v = subrange_bytes(line, c + 1, n);
                proof {
                    assert(v@ =~= line@.skip(c + 1));
                }
                Some(v)
            } else {
                None
            }
        },
    }
}

/// Scan a header block for its content-length value, as executable code.
fn header_value_exec(headers: &[u8]) -> (r: Option<Vec<u8>>)
    ensures
        match r {
            Some(v) => header_value(headers@) == Some(v@),
            None => header_value(headers@) is None,
        },
{
    let mut sep: Vec<u8> = Vec::new();
    sep.push(13u8);
    sep.push(10u8);
    proof {
        assert(sep@ =~= crlf());
    }
    let n = headers.len();
    let mut k: usize = 0;
    proof {
        assert(headers@.skip(0) =~= headers@);
    }
    loop
        invariant
            k <= n,
            n == headers@.len(),
            sep@ == crlf(),
            header_value(headers@) == header_value(headers@.skip(k as int)),
        decreases n - k,
    {
        proof {
            lemma_first_match_skip(headers@, sep@, k as int);
        }
        match find_from(headers, sep.as_slice(), k) {
            None => {
                let line = subrange_bytes(headers, k, n);
                proof {
                    assert(line@ =~= headers@.skip(k as int));
                }
                return check_cl_line(line.as_slice());
            },
            Some(i) => {
                proof {
                    lemma_first_match_from_props(headers@, sep@, k as int);
                }
                let line = subrange_bytes(headers, k, i);
                let ghost hk = headers@.skip(k as int);
                proof {
                    assert(first_match(hk, crlf()) == Some(i - k));
                    assert(line@ =~= hk.subrange(0, i - k));
                    assert(hk.skip(i - k + 2) =~= headers@.skip(i + 2));
                }
                match check_cl_line(line.as_slice()) {
                    Some(v) => {
                        return Some(v);
                    },
                    None => {
                        k = i + 2;
                    },
                }
            },
        }
    }
}

/// Every byte below `0x80` encodes one ASCII scalar, so an all-ASCII
/// sequence is valid UTF-8.
pub proof fn lemma_ascii_valid_utf8(bytes: Seq<u8>)
    requires
        forall|i: int| 0 <= i < bytes.len() ==> bytes[i] < 128,
    ensures
        valid_utf8(bytes),
    decreases bytes.len(),
{
    if bytes.len() > 0 {
        let b = bytes[0];
        assert(b & 0x7F == b) by (bit_vector)
            requires
                b < 128,
        ;
        assert(vstd::utf8::valid_first_scalar(bytes));
        let rest = vstd::utf8::pop_first_scalar(bytes);
        assert(rest =~= bytes.skip(1));
        assert(forall|i: int| 0 <= i < rest.len() ==> rest[i] < 128);
        lemma_ascii_valid_utf8(rest);
    }
}

/// Relies on `std::str::from_utf8`: it accepts a byte slice exactly when
/// the bytes are valid UTF-8, which vstd states as [`valid_utf8`].
#[verifier::external_body]
fn utf8_ok(b: &[u8]) -> (r: bool)
    ensures
        r == valid_utf8(b@),
{
    std::str::from_utf8(b).is_ok()
}

/// The number a content-length value denotes: the value is trimmed and must
/// be one or more decimal digits.
pub open spec fn parse_cl(v: Seq<u8>) -> Option<int> {
    let t = trim_spec(v);
    if t.len() > 0 && all_digits(t) {
        Some(dec_value(t))
    } else {
        None
    }
}

/// Parse a content-length value, as executable code: the error
/// distinguishes a malformed value from one over the size limit.
fn parse_cl_exec(v: &[u8]) -> (r: Result<usize, FrameError>)
    ensures
        match parse_cl(v@) {
            None => r == Err::<usize, FrameError>(FrameError::BadContentLength),
            Some(n) => if n > MAX_CONTENT_LENGTH {
                r == Err::<usize, FrameError>(FrameError::ContentLengthTooLarge)
            } else {
                r matches Ok(m) && m == n
            },
        },
{
    let t = trim_bytes(v);
    let len = t.len();
    if len == 0 {
        return Err(FrameError::BadContentLength);
    }
    let mut i: usize = 0;
    while i < len
        invariant
            0 <= i <= len,
            len == t@.len(),
            t@ == trim_spec(v@),
            forall|j: int| 0 <= j < i ==> is_digit(#[trigger] t@[j]),
        decreases len - i,
    {
        let c = t[i];
        if c < 48 || c > 57 {
            proof {
                assert(!is_digit(t@[i as int]));
            }
            return Err(FrameError::BadContentLength);
        }
        i = i + 1;
    }
    proof {
        assert(all_digits(t@));
    }
    let mut acc: usize = 0;
    let mut k: usize = 0;
    proof {
        assert(t@.take(0) =~= Seq::<u8>::empty());
    }
    while k < len
        invariant
            0 <= k <= len,
            1 <= len == t@.len(),
            t@ == trim_spec(v@),
            all_digits(t@),
            acc == dec_value(t@.take(k as int)),
            acc <= MAX_CONTENT_LENGTH,
        decreases len - k,
    {
        let d = t[k];
        proof {
            assert(is_digit(t@[k as int]));
            lemma_dec_value_step(t@, k as int);
        }
        let grown = acc * 10 + ((d - 48) as usize);
        proof {
            assert(grown == dec_value(t@.take(k + 1)));
        }
        if grown > MAX_CONTENT_LENGTH {
            proof {
                lemma_dec_value_take(t@, k + 1);
            }
            return Err(FrameError::ContentLengthTooLarge);
        }
        acc = grown;
        k = k + 1;
    }
    proof {
        assert(t@.take(len as int) =~= t@);
    }
    Ok(acc)
}

/// What one attempt to pull a frame off the front of the buffer yields.
pub enum FrameStep {
    /// No complete frame yet; more bytes are needed.
    NeedMore,
    /// A complete body, and how many buffer bytes it consumed.
    Frame(Seq<u8>, int),
    /// The stream is unframeable.
    Fail(FrameError),
}

/// The frame at the front of the buffer: find the header sentinel, check
/// the block size, read `Content-Length` (case-insensitively, tolerating
/// the `ontent-length` quirk), and take that many body bytes.
pub open spec fn frame_step(buf: Seq<u8>) -> FrameStep {
    match first_match(buf, crlf_crlf()) {
        None => if buf.len() > MAX_HEADER_BYTES + 3 {
            FrameStep::Fail(FrameError::HeaderTooLarge)
        } else {
            FrameStep::NeedMore
        },
        Some(h) => {
            let header_end = h + 4;
            if header_end > MAX_HEADER_BYTES {
                FrameStep::Fail(FrameError::HeaderTooLarge)
            } else {
                let headers = buf.subrange(0, header_end);
                if !valid_utf8(headers) {
                    FrameStep::Fail(FrameError::HeaderNotUtf8)
                } else {
                    match header_value(headers) {
                        None => FrameStep::Fail(FrameError::MissingContentLength),
                        Some(v) => match parse_cl(v) {
                            None => FrameStep::Fail(FrameError::BadContentLength),
                            Some(n) => if n > MAX_CONTENT_LENGTH {
                                FrameStep::Fail(FrameError::ContentLengthTooLarge)
                            } else if buf.len() < header_end + n {
                                FrameStep::NeedMore
                            } else {
                                FrameStep::Frame(
                                    buf.subrange(header_end, header_end + n),
                                    header_end + n,
                                )
                            },
                        },
                    }
                }
            }
        },
    }
}

/// Pull one frame off the front of the buffer, as executable code: the body
/// and the bytes consumed, `None` when more input is needed.
pub fn parse_frame(buf: &[u8]) -> (r: Result<Option<(Vec<u8>, usize)>, FrameError>)
    ensures
        match frame_step(buf@) {
            FrameStep::NeedMore => r matches Ok(None),
            FrameStep::Frame(b, c) => r matches Ok(Some((body, consumed))) && body@ == b
                && consumed == c,
            FrameStep::Fail(e) => r matches Err(e2) && e2 == e,
        },
{
    let n = buf.len();
    let mut sentinel: Vec<u8> = Vec::new();
    sentinel.push(13u8);
    sentinel.push(10u8);
    sentinel.push(13u8);
    sentinel.push(10u8);
    proof {
        assert(sentinel@ =~= crlf_crlf());
    }
    match find_sub(buf, sentinel.as_slice()) {
        None => {
            if n > MAX_HEADER_BYTES + 3 {
                Err(FrameError::HeaderTooLarge)
            } else {
                Ok(None)
            }
        },
        Some(h) => {
            proof {
                lemma_first_match_from_props(buf@, sentinel@, 0);
            }
            let header_end = h + 4;
            if header_end > MAX_HEADER_BYTES {
                return Err(FrameError::HeaderTooLarge);
            }
            let headers = subrange_bytes(buf, 0, header_end);
            if !utf8_ok(headers.as_slice()) {
                return Err(FrameError::HeaderNotUtf8);
            }
            match header_value_exec(headers.as_slice()) {
                None => Err(FrameError::MissingContentLength),
                Some(v) => {
                    match parse_cl_exec(v.as_slice()) {
                        Err(e) => Err(e),
                        Ok(len) => {
                            if n < header_end || n - header_end < len {
                                return Ok(None);
                            }
                            let body = subrange_bytes(buf, header_end, header_end + len);
                            Ok(Some((body, header_end + len)))
                        },
                    }
                },
            }
        },
    }
}

/// The views of a list of byte vectors.
pub open spec fn views_of(s: Seq<Vec<u8>>) -> Seq<Seq<u8>> {
    s.map_values(|v: Vec<u8>| v@)
}

/// All complete frames at the front of the buffer, in order, with the total
/// number of bytes they consumed; an unframeable buffer is an error even
/// when frames precede the fault.
pub open spec fn drain_spec(buf: Seq<u8>) -> Result<(Seq<Seq<u8>>, int), FrameError>
    decreases buf.len(),
    via drain_spec_decreases
{
    match frame_step(buf) {
        FrameStep::NeedMore => Ok((Seq::empty(), 0)),
        FrameStep::Fail(e) => Err(e),
        FrameStep::Frame(b, c) => match drain_spec(buf.skip(c)) {
            Err(e) => Err(e),
            Ok((rest, c2)) => Ok((seq![b] + rest, c + c2)),
        },
    }
}

/// A complete frame consumes at least its sentinel and never more than the
/// buffer holds.
pub proof fn lemma_frame_step_consumed(buf: Seq<u8>)
    ensures
        frame_step(buf) matches FrameStep::Frame(b, c) ==> 4 <= c <= buf.len() && b.len() <= c,
{
    lemma_first_match_from_props(buf, crlf_crlf(), 0);
    match first_match(buf, crlf_crlf()) {
        None => {},
        Some(h) => {
            let headers = buf.subrange(0, h + 4);
            match header_value(headers) {
                None => {},
                Some(v) => {
                    lemma_dec_value_nonneg(trim_spec(v));
                },
            }
        },
    }
}

#[via_fn]
proof fn drain_spec_decreases(buf: Seq<u8>) {
    lemma_frame_step_consumed(buf);
}

/// Split every complete frame off the front of the buffer, as executable
/// code: the bodies in order and the bytes consumed. The caller refills the
/// buffer and calls again when more input arrives.
pub fn drain_frames(buf: &[u8]) -> (r: Result<(Vec<Vec<u8>>, usize), FrameError>)
    ensures
        match drain_spec(buf@) {
            Ok((bodies, consumed)) => r matches Ok((bs, c)) && views_of(bs@) == bodies
                && c == consumed,
            Err(e) => r matches Err(e2) && e2 == e,
        },
{
    let n = buf.len();
    let mut out: Vec<Vec<u8>> = Vec::new();
    let mut k: usize = 0;
    proof {
        assert(buf@.skip(0) =~= buf@);
        assert(views_of(out@) =~= Seq::<Seq<u8>>::empty());
    }
    loop
        invariant
            k <= n,
            n == buf@.len(),
            match drain_spec(buf@.skip(k as int)) {
                Ok((rest, c2)) => drain_spec(buf@) == Ok::<(Seq<Seq<u8>>, int), FrameError>(
                    (views_of(out@) + rest, k + c2),
                ),
                Err(e) => drain_spec(buf@) == Err::<(Seq<Seq<u8>>, int), FrameError>(e),
            },
        decreases n - k,
    {
        let rest = subrange_bytes(buf, k, n);
        proof {
            assert(rest@ =~= buf@.skip(k as int));
        }
        match parse_frame(rest.as_slice()) {
            Err(e) => {
                return Err(e);
            },
            Ok(None) => {
                proof {
                    assert(drain_spec(buf@.skip(k as int)) == Ok::<(Seq<Seq<u8>>, int), FrameError>(
                        (Seq::empty(), 0),
                    ));
                    assert(views_of(out@) + Seq::<Seq<u8>>::empty() =~= views_of(out@));
                }
                return Ok((out, k));
            },
            Ok(Some((body, consumed))) => {
                let ghost prev = views_of(out@);
                let ghost b = body@;
                out.push(body);
                proof {
                    assert(views_of(out@) =~= prev + seq![b]);
                }
                proof {
                    lemma_frame_step_consumed(rest@);
                    assert(rest@.skip(consumed as int) =~= buf@.skip(k + consumed));
                    match drain_spec(buf@.skip(k + consumed)) {
                        Ok((r2, c3)) => {
                            assert(prev + (seq![b] + r2) =~= views_of(out@) + r2);
                        },
                        Err(e) => {},
                    }
                }
                k = k + consumed;
            },
        }
    }
}

/// A body framed for the wire: the canonical header, the sentinel, the
/// body.
pub open spec fn frame_spec(body: Seq<u8>) -> Seq<u8> {
    ascii_bytes("Content-Length: "@) + dec_repr(body.len()) + crlf_crlf() + body
}

/// Frame a body with its `Content-Length` header, as executable code. The
/// caller writes the result as one unit and flushes.
pub fn frame_message(body: &[u8]) -> (r: Vec<u8>)
    ensures
        r@ == frame_spec(body@),
{
    proof {
        reveal_strlit("Content-Length: ");
    }
    let mut out = str_bytes("Content-Length: ");
    let digits = format_dec(body.len());
    let mut out2 = concat_bytes(out.as_slice(), digits.as_slice());
    out2.push(13u8);
    out2.push(10u8);
    out2.push(13u8);
    out2.push(10u8);
    let r = concat_bytes(out2.as_slice(), body);
    proof {
        assert(r@ =~= frame_spec(body@));
    }
    r
}

/// The front of a framed body is recognized as exactly that frame: the
/// sentinel is found right after the canonical header, the header parses
/// back to the body length, and the body bytes follow.
pub proof fn lemma_frame_step_of_framed(b: Seq<u8>, rest: Seq<u8>)
    requires
        b.len() <= MAX_CONTENT_LENGTH,
    ensures
        frame_step(frame_spec(b) + rest) == FrameStep::Frame(b, frame_spec(b).len() as int),
{
    broadcast use vstd::string::group_string_axioms;

    reveal_strlit("Content-Length: ");
    reveal_strlit("content-length");
    let prefix = ascii_bytes("Content-Length: "@);
    let digits = dec_repr(b.len());
    lemma_dec_repr(b.len());
    assert(pow10(0nat) == 1);
    assert(pow10(1nat) == 10);
    assert(pow10(2nat) == 100);
    assert(pow10(3nat) == 1000);
    assert(pow10(4nat) == 10000);
    assert(pow10(5nat) == 100000);
    assert(pow10(6nat) == 1000000);
    assert(pow10(7nat) == 10000000);
    assert(pow10(8nat) == 100000000);
    lemma_dec_repr_len(b.len(), 8);
    let s = frame_spec(b) + rest;
    let hlen = 16 + digits.len() as int;
    assert(prefix.len() == 16);
    assert forall|i: int| 0 <= i < hlen implies s[i] != 13 && s[i] < 128 by {
        if i < 16 {
            assert(s[i] == prefix[i]);
            if i == 0 {
                assert(prefix[0] == 67);
            } else if i == 1 {
                assert(prefix[1] == 111);
            } else if i == 2 {
                assert(prefix[2] == 110);
            } else if i == 3 {
                assert(prefix[3] == 116);
            } else if i == 4 {
                assert(prefix[4] == 101);
            } else if i == 5 {
                assert(prefix[5] == 110);
            } else if i == 6 {
                assert(prefix[6] == 116);
            } else if i == 7 {
                assert(prefix[7] == 45);
            } else if i == 8 {
                assert(prefix[8] == 76);
            } else if i == 9 {
                assert(prefix[9] == 101);
            } else if i == 10 {
                assert(prefix[10] == 110);
            } else if i == 11 {
                assert(prefix[11] == 103);
            } else if i == 12 {
                assert(prefix[12] == 116);
            } else if i == 13 {
                assert(prefix[13] == 104);
            } else if i == 14 {
                assert(prefix[14] == 58);
            } else if i == 15 {
                assert(prefix[15] == 32);
            } else {
                assert(false);
            }
        } else {
            assert(s[i] == digits[i - 16]);
            assert(is_digit(digits[i - 16]));
        }
    }
    assert forall|i: int| 0 <= i < 14 implies s[i] != 58 by {
        assert(s[i] == prefix[i]);
    }
    assert(match_at(s, crlf_crlf(), hlen)) by {
        assert(s.subrange(hlen, hlen + 4) =~= crlf_crlf());
    }
    lemma_first_match_from_props(s, crlf_crlf(), 0);
    assert(first_match(s, crlf_crlf()) == Some(hlen)) by {
        match first_match(s, crlf_crlf()) {
            None => {
                assert(false);
            },
            Some(j) => {
                if j < hlen {
                    assert(s.subrange(j, j + 4)[0] == s[j]);
                    assert(s[j] == 13);
                    assert(false);
                }
                if j > hlen {
                    assert(false);
                }
            },
        }
    }
    let header_end = hlen + 4;
    assert(header_end <= MAX_HEADER_BYTES);
    let headers = s.subrange(0, header_end);
    assert(headers =~= prefix + digits + crlf_crlf());
    assert forall|i: int| 0 <= i < headers.len() implies headers[i] < 128 by {
        if i < hlen {
            assert(headers[i] == s[i]);
        }
    }
    lemma_ascii_valid_utf8(headers);

    // the content-length line
    lemma_first_match_from_props(headers, crlf(), 0);
    assert(match_at(headers, crlf(), hlen)) by {
        assert(headers.subrange(hlen, hlen + 2) =~= crlf());
    }
    assert(first_match(headers, crlf()) == Some(hlen)) by {
        match first_match(headers, crlf()) {
            None => {
                assert(false);
            },
            Some(j) => {
                if j < hlen {
                    assert(headers.subrange(j, j + 2)[0] == headers[j]);
                    assert(headers[j] == s[j]);
                    assert(false);
                }
                if j > hlen {
                    assert(false);
                }
            },
        }
    }
    let line = headers.subrange(0, hlen);
    assert(line =~= prefix + digits);

    // the key before the colon
    lemma_first_match_from_props(line, seq![58u8], 0);
    assert(match_at(line, seq![58u8], 14)) by {
        assert(line.subrange(14, 15) =~= seq![58u8]);
        assert(line[14] == prefix[14]);
    }
    assert(first_match(line, seq![58u8]) == Some(14int)) by {
        match first_match(line, seq![58u8]) {
            None => {
                assert(false);
            },
            Some(j) => {
                if j < 14 {
                    assert(line.subrange(j, j + 1)[0] == line[j]);
                    assert(line[j] == prefix[j]);
                    assert(false);
                }
                if j > 14 {
                    assert(false);
                }
            },
        }
    }
    let key = line.subrange(0, 14);
    assert(trim_spec(key) == key) by {
        assert(!is_ws(key[0]));
        assert(trim_front(key) == key);
        assert(!is_ws(key.last()));
        assert(trim_back(key) == key);
    }
    assert(lower_seq(key) =~= ascii_bytes("content-length"@));
    assert(is_cl_line(line));
    assert(header_value(headers) == Some(line_value(line)));

    // the value parses back to the body length
    let value = line.skip(15);
    assert(line_value(line) == value);
    assert(value =~= seq![32u8] + digits);
    assert(trim_spec(value) == digits) by {
        assert(is_ws(value[0]));
        assert(value.skip(1) =~= digits);
        assert(digits.len() > 0);
        assert(is_digit(digits[0]));
        assert(!is_ws(digits[0]));
        assert(trim_front(digits) == digits);
        assert(trim_front(value) == trim_front(value.skip(1)));
        assert(trim_front(value) == digits);
        assert(is_digit(digits.last()));
        assert(!is_ws(digits.last()));
        assert(trim_back(digits) == digits);
    }
    assert(parse_cl(value) == Some(b.len() as int));

    // the body follows in full
    assert(s.len() >= header_end + b.len());
    assert(s.subrange(header_end, header_end + b.len() as int) =~= b);
    assert(frame_spec(b).len() == header_end + b.len());
}

/// A list of bodies, each framed, concatenated into one stream.
pub open spec fn frames_concat(bodies: Seq<Seq<u8>>) -> Seq<u8>
    decreases bodies.len(),
{
    if bodies.len() == 0 {
        Seq::empty()
    } else {
        frame_spec(bodies.first()) + frames_concat(bodies.drop_first())
    }
}

/// Framing idempotence: framing any list of bodies and splitting the
/// resulting stream gives back exactly those bodies, consuming the whole
/// stream — so re-framing them reproduces the byte-exact stream.
pub proof fn lemma_framing_round_trip(bodies: Seq<Seq<u8>>)
    requires
        forall|i: int| 0 <= i < bodies.len() ==> #[trigger] bodies[i].len() <= MAX_CONTENT_LENGTH,
    ensures
        drain_spec(frames_concat(bodies)) == Ok::<(Seq<Seq<u8>>, int), FrameError>(
            (bodies, frames_concat(bodies).len() as int),
        ),
    decreases bodies.len(),
{
    if bodies.len() == 0 {
        let s = frames_concat(bodies);
        assert(s.len() == 0);
        assert(first_match(s, crlf_crlf()) is None);
        assert(frame_step(s) == FrameStep::NeedMore);
        assert(bodies =~= Seq::<Seq<u8>>::empty());
    } else {
        let b = bodies.first();
        let tail = bodies.drop_first();
        let rest = frames_concat(tail);
        let s = frames_concat(bodies);
        assert(s == frame_spec(b) + rest);
        assert(bodies[0].len() <= MAX_CONTENT_LENGTH);
        lemma_frame_step_of_framed(b, rest);
        let c = frame_spec(b).len() as int;
        assert(s.skip(c) =~= rest);
        lemma_framing_round_trip(tail);
        assert(seq![b] + tail =~= bodies);
        assert(s.len() == c + rest.len());
    }
}

/// The framed reader's state: the bytes read from the stream and not yet
/// consumed by a complete frame. The caller feeds it whatever the stream
/// yields and takes out whole message bodies; no byte is ever lost or
/// duplicated between frames.
pub struct LspFramedReader {
    pub buffer: Vec<u8>,
}

impl LspFramedReader {
    /// A reader with an empty buffer.
    pub fn new() -> (r: LspFramedReader)
        ensures
            r.buffer@.len() == 0,
    {
        LspFramedReader { buffer: Vec::new() }
    }

    /// Feed bytes read from the stream.
    pub fn push_bytes(&mut self, chunk: &[u8])
        ensures
            final(self).buffer@ == old(self).buffer@ + chunk@,
    {
        let grown = crate::text::concat_bytes(self.buffer.as_slice(), chunk);
        self.buffer = grown;
    }

    /// Take every complete message out of the buffer, in order; the bytes
    /// of an incomplete trailing frame stay for the next feed. An
    /// unframeable buffer is a fatal error.
    pub fn read_messages(&mut self) -> (r: Result<Vec<Vec<u8>>, FrameError>)
        ensures
            match drain_spec(old(self).buffer@) {
                Ok(d) => r matches Ok(msgs) && views_of(msgs@) == d.0 && final(self).buffer@
                    == old(self).buffer@.skip(d.1),
                Err(e) => r matches Err(e2) && e2 == e && final(self).buffer == old(self).buffer,
            },
    {
        proof {
            lemma_frame_step_consumed(self.buffer@);
        }
        match drain_frames(self.buffer.as_slice()) {
            Err(e) => Err(e),
            Ok((msgs, consumed)) => {
                proof {
                    lemma_drain_consumed(self.buffer@);
                }
                let rest = subrange_bytes(self.buffer.as_slice(), consumed, self.buffer.len());
                proof {
                    assert(rest@ =~= self.buffer@.skip(consumed as int));
                }
                self.buffer = rest;
                Ok(msgs)
            },
        }
    }
}

/// A successful drain never consumes more than the buffer holds.
pub proof fn lemma_drain_consumed(buf: Seq<u8>)
    ensures
        drain_spec(buf) matches Ok(d) ==> 0 <= d.1 <= buf.len(),
    decreases buf.len(),
{
    lemma_frame_step_consumed(buf);
    match frame_step(buf) {
        FrameStep::Frame(b, c) => {
            lemma_drain_consumed(buf.skip(c));
        },
        _ => {},
    }
}

} // verus!


