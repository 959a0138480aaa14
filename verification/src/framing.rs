//! JSON-RPC wire framing. Outgoing requests are newline-terminated JSON
//! lines; the read path accepts both newline-delimited JSON values and
//! `Content-Length` header blocks followed by exactly that many body bytes.
use vstd::prelude::*;

use crate::strutil::push_char;

verus! {

/// The character of one decimal digit.
pub open spec fn digit_char(d: nat) -> char
    recommends
        d < 10,
{
    ((48 + d) as u8) as char
}

/// The decimal digit characters of a number, most significant first.
pub open spec fn dec_chars(n: nat) -> Seq<char>
    decreases n,
{
    if n < 10 {
        seq![digit_char(n)]
    } else {
        dec_chars(n / 10).push(digit_char(n % 10))
    }
}

/// The byte of one decimal digit.
pub open spec fn digit_byte(d: int) -> u8
    recommends
        0 <= d < 10,
{
    if d == 0 {
        48
    } else if d == 1 {
        49
    } else if d == 2 {
        50
    } else if d == 3 {
        51
    } else if d == 4 {
        52
    } else if d == 5 {
        53
    } else if d == 6 {
        54
    } else if d == 7 {
        55
    } else if d == 8 {
        56
    } else {
        57
    }
}

/// The decimal digit bytes of a number, most significant first.
pub open spec fn dec_bytes(n: nat) -> Seq<u8>
    decreases n,
{
    if n < 10 {
        seq![digit_byte(n as int)]
    } else {
        dec_bytes(n / 10).push(digit_byte(n as int % 10))
    }
}

/// Appends the decimal rendering of a number to a string.
pub fn push_dec_u64(s: &mut String, n: u64)
    ensures
        final(s)@ == old(s)@ + dec_chars(n as nat),
    decreases n,
{
    if n < 10 {
        let d = (48 + n) as u8;
        push_char(s, d as char);
        proof {
            assert(old(s)@ + dec_chars(n as nat) =~= old(s)@.push(digit_char(n as nat)));
        }
    } else {
        push_dec_u64(s, n / 10);
        let d = (48 + (n % 10)) as u8;
        push_char(s, d as char);
        proof {
            assert(old(s)@ + dec_chars(n as nat) =~= (old(s)@ + dec_chars((n / 10) as nat)).push(
                digit_char((n % 10) as nat),
            ));
        }
    }
}

/// The character of one hexadecimal digit, lowercase.
pub open spec fn hex_digit_char(d: nat) -> char
    recommends
        d < 16,
{
    if d < 10 {
        ((48 + d) as u8) as char
    } else {
        ((87 + d) as u8) as char
    }
}

/// How one character appears inside a JSON string literal: quotes and
/// backslashes are escaped, the common control characters get their short
/// escapes, other control characters a `\u00..` escape, and everything else
/// stands as itself.
pub open spec fn json_escape_char(c: char) -> Seq<char> {
    if c == '"' {
        seq!['\\', '"']
    } else if c == '\\' {
        seq!['\\', '\\']
    } else if c == '\n' {
        seq!['\\', 'n']
    } else if c == '\r' {
        seq!['\\', 'r']
    } else if c == '\t' {
        seq!['\\', 't']
    } else if (c as u32) < 0x20 {
        seq!['\\', 'u', '0', '0', hex_digit_char((c as nat) / 16), hex_digit_char((c as nat) % 16)]
    } else {
        seq![c]
    }
}

/// A whole text escaped for a JSON string literal.
pub open spec fn json_escape(s: Seq<char>) -> Seq<char>
    decreases s.len(),
{
    if s.len() == 0 {
        Seq::empty()
    } else {
        json_escape(s.drop_last()) + json_escape_char(s.last())
    }
}

/// Appends one character, escaped for a JSON string literal.
fn push_json_escaped_char(out: &mut String, c: char)
    ensures
        final(out)@ == old(out)@ + json_escape_char(c),
{
    if c == '"' {
        push_char(out, '\\');
        push_char(out, '"');
    } else if c == '\\' {
        push_char(out, '\\');
        push_char(out, '\\');
    } else if c == '\n' {
        push_char(out, '\\');
        push_char(out, 'n');
    } else if c == '\r' {
        push_char(out, '\\');
        push_char(out, 'r');
    } else if c == '\t' {
        push_char(out, '\\');
        push_char(out, 't');
    } else if (c as u32) < 0x20 {
        push_char(out, '\\');
        push_char(out, 'u');
        push_char(out, '0');
        push_char(out, '0');
        let hi = (c as u32) / 16;
        let lo = (c as u32) % 16;
        let hic = if hi < 10 {
            ((48 + hi) as u8) as char
        } else {
            ((87 + hi) as u8) as char
        };
        let loc = if lo < 10 {
            ((48 + lo) as u8) as char
        } else {
            ((87 + lo) as u8) as char
        };
        push_char(out, hic);
        push_char(out, loc);
        proof {
            assert(hic == hex_digit_char((c as nat) / 16));
            assert(loc == hex_digit_char((c as nat) % 16));
            assert(old(out)@ + json_escape_char(c) =~= out@);
        }
    } else {
        push_char(out, c);
    }
    proof {
        assert(old(out)@ + json_escape_char(c) =~= out@);
    }
}

/// Appends a text escaped for a JSON string literal.
pub fn push_json_escaped(out: &mut String, s: &str)
    ensures
        final(out)@ == old(out)@ + json_escape(s@),
{
    let n = s.unicode_len();
    let mut i: usize = 0;
    proof {
        assert(json_escape(s@.take(0)) =~= Seq::<char>::empty());
        assert(out@ =~= old(out)@ + json_escape(s@.take(0)));
    }
    while i < n
        invariant
            i <= n,
            n == s@.len(),
            out@ == old(out)@ + json_escape(s@.take(i as int)),
        decreases n - i,
    {
        let c = s.get_char(i);
        push_json_escaped_char(out, c);
        proof {
            assert(s@.take(i + 1).drop_last() =~= s@.take(i as int));
            assert(s@.take(i + 1).last() == s@[i as int]);
        }
        i = i + 1;
    }
    proof {
        assert(s@.take(n as int) =~= s@);
    }
}

/// The outgoing frame of one request: a newline-terminated JSON-RPC
/// envelope. `params`, when present, is embedded verbatim as already
/// serialized JSON text.
pub open spec fn request_line(id: nat, method: Seq<char>, params: Option<Seq<char>>) -> Seq<char> {
    "{\"jsonrpc\":\"2.0\",\"id\":"@ + dec_chars(id) + ",\"method\":\""@ + json_escape(method)
        + "\""@ + (match params {
        Some(p) => ",\"params\":"@ + p,
        None => Seq::empty(),
    }) + "}\n"@
}

/// Serializes one request envelope as a newline-terminated JSON line.
pub fn encode_request_line(id: u64, method: &str, params: &Option<String>) -> (r: String)
    ensures
        r@ == request_line(
            id as nat,
            method@,
            match params {
                Some(p) => Some(p@),
                None => None,
            },
        ),
{
    let mut out = String::new();
    out.append("{\"jsonrpc\":\"2.0\",\"id\":");
    push_dec_u64(&mut out, id);
    out.append(",\"method\":\"");
    push_json_escaped(&mut out, method);
    out.append("\"");
    match params {
        Some(p) => {
            out.append(",\"params\":");
            out.append(p.as_str());
        },
        None => (),
    }
    out.append("}\n");
    proof {
        assert(out@ =~= request_line(
            id as nat,
            method@,
            match params {
                Some(p) => Some(p@),
                None => None,
            },
        ));
    }
    out
}

/// The params object of a `tools/call` invocation: the tool's name and its
/// argument object, embedded verbatim as JSON text.
pub open spec fn tool_call_params_text(name: Seq<char>, arguments: Seq<char>) -> Seq<char> {
    "{\"name\":\""@ + json_escape(name) + "\",\"arguments\":"@ + arguments + "}"@
}

/// A byte of ASCII whitespace a line end may carry: space, tab or carriage
/// return.
pub open spec fn is_ws(b: u8) -> bool {
    b == 32 || b == 9 || b == 13
}

/// A byte string with its trailing whitespace removed.
pub open spec fn trim_trailing(s: Seq<u8>) -> Seq<u8>
    decreases s.len(),
{
    if s.len() > 0 && is_ws(s.last()) {
        trim_trailing(s.drop_last())
    } else {
        s
    }
}

/// A byte string with its leading whitespace removed.
pub open spec fn trim_leading(s: Seq<u8>) -> Seq<u8>
    decreases s.len(),
{
    if s.len() > 0 && is_ws(s[0]) {
        trim_leading(s.skip(1))
    } else {
        s
    }
}

/// The index of the first newline byte, or the length when there is none.
pub open spec fn nl_index(s: Seq<u8>) -> int
    decreases s.len(),
{
    if s.len() == 0 {
        0
    } else if s[0] == 10 {
        0
    } else {
        1 + nl_index(s.skip(1))
    }
}

pub proof fn lemma_nl_index_bounds(s: Seq<u8>)
    ensures
        0 <= nl_index(s) <= s.len(),
        nl_index(s) < s.len() ==> s[nl_index(s)] == 10,
        forall|j: int| 0 <= j < nl_index(s) ==> s[j] != 10,
    decreases s.len(),
{
    if s.len() > 0 && s[0] != 10 {
        lemma_nl_index_bounds(s.skip(1));
        assert forall|j: int| 0 <= j < nl_index(s) implies s[j] != 10 by {
            if j >= 1 {
                assert(s.skip(1)[j - 1] == s[j]);
            }
        }
    }
}

/// `nl_index` is the one position that has a newline and nothing before it.
pub proof fn lemma_nl_index_is(s: Seq<u8>, i: int)
    requires
        0 <= i <= s.len(),
        forall|j: int| 0 <= j < i ==> s[j] != 10,
        i < s.len() ==> s[i] == 10,
    ensures
        nl_index(s) == i,
    decreases s.len(),
{
    if s.len() > 0 && s[0] != 10 {
        lemma_nl_index_is(s.skip(1), i - 1);
    }
}

/// `true` of a decimal digit byte.
pub open spec fn is_digit(b: u8) -> bool {
    48 <= b <= 57
}

/// A non-empty byte string of decimal digits.
pub open spec fn is_digits(s: Seq<u8>) -> bool {
    s.len() > 0 && forall|i: int| 0 <= i < s.len() ==> is_digit(s[i])
}

/// The value a digit string denotes.
pub open spec fn dec_value(s: Seq<u8>) -> int
    decreases s.len(),
{
    if s.len() == 0 {
        0
    } else {
        dec_value(s.drop_last()) * 10 + (s.last() - 48)
    }
}

/// What a declared length parses to: the denoted value of a digit string that
/// fits the machine, and zero for anything else, as a tolerated-garbage
/// default.
pub open spec fn parsed_len(s: Seq<u8>) -> int {
    if is_digits(s) && dec_value(s) <= usize::MAX {
        dec_value(s)
    } else {
        0
    }
}

/// A byte mapped to its ASCII lowercase form.
pub open spec fn ascii_lower(b: u8) -> u8 {
    if 65 <= b <= 90 {
        (b + 32) as u8
    } else {
        b
    }
}

/// The bytes of the `content-length:` header name, colon included.
pub open spec fn cl_prefix() -> Seq<u8> {
    seq![99u8, 111, 110, 116, 101, 110, 116, 45, 108, 101, 110, 103, 116, 104, 58]
}

/// A trimmed line that opens a `Content-Length` header block,
/// case-insensitively.
pub open spec fn is_cl_header(t: Seq<u8>) -> bool {
    t.len() >= 15 && forall|i: int| 0 <= i < 15 ==> ascii_lower(t[i]) == cl_prefix()[i]
}

/// The body length a `Content-Length` line declares.
pub open spec fn header_len_value(t: Seq<u8>) -> int {
    parsed_len(trim_leading(t.skip(15)))
}

/// Where the read-path decoder stands: scanning for lines, consuming the
/// header lines of a `Content-Length` block, or waiting for a body of a known
/// length.
#[derive(Clone, Copy, Debug, PartialEq, Eq, Structural)]
pub enum DecodePhase {
    Lines,
    Headers { body_len: usize },
    Body { body_len: usize },
}

/// One decoding step over a buffered byte stream: what phase and buffer are
/// left, and the frame extracted, if one is complete. A frame is either the
/// declared number of body bytes after a `Content-Length` header block, or
/// one trimmed non-empty line that is not such a header.
pub open spec fn spec_decode(phase: DecodePhase, buf: Seq<u8>) -> (DecodePhase, Seq<u8>, Option<
    Seq<u8>,
>)
    decreases buf.len(),
    via spec_decode_decreases
{
    match phase {
        DecodePhase::Lines => {
            let i = nl_index(buf);
            if i == buf.len() {
                (phase, buf, None)
            } else {
                let t = trim_trailing(buf.take(i));
                let rest = buf.skip(i + 1);
                if t.len() == 0 {
                    spec_decode(DecodePhase::Lines, rest)
                } else if is_cl_header(t) {
                    spec_decode(
                        DecodePhase::Headers { body_len: header_len_value(t) as usize },
                        rest,
                    )
                } else {
                    (DecodePhase::Lines, rest, Some(t))
                }
            }
        },
        DecodePhase::Headers { body_len } => {
            let i = nl_index(buf);
            if i == buf.len() {
                (phase, buf, None)
            } else {
                let t = trim_trailing(buf.take(i));
                let rest = buf.skip(i + 1);
                if t.len() == 0 {
                    if body_len > 0 {
                        spec_decode(DecodePhase::Body { body_len }, rest)
                    } else {
                        spec_decode(DecodePhase::Lines, rest)
                    }
                } else {
                    spec_decode(DecodePhase::Headers { body_len }, rest)
                }
            }
        },
        DecodePhase::Body { body_len } => {
            if buf.len() < body_len {
                (phase, buf, None)
            } else {
                (DecodePhase::Lines, buf.skip(body_len as int), Some(buf.take(body_len as int)))
            }
        },
    }
}

#[via_fn]
proof fn spec_decode_decreases(phase: DecodePhase, buf: Seq<u8>) {
    lemma_nl_index_bounds(buf);
}

/// An incremental decoder over the subprocess output stream. Bytes go in
/// through `push_bytes`; complete frames come out of `next_frame`; malformed
/// input never gets the decoder stuck, it is handed out as a line frame whose
/// JSON parse the caller then rejects.
#[derive(Debug)]
pub struct FrameDecoder {
    buf: Vec<u8>,
    pos: usize,
    phase: DecodePhase,
}

impl FrameDecoder {
    /// The bytes received and not yet consumed.
    pub closed spec fn remaining(&self) -> Seq<u8> {
        self.buf@.skip(self.pos as int)
    }

    /// The decoding phase the decoder stands in.
    pub closed spec fn phase_spec(&self) -> DecodePhase {
        self.phase
    }

    pub closed spec fn wf(&self) -> bool {
        self.pos <= self.buf@.len() && self.buf@.len() <= usize::MAX
    }

    /// How many bytes the decoder has ever buffered and not compacted away.
    pub closed spec fn buffered(&self) -> nat {
        self.buf@.len()
    }

    /// A fresh decoder, scanning for lines with nothing buffered.
    pub fn new() -> (r: FrameDecoder)
        ensures
            r.wf(),
            r.remaining() == Seq::<u8>::empty(),
            r.phase_spec() == DecodePhase::Lines,
    {
        let r = FrameDecoder { buf: Vec::new(), pos: 0, phase: DecodePhase::Lines };
        proof {
            assert(r.remaining() =~= Seq::<u8>::empty());
        }
        r
    }

    /// Feeds one chunk of received bytes into the decoder.
    pub fn push_bytes(&mut self, chunk: &[u8])
        requires
            old(self).wf(),
            old(self).buffered() + chunk@.len() <= usize::MAX,
        ensures
            final(self).wf(),
            final(self).remaining() == old(self).remaining() + chunk@,
            final(self).phase_spec() == old(self).phase_spec(),
    {
        let n = chunk.len();
        let mut j: usize = 0;
        proof {
            assert(self.remaining() =~= old(self).remaining() + chunk@.take(0));
        }
        while j < n
            invariant
                j <= n,
                n == chunk@.len(),
                self.wf(),
                self.buf@.len() <= old(self).buf@.len() + j,
                self.remaining() == old(self).remaining() + chunk@.take(j as int),
                self.phase == old(self).phase,
                self.pos == old(self).pos,
                old(self).buf@.len() + n <= usize::MAX,
            decreases n - j,
        {
            let ghost prev = self.buf@;
            self.buf.push(chunk[j]);
            proof {
                assert(self.remaining() =~= prev.skip(self.pos as int).push(chunk@[j as int]));
                assert(old(self).remaining() + chunk@.take(j + 1) =~= (old(self).remaining()
                    + chunk@.take(j as int)).push(chunk@[j as int]));
            }
            j = j + 1;
        }
        proof {
            assert(chunk@.take(n as int) =~= chunk@);
        }
    }

    /// How many bytes are buffered and unconsumed.
    fn avail(&self) -> (r: usize)
        requires
            self.wf(),
        ensures
            r == self.remaining().len(),
    {
        self.buf.len() - self.pos
    }

    /// Copies `remaining()[a..b]` out of the buffer.
    fn copy_range(&self, a: usize, b: usize) -> (r: Vec<u8>)
        requires
            self.wf(),
            a <= b,
            b <= self.remaining().len(),
        ensures
            r@ == self.remaining().subrange(a as int, b as int),
    {
        let mut out: Vec<u8> = Vec::new();
        let mut j: usize = a;
        proof {
            assert(out@ =~= self.remaining().subrange(a as int, a as int));
        }
        while j < b
            invariant
                a <= j <= b,
                self.wf(),
                b <= self.remaining().len(),
                out@ == self.remaining().subrange(a as int, j as int),
            decreases b - j,
        {
            out.push(self.buf[self.pos + j]);
            proof {
                assert(self.remaining().subrange(a as int, j + 1) =~= self.remaining().subrange(
                    a as int,
                    j as int,
                ).push(self.remaining()[j as int]));
            }
            j = j + 1;
        }
        out
    }

    /// The index of the first newline among the unconsumed bytes, or their
    /// count when none is buffered yet.
    fn find_nl(&self) -> (r: usize)
        requires
            self.wf(),
        ensures
            r == nl_index(self.remaining()),
    {
        let n = self.avail();
        let mut j: usize = 0;
        while j < n
            invariant
                j <= n,
                self.wf(),
                n == self.remaining().len(),
                forall|l: int| 0 <= l < j ==> self.remaining()[l] != 10,
            decreases n - j,
        {
            if self.buf[self.pos + j] == 10 {
                proof {
                    lemma_nl_index_is(self.remaining(), j as int);
                }
                return j;
            }
            j = j + 1;
        }
        proof {
            lemma_nl_index_is(self.remaining(), n as int);
        }
        n
    }
}

/// Removes trailing whitespace from a byte line.
fn trim_end_vec(v: &mut Vec<u8>)
    ensures
        final(v)@ == trim_trailing(old(v)@),
{
    let mut scanning: bool = true;
    while scanning
        invariant
            trim_trailing(v@) == trim_trailing(old(v)@),
            !scanning ==> v@ == trim_trailing(v@),
        decreases v@.len() + (if scanning { 1int } else { 0int }),
    {
        if v.len() > 0 {
            let b = v[v.len() - 1];
            if b == 32 || b == 9 || b == 13 {
                v.pop();
            } else {
                scanning = false;
            }
        } else {
            scanning = false;
        }
    }
}

/// Tells a `Content-Length` header line, case-insensitively.
fn is_cl_line(v: &Vec<u8>) -> (r: bool)
    ensures
        r == is_cl_header(v@),
{
    if v.len() < 15 {
        return false;
    }
    let mut j: usize = 0;
    while j < 15
        invariant
            j <= 15,
            v@.len() >= 15,
            forall|l: int| 0 <= l < j ==> ascii_lower(v@[l]) == cl_prefix()[l],
        decreases 15 - j,
    {
        let b = v[j];
        let low: u8 = if 65 <= b && b <= 90 {
            b + 32
        } else {
            b
        };
        let expected: u8 = cl_prefix_byte(j);
        if low != expected {
            assert(ascii_lower(v@[j as int]) != cl_prefix()[j as int]);
            return false;
        }
        j = j + 1;
    }
    true
}

/// The byte of the header name at one position.
fn cl_prefix_byte(i: usize) -> (b: u8)
    requires
        i < 15,
    ensures
        b == cl_prefix()[i as int],
{
    if i == 0 {
        99
    } else if i == 1 {
        111
    } else if i == 2 {
        110
    } else if i == 3 {
        116
    } else if i == 4 {
        101
    } else if i == 5 {
        110
    } else if i == 6 {
        116
    } else if i == 7 {
        45
    } else if i == 8 {
        108
    } else if i == 9 {
        101
    } else if i == 10 {
        110
    } else if i == 11 {
        103
    } else if i == 12 {
        116
    } else if i == 13 {
        104
    } else {
        58
    }
}

/// Parses the digits of `v@.subrange(a, b)` as a length; anything that is not
/// a machine-sized digit string parses to zero.
fn parse_len_digits(v: &Vec<u8>, a: usize, b: usize) -> (r: usize)
    requires
        a <= b,
        b <= v@.len(),
    ensures
        r == parsed_len(v@.subrange(a as int, b as int)),
{
    let s = Ghost(v@.subrange(a as int, b as int));
    if a == b {
        return 0;
    }
    let mut n: usize = 0;
    let mut j: usize = a;
    proof {
        assert(s@.take(0) =~= Seq::<u8>::empty());
    }
    while j < b
        invariant
            a <= j <= b,
            a < b,
            b <= v@.len(),
            s@ == v@.subrange(a as int, b as int),
            n == dec_value(s@.take(j - a)),
            forall|l: int| 0 <= l < j - a ==> is_digit(s@[l]),
        decreases b - j,
    {
        let c = v[j];
        if c < 48 || c > 57 {
            assert(!is_digits(s@)) by {
                assert(!is_digit(s@[j - a]));
            }
            return 0;
        }
        let d = (c - 48) as usize;
        if n > (usize::MAX - d) / 10 {
            proof {
                assert(10 * n + d > usize::MAX) by {
                    assert(n >= (usize::MAX - d) / 10 + 1);
                    assert(10 * ((usize::MAX - d) / 10) >= usize::MAX - d - 9);
                };
                assert(dec_value(s@.take(j - a + 1)) > usize::MAX) by {
                    assert(s@.take(j - a + 1).drop_last() =~= s@.take(j - a));
                    assert(s@.take(j - a + 1).last() == s@[j - a]);
                };
                if is_digits(s@) {
                    lemma_dec_value_monotone(s@, j - a + 1, s@.len() as int);
                    assert(s@.take(s@.len() as int) =~= s@);
                }
            }
            return 0;
        }
        proof {
            assert(10 * n + d <= usize::MAX) by {
                assert(n <= (usize::MAX - d) / 10);
                assert(10 * ((usize::MAX - d) / 10) <= usize::MAX - d);
            };
            assert(s@.take(j - a + 1).drop_last() =~= s@.take(j - a));
            assert(s@.take(j - a + 1).last() == s@[j - a]);
        }
        n = n * 10 + d;
        j = j + 1;
    }
    proof {
        assert(s@.take(b - a) =~= s@);
        assert(is_digits(s@));
    }
    n
}

/// For a digit string, a longer prefix never denotes a smaller value.
proof fn lemma_dec_value_monotone(s: Seq<u8>, i: int, k: int)
    requires
        0 <= i <= k <= s.len(),
        forall|l: int| 0 <= l < k ==> is_digit(s[l]),
    ensures
        dec_value(s.take(i)) <= dec_value(s.take(k)),
    decreases k - i,
{
    if i < k {
        lemma_dec_value_monotone(s, i + 1, k);
        assert(s.take(i + 1).drop_last() =~= s.take(i));
        assert(s.take(i + 1).last() == s[i]);
        lemma_dec_value_nonneg(s.take(i));
        assert(dec_value(s.take(i + 1)) == dec_value(s.take(i)) * 10 + (s[i] - 48));
        assert(dec_value(s.take(i)) * 10 >= dec_value(s.take(i))) by (nonlinear_arith)
            requires
                dec_value(s.take(i)) >= 0,
        ;
    }
}

proof fn lemma_dec_value_nonneg(s: Seq<u8>)
    requires
        forall|l: int| 0 <= l < s.len() ==> is_digit(s[l]),
    ensures
        dec_value(s) >= 0,
    decreases s.len(),
{
    if s.len() > 0 {
        assert(forall|l: int| 0 <= l < s.drop_last().len() ==> is_digit(s.drop_last()[l]));
        lemma_dec_value_nonneg(s.drop_last());
        assert(dec_value(s) >= 0) by (nonlinear_arith)
            requires
                dec_value(s.drop_last()) >= 0,
                dec_value(s) == dec_value(s.drop_last()) * 10 + (s.last() - 48),
                s.last() >= 48,
        ;
    }
}

/// Skips leading whitespace: the index where the trimmed value begins.
fn skip_leading_ws(v: &Vec<u8>, a: usize) -> (r: usize)
    requires
        a <= v@.len(),
    ensures
        a <= r <= v@.len(),
        trim_leading(v@.skip(a as int)) == v@.skip(r as int),
    decreases v@.len() - a,
{
    if a < v.len() {
        let b = v[a];
        if b == 32 || b == 9 || b == 13 {
            proof {
                assert(v@.skip(a as int).skip(1) =~= v@.skip(a + 1));
            }
            return skip_leading_ws(v, a + 1);
        }
    }
    a
}

/// The body length a trimmed `Content-Length` line declares.
fn cl_line_value(v: &Vec<u8>) -> (r: usize)
    requires
        v@.len() >= 15,
    ensures
        r == header_len_value(v@),
{
    let start = skip_leading_ws(v, 15);
    let r = parse_len_digits(v, start, v.len());
    proof {
        assert(v@.skip(15) =~= v@.subrange(15, v@.len() as int));
        assert(v@.skip(start as int) =~= v@.subrange(start as int, v@.len() as int));
    }
    r
}

impl FrameDecoder {
    /// Extracts the next complete frame, if the buffered bytes hold one.
    ///
    /// The decoder consumes exactly what `spec_decode` says it does, and the
    /// returned frame is the one `spec_decode` names.
    pub fn next_frame(&mut self) -> (r: Option<Vec<u8>>)
        requires
            old(self).wf(),
        ensures
            final(self).wf(),
            ({
                let (ph, rem, fr) = spec_decode(old(self).phase_spec(), old(self).remaining());
                &&& final(self).phase_spec() == ph
                &&& final(self).remaining() == rem
                &&& match (r, fr) {
                    (Some(v), Some(s)) => v@ == s,
                    (None, None) => true,
                    _ => false,
                }
            }),
    {
        loop
            invariant
                self.wf(),
                spec_decode(self.phase_spec(), self.remaining()) == spec_decode(
                    old(self).phase_spec(),
                    old(self).remaining(),
                ),
            decreases self.buf@.len() - self.pos,
        {
            let ghost rem0 = self.remaining();
            let ghost phase0 = self.phase;
            proof {
                lemma_nl_index_bounds(rem0);
            }
            match self.phase {
                DecodePhase::Lines => {
                    let nl = self.find_nl();
                    if nl == self.avail() {
                        return None;
                    }
                    let mut line = self.copy_range(0, nl);
                    proof {
                        assert(line@ =~= rem0.take(nl as int));
                    }
                    self.pos = self.pos + nl + 1;
                    proof {
                        assert(self.remaining() =~= rem0.skip(nl + 1));
                    }
                    trim_end_vec(&mut line);
                    if line.len() == 0 {
                        // blank line: nothing to hand out, keep scanning
                    } else if is_cl_line(&line) {
                        let n = cl_line_value(&line);
                        self.phase = DecodePhase::Headers { body_len: n };
                    } else {
                        return Some(line);
                    }
                },
                DecodePhase::Headers { body_len } => {
                    let nl = self.find_nl();
                    if nl == self.avail() {
                        return None;
                    }
                    let mut line = self.copy_range(0, nl);
                    proof {
                        assert(line@ =~= rem0.take(nl as int));
                    }
                    self.pos = self.pos + nl + 1;
                    proof {
                        assert(self.remaining() =~= rem0.skip(nl + 1));
                    }
                    trim_end_vec(&mut line);
                    if line.len() == 0 {
                        if body_len > 0 {
                            self.phase = DecodePhase::Body { body_len };
                        } else {
                            self.phase = DecodePhase::Lines;
                        }
                    }
                    // a non-blank header line is consumed and ignored
                },
                DecodePhase::Body { body_len } => {
                    if self.avail() < body_len {
                        return None;
                    }
                    let frame = self.copy_range(0, body_len);
                    proof {
                        assert(frame@ =~= rem0.take(body_len as int));
                    }
                    self.pos = self.pos + body_len;
                    self.phase = DecodePhase::Lines;
                    proof {
                        assert(self.remaining() =~= rem0.skip(body_len as int));
                    }
                    return Some(frame);
                },
            }
        }
    }
}

pub proof fn lemma_dec_bytes_digits(n: nat)
    ensures
        is_digits(dec_bytes(n)),
    decreases n,
{
    if n >= 10 {
        lemma_dec_bytes_digits(n / 10);
        assert forall|i: int| 0 <= i < dec_bytes(n).len() implies is_digit(dec_bytes(n)[i]) by {
            if i < dec_bytes(n / 10).len() {
                assert(dec_bytes(n)[i] == dec_bytes(n / 10)[i]);
            }
        }
    }
}

pub proof fn lemma_dec_bytes_value(n: nat)
    ensures
        dec_value(dec_bytes(n)) == n,
    decreases n,
{
    if n < 10 {
        assert(dec_bytes(n) == seq![digit_byte(n as int)]);
        assert(dec_bytes(n).len() == 1);
        assert(dec_bytes(n).last() == digit_byte(n as int));
        assert(dec_bytes(n).drop_last() =~= Seq::<u8>::empty());
        assert(dec_value(dec_bytes(n).drop_last()) == 0);
        assert(digit_byte(n as int) - 48 == n);
        assert(dec_value(dec_bytes(n)) == 0 * 10 + (digit_byte(n as int) - 48));
    } else {
        lemma_dec_bytes_value(n / 10);
        assert(dec_bytes(n).drop_last() =~= dec_bytes(n / 10));
        assert(dec_bytes(n).last() == digit_byte(n as int % 10));
        assert(digit_byte(n as int % 10) - 48 == n as int % 10);
        assert(dec_value(dec_bytes(n)) == (n / 10) * 10 + (n % 10));
        vstd::arithmetic::div_mod::lemma_fundamental_div_mod(n as int, 10);
    }
}

/// The header line that declares a body length: the header name, one space,
/// then the length in decimal.
pub open spec fn cl_header_line(body_len: nat) -> Seq<u8> {
    cl_prefix() + seq![32u8] + dec_bytes(body_len)
}

/// Content-Length framing reads the declared body exactly: after a header
/// line declaring L bytes and a blank line, the decoder takes the next L
/// bytes — embedded newlines and all — as one frame, leaves what follows
/// untouched, and returns to scanning for lines.
/// The declared-length header line carries no newline, already lacks
/// trailing whitespace, is recognized, and declares exactly its length.
proof fn lemma_cl_header_line_props(body_len: usize)
    requires
        body_len >= 1,
    ensures
        ({
            let line = cl_header_line(body_len as nat);
            &&& line.len() >= 16
            &&& forall|j: int| 0 <= j < line.len() ==> line[j] != 10
            &&& trim_trailing(line) == line
            &&& is_cl_header(line)
            &&& header_len_value(line) == body_len
        }),
{
    let line = cl_header_line(body_len as nat);
    let d = dec_bytes(body_len as nat);
    lemma_dec_bytes_digits(body_len as nat);
    lemma_dec_bytes_value(body_len as nat);
    assert forall|j: int| 0 <= j < line.len() implies line[j] != 10 by {
        if j < 15 {
            assert(line[j] == cl_prefix()[j]);
        } else if j == 15 {
            assert(line[j] == 32);
        } else {
            assert(line[j] == d[j - 16]);
            assert(is_digit(d[j - 16]));
        }
    }
    assert(line.last() == d.last());
    assert(is_digit(d.last()));
    assert(!is_ws(line.last()));
    assert(trim_trailing(line) == line);
    assert forall|j: int| 0 <= j < 15 implies ascii_lower(line[j]) == cl_prefix()[j] by {
        assert(line[j] == cl_prefix()[j]);
        assert(!(65 <= cl_prefix()[j] <= 90));
    }
    assert(is_cl_header(line));
    assert(line.skip(15) =~= seq![32u8] + d);
    assert((seq![32u8] + d).skip(1) =~= d);
    assert(trim_leading(seq![32u8] + d) == trim_leading(d));
    assert(!is_ws(d[0]));
    assert(trim_leading(d) == d);
    assert(parsed_len(d) == body_len);
}

#[verifier::rlimit(100)]
pub proof fn lemma_content_length_framing(body_len: usize, body: Seq<u8>, rest: Seq<u8>)
    requires
        body.len() == body_len,
        body_len >= 1,
    ensures
        spec_decode(
            DecodePhase::Lines,
            cl_header_line(body_len as nat) + seq![10u8] + seq![10u8] + body + rest,
        ) == (DecodePhase::Lines, rest, Some(body)),
{
    let line = cl_header_line(body_len as nat);
    let input = line + seq![10u8] + seq![10u8] + body + rest;
    lemma_cl_header_line_props(body_len);

    // the first newline sits right after the header line
    assert forall|j: int| 0 <= j < line.len() implies input[j] != 10 by {
        assert(input[j] == line[j]);
    }
    assert(input[line.len() as int] == 10);
    lemma_nl_index_is(input, line.len() as int);
    let i = nl_index(input);
    assert(i == line.len());
    assert(i != input.len());
    assert(input.take(i) =~= line);
    let t = trim_trailing(input.take(i));
    assert(t == line);
    assert(t.len() > 0);

    // the blank line switches to reading the body
    let rest1 = input.skip(i + 1);
    assert(rest1 =~= seq![10u8] + body + rest);
    assert(spec_decode(DecodePhase::Lines, input) == spec_decode(
        DecodePhase::Headers { body_len },
        rest1,
    ));
    assert(rest1[0] == 10);
    lemma_nl_index_is(rest1, 0);
    assert(rest1.len() > 0);
    assert(rest1.take(0) =~= Seq::<u8>::empty());
    assert(trim_trailing(Seq::<u8>::empty()) =~= Seq::<u8>::empty());
    let rest2 = rest1.skip(1);
    assert(rest2 =~= body + rest);
    assert(spec_decode(DecodePhase::Headers { body_len }, rest1) == spec_decode(
        DecodePhase::Body { body_len },
        rest2,
    ));

    // the body is taken as exactly `body_len` bytes
    assert(rest2.len() >= body_len);
    assert(rest2.take(body_len as int) =~= body);
    assert(rest2.skip(body_len as int) =~= rest);
}

/// Builds the params JSON for a `tools/call` request.
pub fn tool_call_params(name: &str, arguments: &str) -> (r: String)
    ensures
        r@ == tool_call_params_text(name@, arguments@),
{
    let mut out = String::new();
    out.append("{\"name\":\"");
    push_json_escaped(&mut out, name);
    out.append("\",\"arguments\":");
    out.append(arguments);
    out.append("}");
    proof {
        assert(out@ =~= tool_call_params_text(name@, arguments@));
    }
    out
}

} // verus!
