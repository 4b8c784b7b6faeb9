use vstd::prelude::*;
use vstd::string::StrSliceExecFns;
use vstd::string::StringExecFns;
use crate::error::ImdsError;
use crate::headers::HeaderMap;

verus! {

// ---------------------------------------------------------------------
// Outbound frames.
//
// A request frame is pure text: a request line, one line per header,
// and a terminating empty line.  No request ever carries a body.
// ---------------------------------------------------------------------

/// The request methods the client ever issues.
#[derive(Clone, Copy, Debug, PartialEq, Eq, Structural)]
pub enum Method {
    Get,
    Put,
}

impl Method {
    /// The method name as it appears on the request line.
    pub open spec fn spec_name(&self) -> Seq<char> {
        match self {
            Method::Get => "GET"@,
            Method::Put => "PUT"@,
        }
    }

    pub fn name(&self) -> (r: &'static str)
        ensures
            r@ == self.spec_name(),
    {
        match self {
            Method::Get => "GET",
            Method::Put => "PUT",
        }
    }
}

/// The request target: the caller's path, given a leading slash when it
/// has none (callers need not supply one).
pub open spec fn spec_target(path: Seq<char>) -> Seq<char> {
    if path.len() > 0 && path[0] == '/' {
        path
    } else {
        seq!['/'] + path
    }
}

/// The request line `METHOD <target> HTTP/1.1` with its terminator.
pub open spec fn spec_request_line(method: Seq<char>, path: Seq<char>) -> Seq<char> {
    method + " "@ + spec_target(path) + " HTTP/1.1\r\n"@
}

/// One header line `Name: value` with its terminator.
pub open spec fn spec_header_line(name: Seq<char>, value: Seq<char>) -> Seq<char> {
    name + ": "@ + value + "\r\n"@
}

/// All header lines, in the order the header set holds them.
pub open spec fn spec_header_block(headers: Seq<(Seq<char>, Seq<char>)>) -> Seq<char>
    decreases headers.len(),
{
    if headers.len() == 0 {
        Seq::empty()
    } else {
        spec_header_line(headers[0].0, headers[0].1) + spec_header_block(headers.drop_first())
    }
}

/// A whole request frame: request line, header block, empty line.
pub open spec fn spec_request_frame(
    method: Seq<char>,
    path: Seq<char>,
    headers: Seq<(Seq<char>, Seq<char>)>,
) -> Seq<char> {
    spec_request_line(method, path) + spec_header_block(headers) + "\r\n"@
}

/// Builds the outbound request frame for `method` on `path` carrying
/// `headers`.  The frame is text; the caller puts its bytes on the wire.
pub fn encode(method: Method, path: &str, headers: &HeaderMap) -> (r: String)
    ensures
        r@ == spec_request_frame(method.spec_name(), path@, headers@),
{
    let mut out = String::new();
    out.append(method.name());
    out.append(" ");
    if path.is_empty() || path.get_char(0) != '/' {
        out.append("/");
        proof {
            reveal_strlit("/");
            assert(out@ + path@ =~= method.spec_name() + " "@ + spec_target(path@));
        }
    }
    out.append(path);
    out.append(" HTTP/1.1\r\n");
    proof {
        assert(out@ =~= spec_request_line(method.spec_name(), path@));
    }
    let ghost line = out@;
    let mut i: usize = 0;
    while i < headers.len()
        invariant
            i <= headers@.len(),
            out@ == line + spec_header_block(headers@.take(i as int)),
        decreases headers@.len() - i,
    {
        let e = headers.entry(i);
        out.append(e.0.as_str());
        out.append(": ");
        out.append(e.1.as_str());
        out.append("\r\n");
        i = i + 1;
        proof {
            lemma_header_block_snoc(headers@.take(i as int));
            assert(headers@.take(i as int).drop_last() =~= headers@.take(i as int - 1));
            assert(out@ =~= line + spec_header_block(headers@.take(i as int)));
        }
    }
    out.append("\r\n");
    proof {
        assert(headers@.take(headers@.len() as int) =~= headers@);
        assert(out@ =~= spec_request_frame(method.spec_name(), path@, headers@));
    }
    out
}

/// Unrolls `spec_header_block` at the back: the block of a non-empty
/// header sequence is the block of all but the last entry followed by
/// the last entry's line.
pub proof fn lemma_header_block_snoc(headers: Seq<(Seq<char>, Seq<char>)>)
    requires
        headers.len() > 0,
    ensures
        spec_header_block(headers) == spec_header_block(headers.drop_last())
            + spec_header_line(headers.last().0, headers.last().1),
    decreases headers.len(),
{
    if headers.len() == 1 {
        assert(headers.drop_last() =~= Seq::<(Seq<char>, Seq<char>)>::empty());
        assert(spec_header_block(headers.drop_last()) == Seq::<char>::empty());
        assert(headers.drop_first() =~= Seq::<(Seq<char>, Seq<char>)>::empty());
        assert(spec_header_block(headers) =~= spec_header_block(headers.drop_last())
            + spec_header_line(headers.last().0, headers.last().1));
    } else {
        lemma_header_block_snoc(headers.drop_first());
        assert(headers.drop_first().drop_last() =~= headers.drop_last().drop_first());
        assert(headers.drop_first().last() == headers.last());
        assert(spec_header_block(headers) =~= spec_header_block(headers.drop_last())
            + spec_header_line(headers.last().0, headers.last().1));
    }
}

// ---------------------------------------------------------------------
// Inbound frames.
//
// A response buffer is everything read from the connection until the
// peer closed it.  Header lines are CRLF-terminated; the first empty
// header line is the header/body boundary and every byte after it is
// the body, verbatim.  The status code is the second whitespace-
// delimited token of the first header line.
// ---------------------------------------------------------------------

/// A parsed response frame: the status code and the raw body bytes.
#[derive(Debug)]
pub struct ResponseFrame {
    pub status: u64,
    pub body: Vec<u8>,
}

/// A CRLF pair starts at position `i` of `buf`.
pub open spec fn crlf_at(buf: Seq<u8>, i: int) -> bool {
    0 <= i && i + 2 <= buf.len() && buf[i] == 13 && buf[i + 1] == 10
}

/// Position `i` terminates an empty header line: a CRLF that opens the
/// buffer or directly follows the CRLF of the previous line.
pub open spec fn boundary_at(buf: Seq<u8>, i: int) -> bool {
    crlf_at(buf, i) && (i == 0 || crlf_at(buf, i - 2))
}

/// The earliest CRLF at or after `from`, if any.
pub open spec fn find_crlf(buf: Seq<u8>, from: int) -> Option<int>
    decreases buf.len() - from,
{
    if from < 0 || from + 2 > buf.len() {
        None
    } else if crlf_at(buf, from) {
        Some(from)
    } else {
        find_crlf(buf, from + 1)
    }
}

/// The earliest header/body boundary at or after `from`, if any.
pub open spec fn find_boundary(buf: Seq<u8>, from: int) -> Option<int>
    decreases buf.len() - from,
{
    if from < 0 || from + 2 > buf.len() {
        None
    } else if boundary_at(buf, from) {
        Some(from)
    } else {
        find_boundary(buf, from + 1)
    }
}

/// ASCII whitespace, the separators the status line is split on.
pub open spec fn is_ws(b: u8) -> bool {
    b == 32 || b == 9 || b == 10 || b == 12 || b == 13
}

/// Length of the maximal non-whitespace prefix of `s`.
pub open spec fn token_len(s: Seq<u8>) -> int
    decreases s.len(),
{
    if s.len() == 0 || is_ws(s[0]) {
        0
    } else {
        1 + token_len(s.drop_first())
    }
}

pub proof fn lemma_token_len_bounds(s: Seq<u8>)
    ensures
        0 <= token_len(s) <= s.len(),
    decreases s.len(),
{
    if s.len() != 0 && !is_ws(s[0]) {
        lemma_token_len_bounds(s.drop_first());
    }
}

/// The whitespace-delimited tokens of `s`, in order.
pub open spec fn split_ws(s: Seq<u8>) -> Seq<Seq<u8>>
    decreases s.len(),
    via split_ws_decreases
{
    if s.len() == 0 {
        Seq::empty()
    } else if is_ws(s[0]) {
        split_ws(s.drop_first())
    } else {
        seq![s.take(token_len(s))] + split_ws(s.skip(token_len(s)))
    }
}

#[via_fn]
proof fn split_ws_decreases(s: Seq<u8>) {
    if s.len() != 0 && !is_ws(s[0]) {
        lemma_token_len_bounds(s.drop_first());
    }
}

/// An ASCII decimal digit.
pub open spec fn is_digit(b: u8) -> bool {
    48 <= b <= 57
}

pub open spec fn all_digits(s: Seq<u8>) -> bool {
    forall|i: int| 0 <= i < s.len() ==> is_digit(s[i])
}

/// The numeric value of a digit string, most significant digit first.
pub open spec fn digits_value(s: Seq<u8>) -> int
    decreases s.len(),
{
    if s.len() == 0 {
        0
    } else {
        digits_value(s.drop_last()) * 10 + (s.last() - 48)
    }
}

/// A token that parses as a `u64`: non-empty, all digits, in range.
pub open spec fn parses_as_u64(s: Seq<u8>) -> bool {
    s.len() > 0 && all_digits(s) && digits_value(s) <= u64::MAX
}

/// What decoding a raw response buffer yields.  `None` is a framing
/// error: no header/body boundary, a status line with fewer than two
/// tokens, or a second token that is not a `u64` numeral.  Otherwise
/// the status value and the body — every byte after the boundary.
pub open spec fn spec_decode(buf: Seq<u8>) -> Option<(u64, Seq<u8>)> {
    if find_boundary(buf, 0) is Some {
        let b = find_boundary(buf, 0)->Some_0;
        let f = find_crlf(buf, 0)->Some_0;
        let toks = split_ws(buf.take(f));
        if toks.len() < 2 || !parses_as_u64(toks[1]) {
            None
        } else {
            Some((digits_value(toks[1]) as u64, buf.skip(b + 2)))
        }
    } else {
        None
    }
}

/// `find_boundary` yields exactly the least boundary position.
pub proof fn lemma_find_boundary_least(buf: Seq<u8>, from: int, b: int)
    requires
        0 <= from <= b,
        boundary_at(buf, b),
        forall|j: int| from <= j < b ==> !boundary_at(buf, j),
    ensures
        find_boundary(buf, from) == Some(b),
    decreases b - from,
{
    if from < b {
        lemma_find_boundary_least(buf, from + 1, b);
    }
}

pub proof fn lemma_find_boundary_none(buf: Seq<u8>, from: int)
    requires
        0 <= from,
        forall|j: int| from <= j ==> !boundary_at(buf, j),
    ensures
        find_boundary(buf, from) is None,
    decreases buf.len() - from,
{
    if from + 2 <= buf.len() {
        lemma_find_boundary_none(buf, from + 1);
    }
}

/// `find_crlf` yields exactly the least CRLF position.
pub proof fn lemma_find_crlf_least(buf: Seq<u8>, from: int, c: int)
    requires
        0 <= from <= c,
        crlf_at(buf, c),
        forall|j: int| from <= j < c ==> !crlf_at(buf, j),
    ensures
        find_crlf(buf, from) == Some(c),
    decreases c - from,
{
    if from < c {
        lemma_find_crlf_least(buf, from + 1, c);
    }
}

fn is_ws_byte(b: u8) -> (r: bool)
    ensures
        r == is_ws(b),
{
    b == 32 || b == 9 || b == 10 || b == 12 || b == 13
}

/// Finds the header/body boundary, the first empty header line.
fn scan_boundary(buf: &[u8]) -> (r: Option<usize>)
    ensures
        r matches Some(b) ==> find_boundary(buf@, 0) == Some(b as int),
        r is None ==> find_boundary(buf@, 0) is None,
{
    let n = buf.len();
    let mut i: usize = 0;
    while n - i > 1
        invariant
            n == buf@.len(),
            i <= n,
            forall|j: int| 0 <= j < i ==> !boundary_at(buf@, j),
        decreases n - i,
    {
        if buf[i] == 13 && buf[i + 1] == 10 && (i == 0 || (i >= 2 && buf[i - 2] == 13
            && buf[i - 1] == 10)) {
            proof {
                lemma_find_boundary_least(buf@, 0, i as int);
            }
            return Some(i);
        }
        i = i + 1;
    }
    proof {
        assert forall|j: int| 0 <= j implies !boundary_at(buf@, j) by {
            if j >= i {
                assert(j + 2 > buf@.len());
            }
        }
        lemma_find_boundary_none(buf@, 0);
    }
    None
}

/// Finds the end of the first header line: the first CRLF.
fn scan_crlf(buf: &[u8]) -> (r: Option<usize>)
    ensures
        r matches Some(c) ==> find_crlf(buf@, 0) == Some(c as int),
        r is None ==> forall|j: int| !crlf_at(buf@, j),
    {
    let n = buf.len();
    let mut i: usize = 0;
    while n - i > 1
        invariant
            n == buf@.len(),
            i <= n,
            forall|j: int| 0 <= j < i ==> !crlf_at(buf@, j),
        decreases n - i,
    {
        if buf[i] == 13 && buf[i + 1] == 10 {
            proof {
                lemma_find_crlf_least(buf@, 0, i as int);
            }
            return Some(i);
        }
        i = i + 1;
    }
    proof {
        assert forall|j: int| !crlf_at(buf@, j) by {
            if j >= i {
                assert(j + 2 > buf@.len());
            }
        }
    }
    None
}

/// Splits `s` on ASCII whitespace into its tokens, in order.
fn split_whitespace_bytes(s: &[u8]) -> (r: Vec<Vec<u8>>)
    ensures
        r@.len() == split_ws(s@).len(),
        forall|k: int| 0 <= k < r@.len() ==> r@[k]@ == split_ws(s@)[k],
{
    let n = s.len();
    let mut toks: Vec<Vec<u8>> = Vec::new();
    let ghost mut model: Seq<Seq<u8>> = Seq::empty();
    let mut i: usize = 0;
    proof {
        assert(s@.skip(0) =~= s@);
        assert(Seq::<Seq<u8>>::empty() + split_ws(s@) =~= split_ws(s@));
    }
    while i < n
        invariant
            n == s@.len(),
            i <= n,
            toks@.len() == model.len(),
            forall|k: int| 0 <= k < model.len() ==> toks@[k]@ == model[k],
            split_ws(s@) == model + split_ws(s@.skip(i as int)),
        decreases n - i,
    {
        if is_ws_byte(s[i]) {
            proof {
                assert(s@.skip(i as int).drop_first() =~= s@.skip(i as int + 1));
            }
            i = i + 1;
        } else {
            let start = i;
            let mut tok: Vec<u8> = Vec::new();
            i = i + 1;
            tok.push(s[start]);
            proof {
                assert(tok@ =~= s@.subrange(start as int, i as int));
            }
            while i < n && !is_ws_byte(s[i])
                invariant
                    n == s@.len(),
                    start < i <= n,
                    tok@ == s@.subrange(start as int, i as int),
                    forall|j: int| start <= j < i ==> !is_ws(s@[j]),
                decreases n - i,
            {
                tok.push(s[i]);
                i = i + 1;
                proof {
                    assert(tok@ =~= s@.subrange(start as int, i as int));
                }
            }
            proof {
                let rest = s@.skip(start as int);
                lemma_token_len_run(rest, i - start);
                assert(rest.take(i - start) =~= s@.subrange(start as int, i as int));
                assert(rest.skip(i - start) =~= s@.skip(i as int));
                assert(split_ws(rest) == seq![tok@] + split_ws(s@.skip(i as int)));
                model = model.push(tok@);
                assert(model + split_ws(s@.skip(i as int)) =~= (model.drop_last()
                    + (seq![tok@] + split_ws(s@.skip(i as int)))));
            }
            toks.push(tok);
        }
    }
    proof {
        assert(s@.skip(n as int) =~= Seq::<u8>::empty());
        assert(split_ws(s@) =~= model);
    }
    toks
}

/// The token length of a sequence whose first `k` bytes are exactly a
/// maximal non-whitespace run.
pub proof fn lemma_token_len_run(t: Seq<u8>, k: int)
    requires
        0 <= k <= t.len(),
        forall|j: int| 0 <= j < k ==> !is_ws(t[j]),
        k == t.len() || is_ws(t[k]),
    ensures
        token_len(t) == k,
    decreases k,
{
    if k > 0 {
        assert(!is_ws(t[0]));
        assert forall|j: int| 0 <= j < k - 1 implies !is_ws(t.drop_first()[j]) by {
            assert(t.drop_first()[j] == t[j + 1]);
        }
        if k < t.len() {
            assert(t.drop_first()[k - 1] == t[k]);
        }
        lemma_token_len_run(t.drop_first(), k - 1);
    }
}

/// Appending digits never lowers the value, and the value of a digit
/// string is never negative.
pub proof fn lemma_digits_value_mono(s: Seq<u8>, k: int)
    requires
        0 <= k <= s.len(),
        all_digits(s),
    ensures
        0 <= digits_value(s.take(k)) <= digits_value(s),
    decreases s.len(),
{
    if s.len() == 0 {
        assert(s.take(k) =~= s);
    } else {
        assert(all_digits(s.drop_last()));
        lemma_digits_value_mono(s.drop_last(), if k <= s.len() - 1 { k } else { s.len() - 1 });
        assert(is_digit(s.last()));
        if k == s.len() {
            assert(s.take(k) =~= s);
        } else {
            assert(s.take(k) =~= s.drop_last().take(k));
        }
    }
}

/// Parses a decimal numeral, most significant digit first.
fn parse_u64(s: &[u8]) -> (r: Option<u64>)
    ensures
        r is Some <==> parses_as_u64(s@),
        r matches Some(v) ==> v as int == digits_value(s@),
{
    let n = s.len();
    if n == 0 {
        return None;
    }
    let mut acc: u64 = 0;
    let mut i: usize = 0;
    while i < n
        invariant
            n == s@.len(),
            i <= n,
            all_digits(s@.take(i as int)),
            acc as int == digits_value(s@.take(i as int)),
        decreases n - i,
    {
        let b = s[i];
        if b < 48 || b > 57 {
            assert(!all_digits(s@));
            return None;
        }
        let d: u64 = (b - 48) as u64;
        let shifted = match acc.checked_mul(10) {
            Some(x) => x,
            None => {
                proof {
                    assert(s@.take(i as int + 1).drop_last() =~= s@.take(i as int));
                    overflow_means_unparseable(s@, i as int, acc as int * 10);
                }
                return None;
            },
        };
        let next = match shifted.checked_add(d) {
            Some(x) => x,
            None => {
                proof {
                    assert(s@.take(i as int + 1).drop_last() =~= s@.take(i as int));
                    overflow_means_unparseable(s@, i as int, acc as int * 10 + d);
                }
                return None;
            },
        };
        acc = next;
        i = i + 1;
        proof {
            assert(s@.take(i as int).drop_last() =~= s@.take(i as int - 1));
            assert(all_digits(s@.take(i as int)));
        }
    }
    proof {
        assert(s@.take(n as int) =~= s@);
    }
    Some(acc)
}

/// If the value of some prefix of the digits already exceeds `u64`,
/// the whole token does not parse.
proof fn overflow_means_unparseable(s: Seq<u8>, i: int, prefix_value: int)
    requires
        0 <= i < s.len(),
        is_digit(s[i]),
        all_digits(s.take(i)),
        prefix_value > u64::MAX,
        digits_value(s.take(i + 1)) >= prefix_value,
    ensures
        !parses_as_u64(s),
{
    if all_digits(s) {
        lemma_digits_value_mono(s, i + 1);
    }
}

/// Parses a raw response buffer into its status code and body.
///
/// Scans for the first empty header line; everything after it is the
/// body, verbatim.  The status code is the second whitespace-delimited
/// token of the first header line, read as a decimal numeral.  A buffer
/// with no boundary, too few status-line tokens, or a non-numeric
/// status token is rejected as a framing error — the only error this
/// parser reports.
pub fn decode(buf: &[u8]) -> (r: Result<ResponseFrame, ImdsError>)
    ensures
        (r is Ok) == (spec_decode(buf@) is Some),
        r matches Ok(f) ==> Some((f.status, f.body@)) == spec_decode(buf@),
        r matches Err(e) ==> e == ImdsError::FramingError,
{
    let b = match scan_boundary(buf) {
        Some(b) => b,
        None => {
            return Err(ImdsError::FramingError);
        },
    };
    let f = match scan_crlf(buf) {
        Some(f) => f,
        None => {
            proof {
                lemma_find_boundary_is_boundary(buf@, 0, b as int);
                assert(crlf_at(buf@, b as int));
                assert(false);
            }
            return Err(ImdsError::FramingError);
        },
    };
    proof {
        lemma_find_boundary_is_boundary(buf@, 0, b as int);
        lemma_find_crlf_is_crlf(buf@, 0, f as int);
    }
    let line = vstd::slice::slice_subrange(buf, 0, f);
    let toks = split_whitespace_bytes(line);
    if toks.len() < 2 {
        return Err(ImdsError::FramingError);
    }
    let status = match parse_u64(toks[1].as_slice()) {
        Some(v) => v,
        None => {
            return Err(ImdsError::FramingError);
        },
    };
    let n = buf.len();
    let tail = vstd::slice::slice_subrange(buf, b + 2, n);
    let body = vstd::slice::slice_to_vec(tail);
    proof {
        assert(buf@.subrange(b + 2, buf@.len() as int) =~= buf@.skip(b as int + 2));
    }
    Ok(ResponseFrame { status, body })
}

// ---------------------------------------------------------------------
// Round-trip laws: a well-formed response frame decodes to exactly the
// status its status line carries and exactly the body it was framed
// with — no header byte enters the body, and the body is never
// truncated, whatever bytes it holds.
// ---------------------------------------------------------------------

pub open spec fn crlf_bytes() -> Seq<u8> {
    seq![13u8, 10u8]
}

/// The concatenated header lines, each with its CRLF terminator.
pub open spec fn spec_header_lines_bytes(lines: Seq<Seq<u8>>) -> Seq<u8>
    decreases lines.len(),
{
    if lines.len() == 0 {
        Seq::empty()
    } else {
        lines[0] + crlf_bytes() + spec_header_lines_bytes(lines.drop_first())
    }
}

/// A response frame as a well-behaved peer sends it: the status line,
/// the header lines, the empty line, then the raw body.
pub open spec fn spec_response_bytes(
    status_line: Seq<u8>,
    header_lines: Seq<Seq<u8>>,
    body: Seq<u8>,
) -> Seq<u8> {
    status_line + crlf_bytes() + spec_header_lines_bytes(header_lines) + crlf_bytes() + body
}

/// A line that can sit in the header block: non-empty and free of CRLF
/// pairs, so it neither ends the block early nor splits in two.
pub open spec fn line_ok(l: Seq<u8>) -> bool {
    l.len() > 0 && forall|i: int| 0 <= i < l.len() - 1 ==> !(#[trigger] l[i] == 13 && l[i + 1]
        == 10)
}

/// Nothing earlier than a found boundary is a boundary.
pub proof fn lemma_find_boundary_no_earlier(buf: Seq<u8>, from: int, b: int)
    requires
        0 <= from,
        find_boundary(buf, from) == Some(b),
    ensures
        forall|j: int| from <= j < b ==> !boundary_at(buf, j),
    decreases buf.len() - from,
{
    if from + 2 <= buf.len() && !boundary_at(buf, from) {
        lemma_find_boundary_no_earlier(buf, from + 1, b);
    }
}

/// Where the header/body boundary of a well-formed response frame sits:
/// right after the header lines, with the body exactly the bytes behind
/// it, and the first line exactly the status line.
pub proof fn lemma_response_frame_shape(line: Seq<u8>, lines: Seq<Seq<u8>>, body: Seq<u8>)
    requires
        line_ok(line),
        forall|k: int| 0 <= k < lines.len() ==> line_ok(#[trigger] lines[k]),
    ensures
        ({
            let buf = spec_response_bytes(line, lines, body);
            let b = line.len() + 2 + spec_header_lines_bytes(lines).len();
            &&& find_boundary(buf, 0) == Some(b as int)
            &&& buf.skip(b as int + 2) == body
            &&& find_crlf(buf, 0) == Some(line.len() as int)
            &&& buf.take(line.len() as int) == line
        }),
    decreases lines.len(),
{
    let buf = spec_response_bytes(line, lines, body);
    let block = spec_header_lines_bytes(lines);
    let l0 = line.len() as int;
    let b = l0 + 2 + block.len();
    assert forall|j: int| 0 <= j < l0 implies !crlf_at(buf, j) by {
        if j < l0 - 1 {
            assert(buf[j] == line[j] && buf[j + 1] == line[j + 1]);
        } else {
            assert(buf[j + 1] == 13);
        }
    }
    assert(buf[l0] == 13 && buf[l0 + 1] == 10);
    assert(crlf_at(buf, l0));
    lemma_find_crlf_least(buf, 0, l0);
    assert(buf.take(l0) =~= line);
    // no boundary inside or just after the status line
    assert(!boundary_at(buf, l0)) by {
        if l0 >= 2 {
            assert(buf[l0 - 2] == line[l0 - 2] && buf[l0 - 1] == line[l0 - 1]);
        }
    }
    assert(!crlf_at(buf, l0 + 1)) by {
        assert(buf[l0 + 1] == 10);
    }
    if lines.len() == 0 {
        assert(block =~= Seq::<u8>::empty());
        assert(b == l0 + 2);
        assert(buf[l0 + 2] == 13 && buf[l0 + 3] == 10);
        assert(crlf_at(buf, b));
        assert(boundary_at(buf, b));
        assert forall|j: int| 0 <= j < b implies !boundary_at(buf, j) by {
            if j < l0 {
                assert(!crlf_at(buf, j));
            }
        }
        lemma_find_boundary_least(buf, 0, b);
        assert(buf.skip(b + 2) =~= body);
    } else {
        let sub = spec_response_bytes(lines[0], lines.drop_first(), body);
        assert forall|k: int| 0 <= k < lines.drop_first().len() implies line_ok(
            #[trigger] lines.drop_first()[k],
        ) by {
            assert(lines.drop_first()[k] == lines[k + 1]);
        }
        lemma_response_frame_shape(lines[0], lines.drop_first(), body);
        assert(buf =~= line + crlf_bytes() + sub);
        let b2 = lines[0].len() as int + 2 + spec_header_lines_bytes(lines.drop_first()).len()
            as int;
        assert(b == l0 + 2 + b2) by {
            assert(block == lines[0] + crlf_bytes() + spec_header_lines_bytes(
                lines.drop_first(),
            ));
        }
        // positions at or after the status line's CRLF mirror the
        // sub-frame two bytes further in
        assert forall|j: int| l0 + 2 <= j implies crlf_at(buf, j) == crlf_at(sub, j - l0 - 2) by {
            if j + 2 <= buf.len() {
                assert(buf[j] == sub[j - l0 - 2]);
                assert(buf[j + 1] == sub[j - l0 - 1]);
            }
        }
        assert forall|j: int| l0 + 2 <= j implies boundary_at(buf, j) == boundary_at(
            sub,
            j - l0 - 2,
        ) by {
            let j2 = j - l0 - 2;
            assert(crlf_at(buf, j) == crlf_at(sub, j2));
            if j2 == 0 {
                assert(crlf_at(buf, j - 2) == crlf_at(buf, l0));
            } else if j2 == 1 {
                assert(!crlf_at(buf, j - 2)) by {
                    assert(buf[l0 + 1] == 10);
                }
                assert(!crlf_at(sub, j2 - 2));
            } else {
                assert(crlf_at(buf, j - 2) == crlf_at(sub, j2 - 2));
            }
        }
        lemma_find_boundary_is_boundary(sub, 0, b2);
        lemma_find_boundary_no_earlier(sub, 0, b2);
        assert(boundary_at(buf, b));
        assert forall|j: int| 0 <= j < b implies !boundary_at(buf, j) by {
            if j < l0 {
                assert(!crlf_at(buf, j));
            } else if j == l0 {
                assert(!boundary_at(buf, l0));
            } else if j == l0 + 1 {
                assert(!crlf_at(buf, l0 + 1));
            } else {
                assert(boundary_at(buf, j) == boundary_at(sub, j - l0 - 2));
                assert(!boundary_at(sub, j - l0 - 2));
            }
        }
        lemma_find_boundary_least(buf, 0, b);
        assert(buf.skip(b + 2) =~= sub.skip(b2 + 2));
        assert(buf.skip(b + 2) == body);
    }
}

/// Round-trip law: a response frame whose status line splits into at
/// least two tokens, the second a `u64` numeral, decodes to exactly
/// that numeral and exactly the framed body — for every body, including
/// the empty one and bodies holding CRLF bytes, and for every set of
/// well-formed header lines.
pub proof fn lemma_decode_response(status_line: Seq<u8>, header_lines: Seq<Seq<u8>>, body: Seq<u8>)
    requires
        line_ok(status_line),
        forall|k: int| 0 <= k < header_lines.len() ==> line_ok(#[trigger] header_lines[k]),
        split_ws(status_line).len() >= 2,
        parses_as_u64(split_ws(status_line)[1]),
    ensures
        spec_decode(spec_response_bytes(status_line, header_lines, body)) == Some(
            (digits_value(split_ws(status_line)[1]) as u64, body),
        ),
{
    lemma_response_frame_shape(status_line, header_lines, body);
}

/// A found boundary is a boundary.
pub proof fn lemma_find_boundary_is_boundary(buf: Seq<u8>, from: int, b: int)
    requires
        0 <= from,
        find_boundary(buf, from) == Some(b),
    ensures
        boundary_at(buf, b),
        from <= b,
    decreases buf.len() - from,
{
    if from + 2 <= buf.len() && !boundary_at(buf, from) {
        lemma_find_boundary_is_boundary(buf, from + 1, b);
    }
}

/// A found CRLF is a CRLF.
pub proof fn lemma_find_crlf_is_crlf(buf: Seq<u8>, from: int, c: int)
    requires
        0 <= from,
        find_crlf(buf, from) == Some(c),
    ensures
        crlf_at(buf, c),
        from <= c,
    decreases buf.len() - from,
{
    if from + 2 <= buf.len() && !crlf_at(buf, from) {
        lemma_find_crlf_is_crlf(buf, from + 1, c);
    }
}

} // verus!
