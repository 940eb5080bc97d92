//! Parsing of an HTTP/1.1 request head into the fields this server reads.
//!
//! The request is read as its UTF-8 bytes: lines end at `\n`, the request
//! line splits at spaces, and a header line `Name: value` sets the field of
//! that name to the value with ASCII whitespace trimmed from both ends.
use vstd::prelude::*;
use vstd::utf8::*;
use vstd::string::*;

verus! {

broadcast use {encode_utf8_decode_utf8, encode_utf8_valid_utf8, is_char_boundary_start_end_of_seq};

/// Number of header fields an `HttpRequest` holds.
pub const HEADER_COUNT: usize = 11;

pub const HOST: &'static str = "Host";
pub const CONNECTION: &'static str = "Connection";
pub const CACHE_CONTROL: &'static str = "Cache-Control";
pub const USER_AGENT: &'static str = "User-Agent";
pub const ACCEPT: &'static str = "Accept";
pub const ACCEPT_ENCODING: &'static str = "Accept-Encoding";
pub const ACCEPT_LANGUAGE: &'static str = "Accept-Language";
pub const SEC_WEBSOCKET_VERSION: &'static str = "Sec-WebSocket-Version";
pub const SEC_WEBSOCKET_KEY: &'static str = "Sec-WebSocket-Key";
pub const UPGRADE: &'static str = "Upgrade";
pub const SEC_WEBSOCKET_EXTENSIONS: &'static str = "Sec-WebSocket-Extensions";

/// The fields of a request head that this server reads. A header that does
/// not occur leaves its field empty.
pub struct HttpRequest {
    pub verb: String,
    pub path: String,
    pub protocol: String,
    pub host: String,
    pub connection: String,
    pub cache_control: String,
    pub user_agent: String,
    pub accept: String,
    pub accept_encoding: String,
    pub accept_language: String,
    pub sec_websocket_version: String,
    pub sec_websocket_key: String,
    pub upgrade: String,
    pub sec_websocket_extensions: String,
}

/// The recognised header names, in the order of the fields of `HttpRequest`.
pub open spec fn header_name(k: int) -> Seq<u8> {
    if k == 0 {
        HOST.spec_bytes()
    } else if k == 1 {
        CONNECTION.spec_bytes()
    } else if k == 2 {
        CACHE_CONTROL.spec_bytes()
    } else if k == 3 {
        USER_AGENT.spec_bytes()
    } else if k == 4 {
        ACCEPT.spec_bytes()
    } else if k == 5 {
        ACCEPT_ENCODING.spec_bytes()
    } else if k == 6 {
        ACCEPT_LANGUAGE.spec_bytes()
    } else if k == 7 {
        SEC_WEBSOCKET_VERSION.spec_bytes()
    } else if k == 8 {
        SEC_WEBSOCKET_KEY.spec_bytes()
    } else if k == 9 {
        UPGRADE.spec_bytes()
    } else {
        SEC_WEBSOCKET_EXTENSIONS.spec_bytes()
    }
}

/// The bytes that `u8::is_ascii_whitespace` accepts.
pub open spec fn is_ascii_ws(c: u8) -> bool {
    c == 0x20u8 || c == 0x09u8 || c == 0x0au8 || c == 0x0cu8 || c == 0x0du8
}

/// `s` without its leading ASCII whitespace.
pub open spec fn trim_start(s: Seq<u8>) -> Seq<u8>
    decreases s.len(),
{
    if s.len() > 0 && is_ascii_ws(s[0]) {
        trim_start(s.drop_first())
    } else {
        s
    }
}

/// `s` without its trailing ASCII whitespace.
pub open spec fn trim_end(s: Seq<u8>) -> Seq<u8>
    decreases s.len(),
{
    if s.len() > 0 && is_ascii_ws(s.last()) {
        trim_end(s.drop_last())
    } else {
        s
    }
}

/// `s` without ASCII whitespace at either end.
pub open spec fn trim(s: Seq<u8>) -> Seq<u8> {
    trim_end(trim_start(s))
}

/// The pieces of `b` between occurrences of `sep`; there is always at least
/// one, and a trailing `sep` ends in an empty piece.
pub open spec fn split_on(b: Seq<u8>, sep: u8) -> Seq<Seq<u8>>
    decreases b.len(),
{
    if b.len() == 0 {
        seq![Seq::<u8>::empty()]
    } else {
        let p = split_on(b.drop_last(), sep);
        if b.last() == sep {
            p.push(Seq::<u8>::empty())
        } else {
            p.update(p.len() - 1, p.last().push(b.last()))
        }
    }
}

/// The lines of a request.
pub open spec fn request_lines(b: Seq<u8>) -> Seq<Seq<u8>> {
    split_on(b, 0x0au8)
}

/// Token `k` of the request line, trimmed; empty where the line has fewer.
pub open spec fn request_line_token(b: Seq<u8>, k: int) -> Seq<u8> {
    let words = split_on(request_lines(b)[0], 0x20u8);
    if k < words.len() {
        trim(words[k])
    } else {
        Seq::<u8>::empty()
    }
}

/// `line` is a header line for `name`: the name, then a colon.
pub open spec fn header_matches(line: Seq<u8>, name: Seq<u8>) -> bool {
    line.len() > name.len() && line.subrange(0, name.len() as int) == name
        && line[name.len() as int] == 0x3au8
}

/// The trimmed value of a header line for `name`.
pub open spec fn header_value(line: Seq<u8>, name: Seq<u8>) -> Seq<u8> {
    trim(line.subrange(name.len() + 1int, line.len() as int))
}

/// The value of the last line after the first that is a header line for
/// `name`, or empty if there is none.
pub open spec fn field_of(lines: Seq<Seq<u8>>, name: Seq<u8>) -> Seq<u8>
    decreases lines.len(),
{
    if lines.len() <= 1 {
        Seq::<u8>::empty()
    } else if header_matches(lines.last(), name) {
        header_value(lines.last(), name)
    } else {
        field_of(lines.drop_last(), name)
    }
}

/// The value of header `name` in the request `b`.
pub open spec fn header_field(b: Seq<u8>, name: Seq<u8>) -> Seq<u8> {
    field_of(request_lines(b), name)
}

/// What each field of the parse of request bytes `b` holds, as UTF-8 bytes,
/// in the order of the fields of `HttpRequest`.
pub open spec fn expected_fields(b: Seq<u8>) -> Seq<Seq<u8>> {
    Seq::new(14, |i: int| if i < 3 {
        request_line_token(b, i)
    } else {
        header_field(b, header_name(i - 3))
    })
}

impl HttpRequest {
    /// The fields as UTF-8 bytes, in declaration order.
    pub open spec fn field_bytes(&self) -> Seq<Seq<u8>> {
        seq![
            encode_utf8(self.verb@),
            encode_utf8(self.path@),
            encode_utf8(self.protocol@),
            encode_utf8(self.host@),
            encode_utf8(self.connection@),
            encode_utf8(self.cache_control@),
            encode_utf8(self.user_agent@),
            encode_utf8(self.accept@),
            encode_utf8(self.accept_encoding@),
            encode_utf8(self.accept_language@),
            encode_utf8(self.sec_websocket_version@),
            encode_utf8(self.sec_websocket_key@),
            encode_utf8(self.upgrade@),
            encode_utf8(self.sec_websocket_extensions@),
        ]
    }
}

/// `a` may start a substring: at the start, or right after an ASCII byte.
pub open spec fn starts_cleanly(b: Seq<u8>, a: int) -> bool {
    a == 0 || (0 < a <= b.len() && b[a - 1] <= 0x7fu8)
}

/// `c` may end a substring: at the end, or at an ASCII byte.
pub open spec fn ends_cleanly(b: Seq<u8>, c: int) -> bool {
    c == b.len() || (0 <= c < b.len() && b[c] <= 0x7fu8)
}

proof fn lemma_after_ascii_not_continuation(b: Seq<u8>, i: int)
    requires
        valid_utf8(b),
        0 < i < b.len(),
        b[i - 1] <= 0x7fu8,
    ensures
        !is_continuation_byte(b[i]),
    decreases b.len(),
{
    let l = length_of_first_scalar(b);
    let rest = pop_first_scalar(b);
    assert(valid_first_scalar(b) && valid_utf8(rest));
    if i < l {
        assert(false);
    } else if i == l {
        assert(rest[0] == b[i]);
        assert(valid_first_scalar(rest));
    } else {
        assert(rest[i - l] == b[i]);
        assert(rest[i - l - 1] == b[i - 1]);
        lemma_after_ascii_not_continuation(rest, i - l);
    }
}

proof fn lemma_start_boundary(b: Seq<u8>, a: int)
    requires
        valid_utf8(b),
        starts_cleanly(b, a),
    ensures
        a == b.len() || !is_continuation_byte(b[a]),
{
    if 0 < a < b.len() {
        lemma_after_ascii_not_continuation(b, a);
    } else if a == 0 && b.len() > 0 {
        reveal_with_fuel(valid_utf8, 1);
        assert(valid_first_scalar(b));
    }
}

/// Copies out the bytes `a..c` of `s`, cut at clean positions.
fn substring(s: &str, a: usize, c: usize) -> (r: String)
    requires
        a <= c <= s.spec_bytes().len(),
        a == c || starts_cleanly(s.spec_bytes(), a as int),
        a == c || ends_cleanly(s.spec_bytes(), c as int),
    ensures
        encode_utf8(r@) == s.spec_bytes().subrange(a as int, c as int),
{
    let ghost b = s.spec_bytes();
    if a == c {
        let empty: String = String::new();
        proof {
            assert(empty@ =~= Seq::<char>::empty());
            assert(b.subrange(a as int, c as int) =~= Seq::<u8>::empty());
        }
        return empty;
    }
    proof {
        lemma_start_boundary(b, a as int);
        if a < b.len() {
            is_char_boundary_iff_not_is_continuation_byte(b, a as int);
        }
    }
    let (_, tail) = s.split_at(a);
    let ghost t = tail.spec_bytes();
    proof {
        assert(t =~= b.subrange(a as int, b.len() as int));
        if c < b.len() {
            assert(t[c - a] == b[c as int]);
            is_char_boundary_iff_not_is_continuation_byte(t, c - a);
        }
    }
    let (mid, _) = tail.split_at(c - a);
    proof {
        assert(mid.spec_bytes() =~= b.subrange(a as int, c as int));
    }
    mid.to_owned()
}

/// The bounds of `b[lo..hi]` with ASCII whitespace trimmed off both ends.
fn trim_range(b: &[u8], lo: usize, hi: usize) -> (r: (usize, usize))
    requires
        lo <= hi <= b@.len(),
    ensures
        lo <= r.0 <= r.1 <= hi,
        b@.subrange(r.0 as int, r.1 as int) == trim(b@.subrange(lo as int, hi as int)),
        r.0 == lo || is_ascii_ws(b@[r.0 - 1]),
        r.1 == hi || is_ascii_ws(b@[r.1 as int]),
{
    let mut a: usize = lo;
    while a < hi && (b[a] == 0x20u8 || b[a] == 0x09u8 || b[a] == 0x0au8 || b[a] == 0x0cu8
        || b[a] == 0x0du8)
        invariant
            lo <= a <= hi <= b@.len(),
            trim_start(b@.subrange(lo as int, hi as int)) == trim_start(
                b@.subrange(a as int, hi as int),
            ),
            a == lo || is_ascii_ws(b@[a - 1]),
        decreases hi - a,
    {
        assert(b@.subrange(a as int, hi as int).drop_first() =~= b@.subrange(a + 1, hi as int));
        a = a + 1;
    }
    let mut c: usize = hi;
    while c > a && (b[c - 1] == 0x20u8 || b[c - 1] == 0x09u8 || b[c - 1] == 0x0au8 || b[c - 1]
        == 0x0cu8 || b[c - 1] == 0x0du8)
        invariant
            lo <= a <= c <= hi <= b@.len(),
            trim_start(b@.subrange(lo as int, hi as int)) == b@.subrange(a as int, hi as int),
            trim_end(b@.subrange(a as int, hi as int)) == trim_end(
                b@.subrange(a as int, c as int),
            ),
            c == hi || is_ascii_ws(b@[c as int]),
        decreases c - a,
    {
        assert(b@.subrange(a as int, c as int).drop_last() =~= b@.subrange(a as int, c - 1));
        c = c - 1;
    }
    (a, c)
}

proof fn lemma_split_on_len(b: Seq<u8>, sep: u8)
    ensures
        split_on(b, sep).len() >= 1,
    decreases b.len(),
{
    if b.len() > 0 {
        lemma_split_on_len(b.drop_last(), sep);
    }
}

/// Extending the input by one byte either opens a new empty piece or
/// extends the last one.
proof fn lemma_split_on_step(b: Seq<u8>, sep: u8, i: int)
    requires
        0 <= i < b.len(),
    ensures
        split_on(b.subrange(0, i + 1), sep) == (if b[i] == sep {
            split_on(b.subrange(0, i), sep).push(Seq::<u8>::empty())
        } else {
            split_on(b.subrange(0, i), sep).update(
                split_on(b.subrange(0, i), sep).len() - 1,
                split_on(b.subrange(0, i), sep).last().push(b[i]),
            )
        }),
{
    assert(b.subrange(0, i + 1).drop_last() =~= b.subrange(0, i));
}

/// Complete pieces of a prefix stay pieces of every longer input.
proof fn lemma_split_on_prefix(b: Seq<u8>, sep: u8, i: int, j: int)
    requires
        0 <= i <= j <= b.len(),
    ensures
        split_on(b.subrange(0, j), sep).len() >= split_on(b.subrange(0, i), sep).len(),
        forall|m: int|
            0 <= m < split_on(b.subrange(0, i), sep).len() - 1 ==> #[trigger] split_on(
                b.subrange(0, j),
                sep,
            )[m] == split_on(b.subrange(0, i), sep)[m],
    decreases j - i,
{
    if j > i {
        lemma_split_on_prefix(b, sep, i, j - 1);
        lemma_split_on_step(b, sep, j - 1);
        lemma_split_on_len(b.subrange(0, j - 1), sep);
    }
}

/// Start and end of piece `k` of `b[lo..hi]` split on `sep`, or an empty
/// range where there are fewer pieces.
fn nth_piece(b: &[u8], lo: usize, hi: usize, sep: u8, k: usize) -> (r: (usize, usize))
    requires
        lo <= hi <= b@.len(),
    ensures
        lo <= r.0 <= r.1 <= hi,
        k < split_on(b@.subrange(lo as int, hi as int), sep).len() ==> b@.subrange(
            r.0 as int,
            r.1 as int,
        ) == split_on(b@.subrange(lo as int, hi as int), sep)[k as int],
        k >= split_on(b@.subrange(lo as int, hi as int), sep).len() ==> r.0 == r.1,
        r.0 == r.1 || r.0 == lo || b@[r.0 - 1] == sep,
        r.0 == r.1 || r.1 == hi || b@[r.1 as int] == sep,
{
    let ghost s = b@.subrange(lo as int, hi as int);
    let mut i: usize = lo;
    let mut count: usize = 0;
    let mut cur: usize = lo;
    proof {
        assert(s.subrange(0, 0) =~= Seq::<u8>::empty());
    }
    while i < hi
        invariant
            lo <= cur <= i <= hi <= b@.len(),
            s == b@.subrange(lo as int, hi as int),
            count <= k,
            count + 1 == split_on(s.subrange(0, i - lo), sep).len(),
            split_on(s.subrange(0, i - lo), sep).last() == b@.subrange(cur as int, i as int),
            cur == lo || b@[cur - 1] == sep,
        decreases hi - i,
    {
        proof {
            lemma_split_on_step(s, sep, i - lo);
            assert(s[i - lo] == b@[i as int]);
        }
        if b[i] == sep {
            if count == k {
                proof {
                    lemma_split_on_prefix(s, sep, i - lo + 1, s.len() as int);
                    assert(s.subrange(0, s.len() as int) =~= s);
                }
                return (cur, i);
            }
            count = count + 1;
            cur = i + 1;
            i = i + 1;
            proof {
                assert(b@.subrange(cur as int, i as int) =~= Seq::<u8>::empty());
            }
        } else {
            i = i + 1;
            proof {
                assert(b@.subrange(cur as int, i as int) =~= b@.subrange(cur as int, i - 1).push(
                    b@[i - 1],
                ));
            }
        }
    }
    proof {
        assert(s.subrange(0, hi - lo) =~= s);
    }
    if count == k {
        (cur, hi)
    } else {
        (hi, hi)
    }
}

/// The bytes of header name `k`.
fn header_name_bytes(k: usize) -> (r: &'static [u8])
    requires
        k < HEADER_COUNT,
    ensures
        r@ == header_name(k as int),
{
    if k == 0 {
        HOST.as_bytes()
    } else if k == 1 {
        CONNECTION.as_bytes()
    } else if k == 2 {
        CACHE_CONTROL.as_bytes()
    } else if k == 3 {
        USER_AGENT.as_bytes()
    } else if k == 4 {
        ACCEPT.as_bytes()
    } else if k == 5 {
        ACCEPT_ENCODING.as_bytes()
    } else if k == 6 {
        ACCEPT_LANGUAGE.as_bytes()
    } else if k == 7 {
        SEC_WEBSOCKET_VERSION.as_bytes()
    } else if k == 8 {
        SEC_WEBSOCKET_KEY.as_bytes()
    } else if k == 9 {
        UPGRADE.as_bytes()
    } else {
        SEC_WEBSOCKET_EXTENSIONS.as_bytes()
    }
}

/// Whether the line `b[ls..le]` is a header line for `name`.
fn line_has_header(b: &[u8], ls: usize, le: usize, name: &[u8]) -> (r: bool)
    requires
        ls <= le <= b@.len(),
    ensures
        r == header_matches(b@.subrange(ls as int, le as int), name@),
{
    let ghost line = b@.subrange(ls as int, le as int);
    let n: usize = name.len();
    if le - ls <= n {
        return false;
    }
    let mut j: usize = 0;
    while j < n
        invariant
            ls + n < le <= b@.len(),
            n == name@.len(),
            line == b@.subrange(ls as int, le as int),
            j <= n,
            line.subrange(0, j as int) == name@.subrange(0, j as int),
        decreases n - j,
    {
        if b[ls + j] != name[j] {
            assert(line.subrange(0, n as int)[j as int] != name@[j as int]);
            return false;
        }
        j = j + 1;
        assert(line.subrange(0, j as int) =~= name@.subrange(0, j as int));
    }
    assert(name@.subrange(0, n as int) =~= name@);
    b[ls + n] == 0x3au8
}

/// Token `k` of the line `b[lo..hi]` split at spaces, trimmed.
fn line_token(s: &str, b: &[u8], lo: usize, hi: usize, k: usize) -> (r: String)
    requires
        b@ == s.spec_bytes(),
        lo <= hi <= b@.len(),
        lo == hi || starts_cleanly(b@, lo as int),
        lo == hi || ends_cleanly(b@, hi as int),
    ensures
        encode_utf8(r@) == (if k < split_on(b@.subrange(lo as int, hi as int), 0x20u8).len() {
            trim(split_on(b@.subrange(lo as int, hi as int), 0x20u8)[k as int])
        } else {
            Seq::<u8>::empty()
        }),
{
    let (ps, pe) = nth_piece(b, lo, hi, 0x20u8, k);
    let (ts, te) = trim_range(b, ps, pe);
    proof {
        if ps == pe {
            assert(b@.subrange(ps as int, pe as int) =~= Seq::<u8>::empty());
            assert(trim_start(Seq::<u8>::empty()) == Seq::<u8>::empty());
            assert(trim_end(Seq::<u8>::empty()) == Seq::<u8>::empty());
        }
    }
    substring(s, ts, te)
}

/// Records the value of the line `b[ls..le]` in the field of each header
/// name that it matches; the other fields keep their bounds.
fn record_header_line(b: &[u8], ls: usize, le: usize, fs: &mut Vec<usize>, fe: &mut Vec<usize>)
    requires
        ls <= le <= b@.len(),
        le == b@.len() || b@[le as int] == 0x0au8,
        old(fs)@.len() == 11,
        old(fe)@.len() == 11,
        forall|m: int|
            0 <= m < 11 ==> old(fs)@[m] <= #[trigger] old(fe)@[m] <= b@.len() && (old(fs)@[m]
                == old(fe)@[m] || (starts_cleanly(b@, old(fs)@[m] as int) && ends_cleanly(
                b@,
                old(fe)@[m] as int,
            ))),
    ensures
        final(fs)@.len() == 11,
        final(fe)@.len() == 11,
        forall|m: int|
            0 <= m < 11 ==> final(fs)@[m] <= #[trigger] final(fe)@[m] <= b@.len() && (final(fs)@[m]
                == final(fe)@[m] || (starts_cleanly(b@, final(fs)@[m] as int) && ends_cleanly(
                b@,
                final(fe)@[m] as int,
            ))) && b@.subrange(final(fs)@[m] as int, final(fe)@[m] as int) == (if header_matches(
                b@.subrange(ls as int, le as int),
                header_name(m),
            ) {
                header_value(b@.subrange(ls as int, le as int), header_name(m))
            } else {
                b@.subrange(old(fs)@[m] as int, old(fe)@[m] as int)
            }),
{
    let ghost line = b@.subrange(ls as int, le as int);
    let mut k: usize = 0;
    while k < HEADER_COUNT
        invariant
            ls <= le <= b@.len(),
            le == b@.len() || b@[le as int] == 0x0au8,
            line == b@.subrange(ls as int, le as int),
            k <= 11,
            fs@.len() == 11,
            fe@.len() == 11,
            forall|m: int|
                0 <= m < 11 ==> fs@[m] <= #[trigger] fe@[m] <= b@.len() && (fs@[m] == fe@[m] || (
                starts_cleanly(b@, fs@[m] as int) && ends_cleanly(b@, fe@[m] as int))),
            forall|m: int|
                0 <= m < 11 ==> #[trigger] b@.subrange(fs@[m] as int, fe@[m] as int) == (if m < k
                    && header_matches(line, header_name(m)) {
                    header_value(line, header_name(m))
                } else {
                    b@.subrange(old(fs)@[m] as int, old(fe)@[m] as int)
                }),
        decreases 11 - k,
    {
        let name: &[u8] = header_name_bytes(k);
        let n: usize = name.len();
        if line_has_header(b, ls, le, name) {
            let (a, c) = trim_range(b, ls + n + 1, le);
            proof {
                assert(line.subrange(n + 1int, line.len() as int) =~= b@.subrange(
                    ls + n + 1,
                    le as int,
                ));
                assert(b@[ls + n] == line[n as int]);
            }
            fs.set(k, a);
            fe.set(k, c);
        }
        k = k + 1;
    }
}

/// Parses a request head. A header that occurs more than once keeps its
/// last value; a request line with fewer than three tokens leaves the
/// missing ones empty.
#[verifier::rlimit(50)]
pub fn parse_http_request(request: &str) -> (r: HttpRequest)
    ensures
        r.field_bytes() == expected_fields(request.spec_bytes()),
{
    let b: &[u8] = request.as_bytes();
    let len: usize = b.len();
    let ghost s = b@;
    proof {
        assert(s.subrange(0, len as int) =~= s);
        lemma_split_on_len(s, 0x0au8);
    }
    let (l0s, l0e) = nth_piece(b, 0, len, 0x0au8, 0);
    let verb: String = line_token(request, b, l0s, l0e, 0);
    let path: String = line_token(request, b, l0s, l0e, 1);
    let protocol: String = line_token(request, b, l0s, l0e, 2);
    proof {
        assert(s.subrange(l0s as int, l0e as int) == request_lines(s)[0]);
    }

    let mut fs: Vec<usize> = vec![0usize, 0, 0, 0, 0, 0, 0, 0, 0, 0, 0];
    let mut fe: Vec<usize> = vec![0usize, 0, 0, 0, 0, 0, 0, 0, 0, 0, 0];
    let mut i: usize = 0;
    let mut ls: usize = 0;
    let mut line_no: usize = 0;
    let ghost mut done: Seq<Seq<u8>> = Seq::empty();
    proof {
        assert(s.subrange(0, 0) =~= Seq::<u8>::empty());
        assert(split_on(s.subrange(0, 0), 0x0au8).drop_last() =~= done);
    }
    loop
        invariant
            s == b@,
            len == s.len(),
            s == request.spec_bytes(),
            encode_utf8(verb@) == request_line_token(s, 0),
            encode_utf8(path@) == request_line_token(s, 1),
            encode_utf8(protocol@) == request_line_token(s, 2),
            ls <= i <= len,
            done == split_on(s.subrange(0, i as int), 0x0au8).drop_last(),
            done.len() == line_no,
            line_no <= i,
            split_on(s.subrange(0, i as int), 0x0au8).last() == s.subrange(ls as int, i as int),
            ls == 0 || s[ls - 1] == 0x0au8,
            fs@.len() == 11,
            fe@.len() == 11,
            forall|k: int|
                0 <= k < 11 ==> fs@[k] <= #[trigger] fe@[k] <= len && (fs@[k] == fe@[k] || (
                starts_cleanly(s, fs@[k] as int) && ends_cleanly(s, fe@[k] as int))),
            forall|k: int|
                0 <= k < 11 ==> #[trigger] s.subrange(fs@[k] as int, fe@[k] as int) == field_of(
                    done,
                    header_name(k),
                ),
        decreases len - i,
    {
        let ghost cur = split_on(s.subrange(0, i as int), 0x0au8);
        proof {
            lemma_split_on_len(s.subrange(0, i as int), 0x0au8);
            assert(cur =~= done.push(s.subrange(ls as int, i as int)));
        }
        let at_end: bool = i == len;
        if at_end || b[i] == 0x0au8 {
            let ghost line = s.subrange(ls as int, i as int);
            let ghost lines = done.push(line);
            proof {
                assert(lines.drop_last() =~= done);
            }
            if line_no > 0 {
                record_header_line(b, ls, i, &mut fs, &mut fe);
            }
            proof {
                assert forall|m: int| 0 <= m < 11 implies #[trigger] s.subrange(
                    fs@[m] as int,
                    fe@[m] as int,
                ) == field_of(lines, header_name(m)) by {}
            }
            if at_end {
                proof {
                    assert(s.subrange(0, i as int) =~= s);
                    assert(lines == request_lines(s));
                }
                let host: String = substring(request, fs[0], fe[0]);
                let connection: String = substring(request, fs[1], fe[1]);
                let cache_control: String = substring(request, fs[2], fe[2]);
                let user_agent: String = substring(request, fs[3], fe[3]);
                let accept: String = substring(request, fs[4], fe[4]);
                let accept_encoding: String = substring(request, fs[5], fe[5]);
                let accept_language: String = substring(request, fs[6], fe[6]);
                let sec_websocket_version: String = substring(request, fs[7], fe[7]);
                let sec_websocket_key: String = substring(request, fs[8], fe[8]);
                let upgrade: String = substring(request, fs[9], fe[9]);
                let sec_websocket_extensions: String = substring(request, fs[10], fe[10]);
                let r = HttpRequest {
                    verb,
                    path,
                    protocol,
                    host,
                    connection,
                    cache_control,
                    user_agent,
                    accept,
                    accept_encoding,
                    accept_language,
                    sec_websocket_version,
                    sec_websocket_key,
                    upgrade,
                    sec_websocket_extensions,
                };
                proof {
                    assert(r.field_bytes() =~= expected_fields(request.spec_bytes()));
                }
                return r;
            }
            proof {
                lemma_split_on_step(s, 0x0au8, i as int);
                assert(s.subrange(i + 1, i + 1) =~= Seq::<u8>::empty());
                assert(split_on(s.subrange(0, i + 1), 0x0au8).drop_last() =~= lines);
                done = lines;
            }
            line_no = line_no + 1;
            ls = i + 1;
        } else {
            proof {
                lemma_split_on_step(s, 0x0au8, i as int);
                assert(s.subrange(ls as int, i + 1) =~= s.subrange(ls as int, i as int).push(
                    s[i as int],
                ));
                assert(split_on(s.subrange(0, i + 1), 0x0au8).drop_last() =~= done);
            }
        }
        i = i + 1;
    }
}
} // verus!
