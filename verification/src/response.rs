use vstd::prelude::*;
use vstd::string::StringSliceAdditionalSpecFns;

verus! {

/// What percent-decoding a text yields. The remote agent url-encodes what it
/// posts back; this names the decoded byte string, a function of the text
/// alone.
pub uninterp spec fn url_decoded(s: Seq<char>) -> Seq<u8>;

/// Relies on url_escape::decode: percent-decodes the text and re-reads the
/// bytes as UTF-8, lossily. The result depends on the input text alone; an
/// empty text decodes to an empty text.
#[verifier::external_body]
fn url_decode(raw: &str) -> (r: Vec<u8>)
    ensures
        r@ == url_decoded(raw@),
        raw@.len() == 0 ==> r@.len() == 0,
{
    url_escape::decode(raw).into_owned().into_bytes()
}

/// `h` with every non-overlapping occurrence of `n`, leftmost first, replaced
/// by `r`; an empty needle replaces nothing.
pub open spec fn replace_seq(h: Seq<u8>, n: Seq<u8>, r: Seq<u8>) -> Seq<u8>
    decreases h.len(),
{
    if n.len() == 0 || h.len() < n.len() {
        h
    } else if h.take(n.len() as int) == n {
        r + replace_seq(h.skip(n.len() as int), n, r)
    } else {
        seq![h[0]] + replace_seq(h.skip(1), n, r)
    }
}

/// Whether `n` occurs in `h` at offset `i`.
pub(crate) fn match_at(h: &[u8], i: usize, n: &[u8]) -> (r: bool)
    requires
        i <= h@.len(),
    ensures
        r == (i + n@.len() <= h@.len() && h@.subrange(i as int, i + n@.len()) == n@),
{
    if n.len() > h.len() - i {
        return false;
    }
    let hlen = h.len();
    let mut j: usize = 0;
    while j < n.len()
        invariant
            i + n@.len() <= h@.len(),
            h@.len() == hlen,
            j <= n@.len(),
            forall|t: int| 0 <= t < j ==> h@[i + t] == n@[t],
        decreases n@.len() - j,
    {
        if h[i + j] != n[j] {
            proof {
                assert(h@.subrange(i as int, i + n@.len())[j as int] == h@[i + j]);
            }
            return false;
        }
        j += 1;
    }
    proof {
        assert(h@.subrange(i as int, i + n@.len()) =~= n@);
    }
    true
}

/// Append the bytes of `s` to `out`.
fn append_bytes(out: &mut Vec<u8>, s: &[u8])
    ensures
        final(out)@ == old(out)@ + s@,
{
    let mut i: usize = 0;
    while i < s.len()
        invariant
            i <= s@.len(),
            out@ == old(out)@ + s@.take(i as int),
        decreases s@.len() - i,
    {
        out.push(s[i]);
        proof {
            assert(out@ =~= old(out)@ + s@.take(i + 1));
        }
        i += 1;
    }
    proof {
        assert(out@ =~= old(out)@ + s@);
    }
}

/// `h` with every occurrence of `n` replaced by `r`, leftmost first, found
/// occurrences never overlapping.
fn replace_all(h: &[u8], n: &[u8], r: &[u8]) -> (out: Vec<u8>)
    ensures
        out@ == replace_seq(h@, n@, r@),
{
    let mut out: Vec<u8> = Vec::new();
    if n.len() == 0 {
        append_bytes(&mut out, h);
        return out;
    }
    let mut i: usize = 0;
    proof {
        assert(h@.skip(0) =~= h@);
        assert(out@ + replace_seq(h@, n@, r@) =~= replace_seq(h@, n@, r@));
    }
    while i < h.len()
        invariant
            i <= h@.len(),
            n@.len() > 0,
            replace_seq(h@, n@, r@) == out@ + replace_seq(h@.skip(i as int), n@, r@),
        decreases h@.len() - i,
    {
        if match_at(h, i, n) {
            append_bytes(&mut out, r);
            proof {
                assert(h@.skip(i as int).take(n@.len() as int) =~= h@.subrange(
                    i as int,
                    i + n@.len(),
                ));
                assert(h@.skip(i as int).skip(n@.len() as int) =~= h@.skip(i + n@.len()));
                assert(replace_seq(h@.skip(i as int), n@, r@) == r@ + replace_seq(
                    h@.skip(i + n@.len()),
                    n@,
                    r@,
                ));
            }
            i += n.len();
        } else {
            proof {
                let rem = h@.skip(i as int);
                if rem.len() >= n@.len() {
                    assert(rem.take(n@.len() as int) =~= h@.subrange(i as int, i + n@.len()));
                    assert(rem.take(n@.len() as int) != n@);
                    assert(rem.skip(1) =~= h@.skip(i + 1));
                    assert(replace_seq(rem, n@, r@) == seq![h@[i as int]] + replace_seq(
                        h@.skip(i + 1),
                        n@,
                        r@,
                    ));
                } else {
                    assert(replace_seq(rem, n@, r@) == rem);
                    assert(rem.skip(1) =~= h@.skip(i + 1));
                    assert(replace_seq(h@.skip(i + 1), n@, r@) == h@.skip(i + 1));
                    assert(replace_seq(rem, n@, r@) =~= seq![h@[i as int]] + replace_seq(
                        h@.skip(i + 1),
                        n@,
                        r@,
                    ));
                }
            }
            out.push(h[i]);
            i += 1;
        }
        proof {
            assert(replace_seq(h@, n@, r@) =~= out@ + replace_seq(h@.skip(i as int), n@, r@));
        }
    }
    proof {
        assert(h@.skip(i as int) =~= Seq::<u8>::empty());
        assert(replace_seq(h@.skip(i as int), n@, r@) == h@.skip(i as int));
        assert(out@ =~= replace_seq(h@, n@, r@));
    }
    out
}

/// The remote agent's quirks undone, after percent-decoding: form-encoded
/// plus signs become spaces, embedded carriage-return/newline pairs become
/// the two-character escape `\n` so they can sit inside a string literal, and
/// the agent's capitalized boolean spellings become the canonical two.
pub open spec fn spec_normalized(s: Seq<u8>) -> Seq<u8> {
    replace_seq(
        replace_seq(
            replace_seq(
                replace_seq(s, "+".spec_bytes(), " ".spec_bytes()),
                "\r\n".spec_bytes(),
                "\\n".spec_bytes(),
            ),
            "False".spec_bytes(),
            "false".spec_bytes(),
        ),
        "True".spec_bytes(),
        "true".spec_bytes(),
    )
}

/// Undo the remote agent's encoding quirks on percent-decoded bytes.
pub fn normalized(s: &Vec<u8>) -> (r: Vec<u8>)
    ensures
        r@ == spec_normalized(s@),
{
    let a = replace_all(s.as_slice(), "+".as_bytes(), " ".as_bytes());
    let b = replace_all(a.as_slice(), "\r\n".as_bytes(), "\\n".as_bytes());
    let c = replace_all(b.as_slice(), "False".as_bytes(), "false".as_bytes());
    replace_all(c.as_slice(), "True".as_bytes(), "true".as_bytes())
}

/// ASCII whitespace as it may surround a posted payload.
pub open spec fn is_ws_byte(b: u8) -> bool {
    b == 32 || b == 9 || b == 13 || b == 10
}

/// `s` without leading whitespace.
pub open spec fn trim_left(s: Seq<u8>) -> Seq<u8>
    decreases s.len(),
{
    if s.len() > 0 && is_ws_byte(s[0]) {
        trim_left(s.drop_first())
    } else {
        s
    }
}

/// `s` without trailing whitespace.
pub open spec fn trim_right(s: Seq<u8>) -> Seq<u8>
    decreases s.len(),
{
    if s.len() > 0 && is_ws_byte(s.last()) {
        trim_right(s.drop_last())
    } else {
        s
    }
}

/// `s` without surrounding whitespace.
pub open spec fn spec_trimmed(s: Seq<u8>) -> Seq<u8> {
    trim_right(trim_left(s))
}

/// Copy of `s` without surrounding whitespace.
pub(crate) fn trimmed(s: &[u8]) -> (r: Vec<u8>)
    ensures
        r@ == spec_trimmed(s@),
{
    let mut a: usize = 0;
    proof {
        assert(s@.skip(0) =~= s@);
    }
    while a < s.len() && (s[a] == 32 || s[a] == 9 || s[a] == 13 || s[a] == 10)
        invariant
            a <= s@.len(),
            trim_left(s@) == trim_left(s@.skip(a as int)),
        decreases s@.len() - a,
    {
        proof {
            assert(s@.skip(a as int).drop_first() =~= s@.skip(a + 1));
        }
        a += 1;
    }
    proof {
        assert(trim_left(s@) == s@.skip(a as int));
        assert(s@.skip(a as int) =~= s@.subrange(a as int, s@.len() as int));
    }
    let mut b: usize = s.len();
    while b > a && (s[b - 1] == 32 || s[b - 1] == 9 || s[b - 1] == 13 || s[b - 1] == 10)
        invariant
            a <= b <= s@.len(),
            trim_right(s@.skip(a as int)) == trim_right(s@.subrange(a as int, b as int)),
        decreases b,
    {
        proof {
            assert(s@.subrange(a as int, b as int).drop_last() =~= s@.subrange(a as int, b - 1));
        }
        b -= 1;
    }
    proof {
        assert(spec_trimmed(s@) == s@.subrange(a as int, b as int));
    }
    let mut out: Vec<u8> = Vec::new();
    let mut i: usize = a;
    while i < b
        invariant
            a <= i <= b <= s@.len(),
            out@ == s@.subrange(a as int, i as int),
        decreases b - i,
    {
        out.push(s[i]);
        proof {
            assert(out@ =~= s@.subrange(a as int, i + 1));
        }
        i += 1;
    }
    out
}

/// The body of a JSON string literal read back to raw bytes: the escapes
/// `\n`, `\r`, `\t`, `\"`, `\\` and `\/` stand for their bytes, any other
/// byte stands for itself, and a stray backslash, unknown escape or bare
/// quote makes the body malformed.
pub open spec fn spec_unescaped(s: Seq<u8>) -> Option<Seq<u8>>
    decreases s.len(),
{
    if s.len() == 0 {
        Some(Seq::<u8>::empty())
    } else if s[0] == 92 {
        if s.len() < 2 {
            None
        } else {
            let m = spec_escape_code(s[1]);
            if m is Some {
                match spec_unescaped(s.skip(2)) {
                    Some(rest) => Some(seq![m->Some_0] + rest),
                    None => None,
                }
            } else {
                None
            }
        }
    } else if s[0] == 34 {
        None
    } else {
        match spec_unescaped(s.skip(1)) {
            Some(rest) => Some(seq![s[0]] + rest),
            None => None,
        }
    }
}

/// The byte an escape code after a backslash stands for.
pub open spec fn spec_escape_code(c: u8) -> Option<u8> {
    if c == 110 {  // n
        Some(10u8)
    } else if c == 114 {  // r
        Some(13u8)
    } else if c == 116 {  // t
        Some(9u8)
    } else if c == 34 || c == 92 || c == 47 {  // " \ /
        Some(c)
    } else {
        None
    }
}

/// Read a JSON string literal body back to raw bytes.
fn unescaped(s: &[u8]) -> (r: Option<Vec<u8>>)
    ensures
        match r {
            Some(v) => spec_unescaped(s@) == Some(v@),
            None => spec_unescaped(s@) is None,
        },
{
    let mut out: Vec<u8> = Vec::new();
    let mut i: usize = 0;
    proof {
        assert(s@.skip(0) =~= s@);
    }
    while i < s.len()
        invariant
            i <= s@.len(),
            spec_unescaped(s@.skip(i as int)) matches Some(rest) ==> spec_unescaped(s@) == Some(
                out@ + rest,
            ),
            spec_unescaped(s@.skip(i as int)) is None ==> spec_unescaped(s@) is None,
        decreases s@.len() - i,
    {
        let ghost rem = s@.skip(i as int);
        let b = s[i];
        proof {
            assert(rem[0] == s@[i as int]);
        }
        if b == 92 {
            if i + 1 >= s.len() {
                proof {
                    assert(rem.len() < 2);
                    assert(spec_unescaped(rem) is None);
                }
                return None;
            }
            let c = s[i + 1];
            proof {
                assert(rem[1] == s@[i + 1]);
                assert(rem.skip(2) =~= s@.skip(i + 2));
            }
            let decoded: u8 = if c == 110 {
                10
            } else if c == 114 {
                13
            } else if c == 116 {
                9
            } else if c == 34 || c == 92 || c == 47 {
                c
            } else {
                proof {
                    assert(spec_escape_code(c) is None);
                    assert(spec_unescaped(rem) is None);
                }
                return None;
            };
            out.push(decoded);
            proof {
                assert(spec_escape_code(c) == Some(decoded));
                let tail_opt = spec_unescaped(s@.skip(i + 2));
                if tail_opt is Some {
                    let tail = tail_opt->Some_0;
                    assert(spec_unescaped(rem) == Some(seq![decoded] + tail));
                    assert(out@ + tail =~= out@.drop_last() + (seq![decoded] + tail));
                }
            }
            i += 2;
        } else if b == 34 {
            proof {
                assert(spec_unescaped(rem) is None);
            }
            return None;
        } else {
            out.push(b);
            proof {
                assert(rem.skip(1) =~= s@.skip(i + 1));
                let tail_opt = spec_unescaped(s@.skip(i + 1));
                if tail_opt is Some {
                    let tail = tail_opt->Some_0;
                    assert(spec_unescaped(rem) == Some(seq![b] + tail));
                    assert(out@ + tail =~= out@.drop_last() + (seq![b] + tail));
                }
            }
            i += 1;
        }
    }
    proof {
        assert(s@.skip(i as int) =~= Seq::<u8>::empty());
        assert(spec_unescaped(s@.skip(i as int)) == Some(Seq::<u8>::empty()));
        assert(out@ + Seq::<u8>::empty() =~= out@);
    }
    Some(out)
}

/// A success payload of the remote agent: every action returns nothing, a
/// boolean, or a text.
#[derive(Debug, PartialEq)]
pub enum RemoteValue {
    Unit,
    Boolean(bool),
    Text(Vec<u8>),
}

/// The mathematical content of a success payload.
pub enum ValueView {
    Unit,
    Boolean(bool),
    Text(Seq<u8>),
}

impl View for RemoteValue {
    type V = ValueView;

    open spec fn view(&self) -> ValueView {
        match self {
            RemoteValue::Unit => ValueView::Unit,
            RemoteValue::Boolean(b) => ValueView::Boolean(*b),
            RemoteValue::Text(t) => ValueView::Text(t@),
        }
    }
}

/// A parsed reply: the remote agent either succeeded with a payload or
/// reported an error message.
pub enum ReplyView {
    Success(ValueView),
    Failure(Seq<u8>),
}

/// The remote agent reported a structured failure for a command; the message
/// is the agent's own.
#[derive(Debug, PartialEq)]
pub struct ServerError(pub Vec<u8>);

/// Why a command's result could not be returned: the agent reported an
/// error, or posted a payload this protocol does not know.
#[derive(Debug, PartialEq)]
pub enum ClientError {
    Remote(ServerError),
    Malformed,
}

/// One tagged value: the literals `true`, `false` and `null`, or a string
/// literal.
pub open spec fn spec_parse_value(v: Seq<u8>) -> Option<ValueView> {
    if v == "true".spec_bytes() {
        Some(ValueView::Boolean(true))
    } else if v == "false".spec_bytes() {
        Some(ValueView::Boolean(false))
    } else if v == "null".spec_bytes() {
        Some(ValueView::Unit)
    } else if v.len() >= 2 && v[0] == 34 && v.last() == 34 {
        match spec_unescaped(v.subrange(1, v.len() - 1)) {
            Some(t) => Some(ValueView::Text(t)),
            None => None,
        }
    } else {
        None
    }
}

/// A whole posted reply, surrounding whitespace ignored: an object tagged
/// `Ok` carrying a value, or one tagged `Err` carrying an error message
/// string.
pub open spec fn spec_parse_reply(s: Seq<u8>) -> Option<ReplyView> {
    let t = spec_trimmed(s);
    let okp = "{\"Ok\":".spec_bytes();
    let errp = "{\"Err\":".spec_bytes();
    if t.len() > okp.len() && t.take(okp.len() as int) == okp && t.last() == 125 {
        match spec_parse_value(t.subrange(okp.len() as int, t.len() - 1)) {
            Some(v) => Some(ReplyView::Success(v)),
            None => None,
        }
    } else if t.len() > errp.len() && t.take(errp.len() as int) == errp && t.last() == 125 {
        match spec_parse_value(t.subrange(errp.len() as int, t.len() - 1)) {
            Some(ValueView::Text(m)) => Some(ReplyView::Failure(m)),
            _ => None,
        }
    } else {
        None
    }
}

/// Parse one tagged value.
fn parse_value(v: &[u8]) -> (r: Option<RemoteValue>)
    ensures
        match r {
            Some(val) => spec_parse_value(v@) == Some(val@),
            None => spec_parse_value(v@) is None,
        },
{
    let tb: &[u8] = "true".as_bytes();
    let fb: &[u8] = "false".as_bytes();
    let nb: &[u8] = "null".as_bytes();
    proof {
        assert(v@.subrange(0, v@.len() as int) =~= v@);
    }
    if v.len() == tb.len() && match_at(v, 0, tb) {
        return Some(RemoteValue::Boolean(true));
    }
    if v.len() == fb.len() && match_at(v, 0, fb) {
        return Some(RemoteValue::Boolean(false));
    }
    if v.len() == nb.len() && match_at(v, 0, nb) {
        return Some(RemoteValue::Unit);
    }
    if v.len() >= 2 && v[0] == 34 && v[v.len() - 1] == 34 {
        let mut body: Vec<u8> = Vec::new();
        let mut i: usize = 1;
        while i < v.len() - 1
            invariant
                v@.len() >= 2,
                1 <= i <= v@.len() - 1,
                body@ == v@.subrange(1, i as int),
            decreases v@.len() - i,
        {
            body.push(v[i]);
            proof {
                assert(body@ =~= v@.subrange(1, i + 1));
            }
            i += 1;
        }
        match unescaped(body.as_slice()) {
            Some(t) => Some(RemoteValue::Text(t)),
            None => None,
        }
    } else {
        None
    }
}

/// Parse a whole posted reply.
pub fn parse_reply(s: &[u8]) -> (r: Result<RemoteValue, ClientError>)
    ensures
        match spec_parse_reply(s@) {
            Some(ReplyView::Success(v)) => r matches Ok(val) && val@ == v,
            Some(ReplyView::Failure(m)) => r matches Err(e) && e matches ClientError::Remote(se)
                && se.0@ == m,
            None => r matches Err(e) && e is Malformed,
        },
{
    let t = trimmed(s);
    let okp: &[u8] = "{\"Ok\":".as_bytes();
    let errp: &[u8] = "{\"Err\":".as_bytes();
    let ok_head = match_at(t.as_slice(), 0, okp);
    if ok_head && t.len() > okp.len() && t[t.len() - 1] == 125 {
        let mut body: Vec<u8> = Vec::new();
        let mut i: usize = okp.len();
        while i < t.len() - 1
            invariant
                okp@.len() <= i <= t@.len() - 1,
                body@ == t@.subrange(okp@.len() as int, i as int),
            decreases t@.len() - i,
        {
            body.push(t[i]);
            proof {
                assert(body@ =~= t@.subrange(okp@.len() as int, i + 1));
            }
            i += 1;
        }
        match parse_value(body.as_slice()) {
            Some(val) => Ok(val),
            None => Err(ClientError::Malformed),
        }
    } else {
        let err_head = match_at(t.as_slice(), 0, errp);
        if err_head && t.len() > errp.len() && t[t.len() - 1] == 125 {
            let mut body: Vec<u8> = Vec::new();
            let mut i: usize = errp.len();
            while i < t.len() - 1
                invariant
                    errp@.len() <= i <= t@.len() - 1,
                    body@ == t@.subrange(errp@.len() as int, i as int),
                decreases t@.len() - i,
            {
                body.push(t[i]);
                proof {
                    assert(body@ =~= t@.subrange(errp@.len() as int, i + 1));
                }
                i += 1;
            }
            match parse_value(body.as_slice()) {
                Some(RemoteValue::Text(m)) => Err(ClientError::Remote(ServerError(m))),
                _ => Err(ClientError::Malformed),
            }
        } else {
            Err(ClientError::Malformed)
        }
    }
}

/// Decode the raw text the remote agent posted for a command: percent-decode
/// it, undo the agent's quirks, and parse the tagged result; a reported
/// remote failure comes back as an error carrying the agent's message.
pub fn decode_response(raw: &str) -> (r: Result<RemoteValue, ClientError>)
    ensures
        match spec_parse_reply(spec_normalized(url_decoded(raw@))) {
            Some(ReplyView::Success(v)) => r matches Ok(val) && val@ == v,
            Some(ReplyView::Failure(m)) => r matches Err(e) && e matches ClientError::Remote(se)
                && se.0@ == m,
            None => r matches Err(e) && e is Malformed,
        },
{
    let decoded = url_decode(raw);
    let norm = normalized(&decoded);
    parse_reply(norm.as_slice())
}

impl RemoteValue {
    /// The payload as a boolean, when it is one.
    pub fn as_boolean(&self) -> (r: Option<bool>)
        ensures
            r == (match self@ {
                ValueView::Boolean(b) => Some(b),
                _ => Option::<bool>::None,
            }),
    {
        match self {
            RemoteValue::Boolean(b) => Some(*b),
            _ => None,
        }
    }

    /// The payload as a text, when it is one.
    pub fn into_text(self) -> (r: Option<Vec<u8>>)
        ensures
            match self@ {
                ValueView::Text(t) => r matches Some(v) && v@ == t,
                _ => r is None,
            },
    {
        match self {
            RemoteValue::Text(t) => Some(t),
            _ => None,
        }
    }

    /// Whether the payload is the unit result.
    pub fn is_unit(&self) -> (r: bool)
        ensures
            r == (self@ is Unit),
    {
        match self {
            RemoteValue::Unit => true,
            _ => false,
        }
    }
}

} // verus!
