use vstd::prelude::*;

verus! {

pub const LF: u8 = 10;

pub const CR: u8 = 13;

pub const SP: u8 = 32;

pub const COLON: u8 = 58;

pub const SLASH: u8 = 47;

/// Room for header fields given to the field parser.
pub const MAX_FIELDS: usize = 10;

/// Port used when the request target names none.
pub const DEFAULT_PORT: u16 = 80;

/// Index of the first `x` in `s`, or `s.len()` when there is none.
pub open spec fn index_of(s: Seq<u8>, x: u8) -> int {
    if exists|i: int| is_first(s, x, i) {
        choose|i: int| is_first(s, x, i)
    } else {
        s.len() as int
    }
}

pub open spec fn is_first(s: Seq<u8>, x: u8, i: int) -> bool {
    0 <= i < s.len() && s[i] == x && forall|j: int| 0 <= j < i ==> s[j] != x
}

proof fn lemma_index_of(s: Seq<u8>, x: u8, i: int)
    requires
        0 <= i <= s.len(),
        forall|j: int| 0 <= j < i ==> s[j] != x,
        i < s.len() ==> s[i] == x,
    ensures
        index_of(s, x) == i,
{
    if i < s.len() {
        assert(is_first(s, x, i));
        let k = choose|k: int| is_first(s, x, k);
        assert(is_first(s, x, k));
        if k < i {
            assert(s[k] != x);
        } else if k > i {
            assert(s[i] != x);
        }
    } else {
        assert forall|k: int| !is_first(s, x, k) by {
            if 0 <= k < s.len() {
                assert(s[k] != x);
            }
        }
    }
}

/// Finds the first `x` in `s`: its index, or `s.len()`.
pub fn find_byte(s: &[u8], x: u8) -> (r: usize)
    ensures
        r as int == index_of(s@, x),
        r <= s@.len(),
{
    let mut i: usize = 0;
    while i < s.len()
        invariant
            i <= s@.len(),
            forall|j: int| 0 <= j < i ==> s@[j] != x,
        decreases s@.len() - i,
    {
        if s[i] == x {
            proof {
                lemma_index_of(s@, x, i as int);
            }
            return i;
        }
        i = i + 1;
    }
    proof {
        lemma_index_of(s@, x, i as int);
    }
    i
}

/// Whether two byte strings are equal.
pub fn same_bytes(a: &[u8], b: &[u8]) -> (r: bool)
    ensures
        r == (a@ == b@),
{
    if a.len() != b.len() {
        return false;
    }
    let mut i: usize = 0;
    while i < a.len()
        invariant
            a@.len() == b@.len(),
            i <= a@.len(),
            forall|j: int| 0 <= j < i ==> a@[j] == b@[j],
        decreases a@.len() - i,
    {
        if a[i] != b[i] {
            return false;
        }
        i = i + 1;
    }
    assert(a@ =~= b@);
    true
}

/// Copies `s[from..to]`.
pub fn copy_range(s: &[u8], from: usize, to: usize) -> (r: Vec<u8>)
    requires
        from <= to <= s@.len(),
    ensures
        r@ == s@.subrange(from as int, to as int),
{
    let mut r: Vec<u8> = Vec::new();
    let mut i: usize = from;
    while i < to
        invariant
            from <= i <= to,
            to <= s@.len(),
            r@ == s@.subrange(from as int, i as int),
        decreases to - i,
    {
        r.push(s[i]);
        i = i + 1;
        assert(r@ =~= s@.subrange(from as int, i as int));
    }
    r
}

pub open spec fn http_scheme() -> Seq<u8> {
    seq![104u8, 116u8, 116u8, 112u8, 58u8, 47u8, 47u8]
}

pub open spec fn https_scheme() -> Seq<u8> {
    seq![104u8, 116u8, 116u8, 112u8, 115u8, 58u8, 47u8, 47u8]
}

pub open spec fn tls_port_suffix() -> Seq<u8> {
    seq![58u8, 52u8, 52u8, 51u8]
}

pub open spec fn starts_with(s: Seq<u8>, p: Seq<u8>) -> bool {
    p.len() <= s.len() && s.subrange(0, p.len() as int) == p
}

pub open spec fn ends_with(s: Seq<u8>, p: Seq<u8>) -> bool {
    p.len() <= s.len() && s.subrange(s.len() - p.len(), s.len() as int) == p
}

/// Whether `s` holds `p` at offset `at`.
fn holds_at(s: &[u8], at: usize, p: &Vec<u8>) -> (r: bool)
    requires
        at <= s@.len(),
    ensures
        r == (at + p@.len() <= s@.len() && s@.subrange(at as int, at + p@.len()) == p@),
{
    let n = s.len();
    if p.len() > n - at {
        return false;
    }
    let mut i: usize = 0;
    while i < p.len()
        invariant
            n == s@.len(),
            at + p@.len() <= s@.len(),
            at <= s@.len(),
            i <= p@.len(),
            forall|j: int| 0 <= j < i ==> s@[at + j] == p@[j],
        decreases p@.len() - i,
    {
        if s[at + i] != p[i] {
            assert(s@.subrange(at as int, at + p@.len())[i as int] != p@[i as int]);
            return false;
        }
        i = i + 1;
    }
    assert(s@.subrange(at as int, at + p@.len()) =~= p@);
    true
}

/// The request line: the bytes before the first LF, less a trailing CR.
pub open spec fn request_line(buf: Seq<u8>) -> Seq<u8> {
    let nl = index_of(buf, LF);
    if nl > 0 && buf[nl - 1] == CR {
        buf.subrange(0, nl - 1)
    } else {
        buf.subrange(0, nl)
    }
}

/// The header block: what follows the first LF.
pub open spec fn field_block(buf: Seq<u8>) -> Seq<u8> {
    buf.subrange(index_of(buf, LF) + 1, buf.len() as int)
}

/// The request target: the second space-separated token of the request line.
pub open spec fn request_target(line: Seq<u8>) -> Option<Seq<u8>> {
    let s = index_of(line, SP);
    if s < line.len() {
        let rest = line.subrange(s + 1, line.len() as int);
        Some(rest.subrange(0, index_of(rest, SP)))
    } else {
        None
    }
}

/// The target less an `http://` or `https://` prefix.
pub open spec fn strip_scheme(t: Seq<u8>) -> Seq<u8> {
    if starts_with(t, http_scheme()) {
        t.subrange(7, t.len() as int)
    } else if starts_with(t, https_scheme()) {
        t.subrange(8, t.len() as int)
    } else {
        t
    }
}

/// `host[:port]`: the scheme-less target up to its first `/`.
pub open spec fn authority(t: Seq<u8>) -> Seq<u8> {
    let s = strip_scheme(t);
    s.subrange(0, index_of(s, SLASH))
}

pub open spec fn target_host(t: Seq<u8>) -> Seq<u8> {
    let a = authority(t);
    a.subrange(0, index_of(a, COLON))
}

pub open spec fn is_digit(b: u8) -> bool {
    48 <= b <= 57
}

/// The decimal value of a string of digits.
pub open spec fn digits_value(s: Seq<u8>) -> int
    decreases s.len(),
{
    if s.len() == 0 {
        0
    } else {
        digits_value(s.drop_last()) * 10 + (s.last() - 48)
    }
}

/// The port the target names, 80 when it names none; `None` when what
/// follows the colon is not a decimal number below 65536.
pub open spec fn target_port(t: Seq<u8>) -> Option<u16> {
    let a = authority(t);
    let c = index_of(a, COLON);
    if c == a.len() {
        Some(DEFAULT_PORT)
    } else {
        let p = a.subrange(c + 1, a.len() as int);
        if p.len() > 0 && (forall|i: int| 0 <= i < p.len() ==> is_digit(#[trigger] p[i]))
            && digits_value(p) <= u16::MAX {
            Some(digits_value(p) as u16)
        } else {
            None
        }
    }
}

/// A target asks for a tunnel when it ends in `:443`.
pub open spec fn target_is_tunnel(t: Seq<u8>) -> bool {
    ends_with(t, tls_port_suffix())
}

/// The value of the last field named exactly `Host`.
pub open spec fn host_field(fields: Seq<(Seq<u8>, Seq<u8>)>) -> Option<Seq<u8>>
    decreases fields.len(),
{
    if fields.len() == 0 {
        None
    } else if fields.last().0 == host_name() {
        Some(fields.last().1)
    } else {
        host_field(fields.drop_last())
    }
}

pub open spec fn host_name() -> Seq<u8> {
    seq![72u8, 111u8, 115u8, 116u8]
}


/// What `header_fields_of` yields: `None` for a malformed block, `Some(None)`
/// for one not yet complete, and `Some(Some(fields))` with each field's name and value.
pub type FieldsView = Option<Option<Seq<(Seq<u8>, Seq<u8>)>>>;

/// What `httparse::parse_headers` makes of a header block given room for `max` fields.
pub uninterp spec fn header_fields_of(block: Seq<u8>, max: nat) -> FieldsView;

/// A header block as the field parser left it.
pub enum FieldScan {
    Complete(Vec<(Vec<u8>, Vec<u8>)>),
    Partial,
    Invalid,
}

pub open spec fn fields_view(f: Seq<(Vec<u8>, Vec<u8>)>) -> Seq<(Seq<u8>, Seq<u8>)> {
    f.map_values(|p: (Vec<u8>, Vec<u8>)| (p.0@, p.1@))
}

impl View for FieldScan {
    type V = FieldsView;

    open spec fn view(&self) -> FieldsView {
        match self {
            FieldScan::Complete(f) => Some(Some(fields_view(f@))),
            FieldScan::Partial => Some(None),
            FieldScan::Invalid => None,
        }
    }
}

/// Relies on httparse::parse_headers, which reads `Name: Value` lines up to the
/// empty line into at most `max` slots, and tells a complete block from a
/// partial or a malformed one.
#[verifier::external_body]
fn parse_fields(block: &[u8], max: usize) -> (r: FieldScan)
    ensures
        r@ == header_fields_of(block@, max as nat),
{
    let mut slots = vec![httparse::EMPTY_HEADER; max];
    match httparse::parse_headers(block, &mut slots) {
        Ok(httparse::Status::Complete((_, fields))) => FieldScan::Complete(
            fields.iter().map(|h| (h.name.as_bytes().to_vec(), h.value.to_vec())).collect(),
        ),
        Ok(httparse::Status::Partial) => FieldScan::Partial,
        Err(_) => FieldScan::Invalid,
    }
}

/// The value of the last `Host` field.
pub fn last_host_field(fields: &Vec<(Vec<u8>, Vec<u8>)>) -> (r: Option<Vec<u8>>)
    ensures
        r matches Some(v) ==> host_field(fields_view(fields@)) == Some(v@),
        r is None ==> host_field(fields_view(fields@)) is None,
{
    let ghost all = fields_view(fields@);
    let name = vec![72u8, 111u8, 115u8, 116u8];
    let mut i: usize = fields.len();
    assert(all.subrange(0, i as int) =~= all);
    while i > 0
        invariant
            i <= fields@.len(),
            all == fields_view(fields@),
            name@ == host_name(),
            host_field(all) == host_field(all.subrange(0, i as int)),
        decreases i,
    {
        let f = &fields[i - 1];
        let ghost part = all.subrange(0, i as int);
        assert(part.last() == (f.0@, f.1@));
        let same = f.0.len() == name.len() && holds_at(f.0.as_slice(), 0, &name);
        proof {
            if f.0@.len() == name@.len() {
                assert(f.0@.subrange(0, name@.len() as int) =~= f.0@);
            }
        }
        if same {
            let v = copy_range(f.1.as_slice(), 0, f.1.len());
            assert(v@ =~= f.1@);
            return Some(v);
        }
        assert(f.0@ != name@);
        assert(part.drop_last() =~= all.subrange(0, i - 1));
        i = i - 1;
    }
    None
}

/// The bytes after the scheme prefix of `t`.
fn scheme_len(t: &[u8]) -> (r: usize)
    ensures
        r <= t@.len(),
        t@.subrange(r as int, t@.len() as int) == strip_scheme(t@),
{
    let http = vec![104u8, 116u8, 116u8, 112u8, 58u8, 47u8, 47u8];
    let https = vec![104u8, 116u8, 116u8, 112u8, 115u8, 58u8, 47u8, 47u8];
    if holds_at(t, 0, &http) {
        7
    } else if holds_at(t, 0, &https) {
        8
    } else {
        assert(t@.subrange(0, t@.len() as int) =~= t@);
        0
    }
}

/// The authority of a target: `host[:port]`.
pub fn authority_of(t: &[u8]) -> (r: Vec<u8>)
    ensures
        r@ == authority(t@),
{
    let k = scheme_len(t);
    let s = copy_range(t, k, t.len());
    let e = find_byte(s.as_slice(), SLASH);
    copy_range(s.as_slice(), 0, e)
}

/// The host that a target names.
pub fn host_of(t: &[u8]) -> (r: Vec<u8>)
    ensures
        r@ == target_host(t@),
{
    let a = authority_of(t);
    let c = find_byte(a.as_slice(), COLON);
    copy_range(a.as_slice(), 0, c)
}

/// Reads a decimal port; `None` unless it is a non-empty string of digits below 65536.
fn parse_port(p: &[u8]) -> (r: Option<u16>)
    ensures
        r matches Some(v) ==> p@.len() > 0 && (forall|i: int| 0 <= i < p@.len() ==> is_digit(#[trigger] p@[i]))
            && digits_value(p@) == v,
        r is None ==> !(p@.len() > 0 && (forall|i: int| 0 <= i < p@.len() ==> is_digit(#[trigger] p@[i]))
            && digits_value(p@) <= u16::MAX),
{
    if p.len() == 0 {
        return None;
    }
    let mut v: u32 = 0;
    let mut i: usize = 0;
    while i < p.len()
        invariant
            i <= p@.len(),
            v <= u16::MAX,
            v == digits_value(p@.subrange(0, i as int)),
            forall|j: int| 0 <= j < i ==> is_digit(#[trigger] p@[j]),
        decreases p@.len() - i,
    {
        let b = p[i];
        assert(p@.subrange(0, i + 1).drop_last() =~= p@.subrange(0, i as int));
        if b < 48 || b > 57 {
            return None;
        }
        let n = v * 10 + (b - 48) as u32;
        if n > 65535 {
            proof {
                if forall|j: int| 0 <= j < p@.len() ==> is_digit(#[trigger] p@[j]) {
                    lemma_digits_grow(p@, i as int + 1);
                }
            }
            return None;
        }
        v = n;
        i = i + 1;
    }
    assert(p@.subrange(0, i as int) =~= p@);
    Some(v as u16)
}

/// A longer string of digits is worth no less than its prefix.
proof fn lemma_digits_grow(s: Seq<u8>, k: int)
    requires
        0 <= k <= s.len(),
        forall|j: int| 0 <= j < s.len() ==> is_digit(#[trigger] s[j]),
    ensures
        digits_value(s.subrange(0, k)) <= digits_value(s),
    decreases s.len(),
{
    if k < s.len() {
        assert(s.drop_last().subrange(0, k) =~= s.subrange(0, k));
        assert forall|j: int| 0 <= j < s.drop_last().len() implies is_digit(#[trigger] s.drop_last()[j]) by {
            assert(is_digit(s[j]));
        }
        lemma_digits_grow(s.drop_last(), k);
        lemma_digits_nonneg(s.drop_last());
    } else {
        assert(s.subrange(0, k) =~= s);
    }
}

proof fn lemma_digits_nonneg(s: Seq<u8>)
    requires
        forall|j: int| 0 <= j < s.len() ==> is_digit(#[trigger] s[j]),
    ensures
        digits_value(s) >= 0,
    decreases s.len(),
{
    if s.len() > 0 {
        assert(is_digit(s[s.len() - 1]));
        assert forall|j: int| 0 <= j < s.drop_last().len() implies is_digit(#[trigger] s.drop_last()[j]) by {
            assert(is_digit(s[j]));
        }
        lemma_digits_nonneg(s.drop_last());
    }
}

/// The port that a target names, 80 when it names none.
pub fn port_of(t: &[u8]) -> (r: Option<u16>)
    ensures
        r == target_port(t@),
{
    let a = authority_of(t);
    let c = find_byte(a.as_slice(), COLON);
    if c == a.len() {
        Some(DEFAULT_PORT)
    } else {
        let p = copy_range(a.as_slice(), c + 1, a.len());
        parse_port(p.as_slice())
    }
}

/// Whether a target asks for a tunnel: it ends in `:443`.
pub fn is_tunnel_target(t: &[u8]) -> (r: bool)
    ensures
        r == target_is_tunnel(t@),
{
    let suffix = vec![58u8, 52u8, 52u8, 51u8];
    if t.len() < 4 {
        false
    } else {
        holds_at(t, t.len() - 4, &suffix)
    }
}

/// The request target of a request line.
pub fn target_of(line: &[u8]) -> (r: Option<Vec<u8>>)
    ensures
        r matches Some(v) ==> request_target(line@) == Some(v@),
        r is None ==> request_target(line@) is None,
{
    let s = find_byte(line, SP);
    if s == line.len() {
        return None;
    }
    let rest = copy_range(line, s + 1, line.len());
    let e = find_byte(rest.as_slice(), SP);
    Some(copy_range(rest.as_slice(), 0, e))
}

/// Where and how to reach the target of a request.
pub struct Request {
    pub host: Vec<u8>,
    pub port: u16,
    pub is_tunnel: bool,
}

/// The state of a request head read so far.
pub enum Head {
    /// More bytes are needed.
    Incomplete,
    /// The bytes cannot form a usable request head.
    Malformed,
    Ready(Request),
}

/// `None` when malformed, `Some(None)` when incomplete, otherwise host, port and tunnel flag.
pub type HeadView = Option<Option<(Seq<u8>, u16, bool)>>;

impl View for Head {
    type V = HeadView;

    open spec fn view(&self) -> HeadView {
        match self {
            Head::Incomplete => Some(None),
            Head::Malformed => None,
            Head::Ready(q) => Some(Some((q.host@, q.port, q.is_tunnel))),
        }
    }
}

/// What a buffer holds, given what the field parser made of its header block:
/// incomplete without a line terminator or with a partial block; malformed when
/// the block is, when it has no `Host` field, or when the request line has no
/// target or a bad port; otherwise the target's host, port and tunnel flag.
pub open spec fn head_status(buf: Seq<u8>, fields: FieldsView) -> HeadView {
    if index_of(buf, LF) == buf.len() {
        Some(None)
    } else {
        match fields {
            None => None,
            Some(None) => Some(None),
            Some(Some(fs)) => {
                if host_field(fs) is None {
                    None
                } else {
                    match request_target(request_line(buf)) {
                        None => None,
                        Some(t) => match target_port(t) {
                            None => None,
                            Some(p) => Some(Some((target_host(t), p, target_is_tunnel(t)))),
                        },
                    }
                }
            },
        }
    }
}

/// What a buffer holds, its header block read by the field parser.
pub open spec fn head_of(buf: Seq<u8>) -> HeadView {
    head_status(buf, header_fields_of(field_block(buf), MAX_FIELDS as nat))
}

/// Decides on a buffer, given the field parser's verdict on its header block.
pub fn scan_head(buf: &[u8], fields: FieldScan) -> (r: Head)
    ensures
        r@ == head_status(buf@, fields@),
{
    let nl = find_byte(buf, LF);
    if nl == buf.len() {
        return Head::Incomplete;
    }
    match fields {
        FieldScan::Invalid => Head::Malformed,
        FieldScan::Partial => Head::Incomplete,
        FieldScan::Complete(fs) => {
            if last_host_field(&fs).is_none() {
                return Head::Malformed;
            }
            let end = if nl > 0 && buf[nl - 1] == CR { nl - 1 } else { nl };
            let line = copy_range(buf, 0, end);
            match target_of(line.as_slice()) {
                None => Head::Malformed,
                Some(t) => match port_of(t.as_slice()) {
                    None => Head::Malformed,
                    Some(port) => Head::Ready(Request {
                        host: host_of(t.as_slice()),
                        port,
                        is_tunnel: is_tunnel_target(t.as_slice()),
                    }),
                },
            }
        },
    }
}

/// Reads a request head out of the bytes received so far.
pub fn parse_head(buf: &[u8]) -> (r: Head)
    ensures
        r@ == head_of(buf@),
{
    let nl = find_byte(buf, LF);
    if nl == buf.len() {
        return Head::Incomplete;
    }
    let block = copy_range(buf, nl + 1, buf.len());
    let fields = parse_fields(block.as_slice(), MAX_FIELDS);
    scan_head(buf, fields)
}

/// A head is never read before it is whole: bytes without a line terminator,
/// or whose header block the field parser finds partial, are incomplete.
pub proof fn lemma_partial_head_incomplete(buf: Seq<u8>)
    requires
        index_of(buf, LF) == buf.len() || header_fields_of(field_block(buf), MAX_FIELDS as nat)
            == Some(None::<Seq<(Seq<u8>, Seq<u8>)>>),
    ensures
        head_of(buf) == Some(None::<(Seq<u8>, u16, bool)>),
{
}

} // verus!
