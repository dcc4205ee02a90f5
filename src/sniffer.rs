//! Classifies the first bytes of a client stream as TLS or HTTP and finds the
//! host the client wants to reach: the SNI of a TLS ClientHello, or the value
//! of an HTTP `Host:` header.
use vstd::prelude::*;
use vstd::utf8::{decode_utf8, valid_utf8};
use crate::bytes::copy_range;

verus! {

/// Content type of a TLS handshake record.
pub const TLS_HANDSHAKE: u8 = 0x16;

/// Handshake type of a ClientHello message.
pub const CLIENT_HELLO: u8 = 0x01;

/// Offset of the session-id length byte in a record holding a ClientHello:
/// record header (5), handshake header (4), version (2), random (32).
pub const SESSION_ID_OFFSET: usize = 43;

/// The application protocol a client speaks.
#[derive(Clone, Copy, Debug, PartialEq, Eq, Structural)]
pub enum ProxyProtocol {
    HTTP,
    TLS,
}

/// Big-endian 16-bit number at `i`.
pub open spec fn be16(s: Seq<u8>, i: int) -> int {
    s[i] as int * 256 + s[i + 1] as int
}

/// The first entry of a server-name list held in an extension value that
/// starts at `v` and is `n` bytes long: list length (2), then
/// name type (1), name length (2), name.
pub open spec fn sni_entry(s: Seq<u8>, v: int, n: int) -> Option<Seq<u8>> {
    if n < 2 {
        None
    } else {
        let list_end = v + 2 + be16(s, v);
        if list_end > v + n || v + 5 > list_end {
            None
        } else {
            let name_end = v + 5 + be16(s, v + 3);
            if name_end > list_end {
                None
            } else {
                Some(s.subrange(v + 5, name_end))
            }
        }
    }
}

/// Walks the extensions from `q` up to `end`, each {type (2), length (2),
/// value}, to the first server_name extension (type 0) and reads it.
pub open spec fn sni_in_extensions(s: Seq<u8>, q: int, end: int) -> Option<Seq<u8>>
    decreases end - q,
{
    if q < 0 || q + 4 > end {
        None
    } else {
        let n = be16(s, q + 2);
        if q + 4 + n > end {
            None
        } else if be16(s, q) == 0 {
            sni_entry(s, q + 4, n)
        } else {
            sni_in_extensions(s, q + 4 + n, end)
        }
    }
}

/// The server name of a record holding a ClientHello; `None` for any other
/// record, and for a ClientHello that is truncated, malformed or has no SNI.
pub open spec fn tls_sni(s: Seq<u8>) -> Option<Seq<u8>> {
    if s.len() <= 43 || s[0] != TLS_HANDSHAKE || s[5] != CLIENT_HELLO {
        None
    } else {
        // past the session id
        let p1 = 44 + s[43] as int;
        if p1 + 2 > s.len() {
            None
        } else {
            // past the cipher suites
            let p2 = p1 + 2 + be16(s, p1);
            if p2 + 1 > s.len() {
                None
            } else {
                // past the compression methods
                let p3 = p2 + 1 + s[p2] as int;
                if p3 + 2 > s.len() {
                    None
                } else {
                    let end = p3 + 2 + be16(s, p3);
                    if end > s.len() {
                        None
                    } else {
                        sni_in_extensions(s, p3 + 2, end)
                    }
                }
            }
        }
    }
}

fn read_be16(data: &Vec<u8>, i: usize) -> (r: usize)
    requires
        i + 1 < data@.len(),
    ensures
        r == be16(data@, i as int),
        r < 65536,
{
    let _ = data.len();
    data[i] as usize * 256 + data[i + 1] as usize
}

fn server_name_entry(data: &Vec<u8>, v: usize, n: usize) -> (r: Option<Vec<u8>>)
    requires
        v + n <= data@.len(),
    ensures
        r matches Some(x) ==> sni_entry(data@, v as int, n as int) == Some(x@),
        r is None ==> sni_entry(data@, v as int, n as int) is None,
{
    let _ = data.len();
    if n < 2 {
        return None;
    }
    let list_len = read_be16(data, v);
    if list_len > n - 2 || list_len < 3 {
        return None;
    }
    let list_end = v + 2 + list_len;
    let name_len = read_be16(data, v + 3);
    if name_len > list_end - (v + 5) {
        return None;
    }
    Some(copy_range(data, v + 5, v + 5 + name_len))
}

/// The server name that a ClientHello record carries, as raw bytes.
pub fn tls_server_name(data: &Vec<u8>) -> (r: Option<Vec<u8>>)
    ensures
        r matches Some(x) ==> tls_sni(data@) == Some(x@),
        r is None ==> tls_sni(data@) is None,
{
    let len = data.len();
    if len <= SESSION_ID_OFFSET || data[0] != TLS_HANDSHAKE || data[5] != CLIENT_HELLO {
        return None;
    }
    let p1 = SESSION_ID_OFFSET + 1 + data[SESSION_ID_OFFSET] as usize;
    if p1 >= len - 1 {
        return None;
    }
    let cipher_len = read_be16(data, p1);
    if cipher_len >= len - (p1 + 2) {
        return None;
    }
    let p2 = p1 + 2 + cipher_len;
    let p3 = p2 + 1 + data[p2] as usize;
    if p3 >= len - 1 {
        return None;
    }
    let ext_len = read_be16(data, p3);
    if ext_len > len - (p3 + 2) {
        return None;
    }
    let end = p3 + 2 + ext_len;
    let mut q = p3 + 2;
    loop
        invariant
            p3 + 2 <= q <= end <= len == data@.len(),
            tls_sni(data@) == sni_in_extensions(data@, q as int, end as int),
        decreases end - q,
    {
        if end - q < 4 {
            return None;
        }
        let n = read_be16(data, q + 2);
        if n > end - q - 4 {
            return None;
        }
        if read_be16(data, q) == 0 {
            return server_name_entry(data, q + 4, n);
        }
        q = q + 4 + n;
    }
}

/// Carriage return and line feed, which end a header line.
pub const CR: u8 = 0x0D;

pub const LF: u8 = 0x0A;

/// A line break starts at `i`.
pub open spec fn crlf_at(s: Seq<u8>, i: int) -> bool {
    0 <= i && i + 1 < s.len() && s[i] == CR && s[i + 1] == LF
}

/// ASCII letters to lower case, other bytes unchanged.
pub open spec fn to_lower(b: u8) -> u8 {
    if 0x41 <= b <= 0x5A {
        (b + 0x20) as u8
    } else {
        b
    }
}

/// The bytes at `i` read `host:` in any case.
pub open spec fn host_tag_at(s: Seq<u8>, i: int) -> bool {
    &&& 0 <= i
    &&& i + 5 <= s.len()
    &&& to_lower(s[i]) == 0x68
    &&& to_lower(s[i + 1]) == 0x6F
    &&& to_lower(s[i + 2]) == 0x73
    &&& to_lower(s[i + 3]) == 0x74
    &&& s[i + 4] == 0x3A
}

/// Whitespace in the sense of `char::is_whitespace`, among ASCII bytes.
pub open spec fn is_space(b: u8) -> bool {
    b == 0x20 || (0x09 <= b <= 0x0D)
}

/// `s` without leading and trailing whitespace.
pub open spec fn trim(s: Seq<u8>) -> Seq<u8>
    decreases s.len(),
{
    if s.len() > 0 && is_space(s[0]) {
        trim(s.drop_first())
    } else if s.len() > 0 && is_space(s.last()) {
        trim(s.drop_last())
    } else {
        s
    }
}

/// Scans `s` from `j` for the end of the line that starts at `start`; at each
/// line end, a `Host:` line gives its trimmed value, any other line passes the
/// scan on to the next. A last line without its line break is never read.
pub open spec fn scan_host(s: Seq<u8>, start: int, j: int) -> Option<Seq<u8>>
    decreases s.len() - j,
{
    if j < 0 || j + 1 >= s.len() {
        None
    } else if crlf_at(s, j) {
        if start + 5 <= j && host_tag_at(s, start) {
            Some(trim(s.subrange(start + 5, j)))
        } else {
            scan_host(s, j + 2, j + 2)
        }
    } else {
        scan_host(s, start, j + 1)
    }
}

/// The value of the first complete `Host:` header line of `s`.
pub open spec fn http_host(s: Seq<u8>) -> Option<Seq<u8>> {
    scan_host(s, 0, 0)
}

/// The protocol that the first byte of a stream shows.
pub open spec fn protocol_of(s: Seq<u8>) -> ProxyProtocol {
    if s.len() > 0 && s[0] == TLS_HANDSHAKE {
        ProxyProtocol::TLS
    } else {
        ProxyProtocol::HTTP
    }
}

/// The host named in a stream, as bytes.
pub open spec fn host_of(s: Seq<u8>) -> Option<Seq<u8>> {
    match protocol_of(s) {
        ProxyProtocol::TLS => tls_sni(s),
        ProxyProtocol::HTTP => http_host(s),
    }
}

/// A host name as text: the bytes must be UTF-8.
pub open spec fn host_text(h: Option<Seq<u8>>) -> Option<Seq<char>> {
    match h {
        Some(b) => if valid_utf8(b) {
            Some(decode_utf8(b))
        } else {
            None
        },
        None => None,
    }
}

pub open spec fn text_of(s: Option<String>) -> Option<Seq<char>> {
    match s {
        Some(x) => Some(x@),
        None => None,
    }
}

fn is_space_byte(b: u8) -> (r: bool)
    ensures
        r == is_space(b),
{
    b == 0x20 || (0x09 <= b && b <= 0x0D)
}

fn lower_byte(b: u8) -> (r: u8)
    ensures
        r == to_lower(b),
{
    if 0x41 <= b && b <= 0x5A {
        b + 0x20
    } else {
        b
    }
}

fn has_host_tag(data: &Vec<u8>, i: usize) -> (r: bool)
    ensures
        r == host_tag_at(data@, i as int),
{
    let len = data.len();
    if i > len || len - i < 5 {
        return false;
    }
    lower_byte(data[i]) == 0x68 && lower_byte(data[i + 1]) == 0x6F && lower_byte(data[i + 2])
        == 0x73 && lower_byte(data[i + 3]) == 0x74 && data[i + 4] == 0x3A
}

/// `data[a..b]` without leading and trailing whitespace.
fn trimmed_range(data: &Vec<u8>, a: usize, b: usize) -> (r: Vec<u8>)
    requires
        a <= b <= data@.len(),
    ensures
        r@ == trim(data@.subrange(a as int, b as int)),
{
    let mut lo = a;
    let mut hi = b;
    while lo < hi && is_space_byte(data[lo])
        invariant
            a <= lo <= hi == b <= data@.len(),
            trim(data@.subrange(a as int, b as int)) == trim(data@.subrange(lo as int, hi as int)),
        decreases hi - lo,
    {
        assert(data@.subrange(lo as int, hi as int).drop_first() =~= data@.subrange(
            lo + 1,
            hi as int,
        ));
        lo = lo + 1;
    }
    while lo < hi && is_space_byte(data[hi - 1])
        invariant
            a <= lo <= hi <= b <= data@.len(),
            lo == hi || !is_space(data@[lo as int]),
            trim(data@.subrange(a as int, b as int)) == trim(data@.subrange(lo as int, hi as int)),
        decreases hi - lo,
    {
        assert(data@.subrange(lo as int, hi as int).drop_last() =~= data@.subrange(
            lo as int,
            hi - 1,
        ));
        hi = hi - 1;
    }
    copy_range(data, lo, hi)
}

/// The value of the first complete `Host:` header line, as raw bytes.
pub fn http_host_name(data: &Vec<u8>) -> (r: Option<Vec<u8>>)
    ensures
        r matches Some(x) ==> http_host(data@) == Some(x@),
        r is None ==> http_host(data@) is None,
{
    let len = data.len();
    let mut start: usize = 0;
    let mut j: usize = 0;
    while len - j >= 2
        invariant
            len == data@.len(),
            start <= j <= len,
            http_host(data@) == scan_host(data@, start as int, j as int),
        decreases len - j,
    {
        if data[j] == CR && data[j + 1] == LF {
            if j - start >= 5 && has_host_tag(data, start) {
                return Some(trimmed_range(data, start + 5, j));
            }
            start = j + 2;
            j = j + 2;
        } else {
            j = j + 1;
        }
    }
    None
}

/// Relies on `String::from_utf8`: it succeeds exactly on valid UTF-8, and the
/// string then holds the characters that the bytes encode.
#[verifier::external_body]
fn utf8_string(bytes: Vec<u8>) -> (r: Option<String>)
    ensures
        r is Some <==> valid_utf8(bytes@),
        r matches Some(x) ==> x@ == decode_utf8(bytes@),
{
    String::from_utf8(bytes).ok()
}

/// The protocol of a stream and the host it names, as text.
pub fn classify(data: &Vec<u8>) -> (r: (ProxyProtocol, Option<String>))
    ensures
        r.0 == protocol_of(data@),
        text_of(r.1) == host_text(host_of(data@)),
{
    let (protocol, host) = if data.len() > 0 && data[0] == TLS_HANDSHAKE {
        (ProxyProtocol::TLS, tls_server_name(data))
    } else {
        (ProxyProtocol::HTTP, http_host_name(data))
    };
    match host {
        Some(bytes) => (protocol, utf8_string(bytes)),
        None => (protocol, None),
    }
}

/// A record that starts as a TLS handshake but holds another handshake
/// message than a ClientHello is TLS with no host, whatever follows.
pub proof fn lemma_tls_other_handshake(s: Seq<u8>)
    requires
        s.len() > 5,
        s[0] == TLS_HANDSHAKE,
        s[5] != CLIENT_HELLO,
    ensures
        protocol_of(s) == ProxyProtocol::TLS,
        host_of(s) is None,
{
}

/// `i` is where a line begins.
pub open spec fn line_start(s: Seq<u8>, i: int) -> bool {
    i == 0 || crlf_at(s, i - 2)
}

proof fn lemma_scan_without_host_tag(s: Seq<u8>, start: int, j: int)
    requires
        0 <= start <= j,
        line_start(s, start),
        forall|i: int| line_start(s, i) ==> !host_tag_at(s, i),
    ensures
        scan_host(s, start, j) is None,
    decreases s.len() - j,
{
    if j + 1 < s.len() {
        if crlf_at(s, j) {
            assert(line_start(s, j + 2));
            lemma_scan_without_host_tag(s, j + 2, j + 2);
        } else {
            lemma_scan_without_host_tag(s, start, j + 1);
        }
    }
}

/// A stream that does not start as a TLS handshake and has no line that
/// begins with `Host:` is HTTP with no host.
pub proof fn lemma_http_without_host_line(s: Seq<u8>)
    requires
        s.len() > 0,
        s[0] != TLS_HANDSHAKE,
        forall|i: int| line_start(s, i) ==> !host_tag_at(s, i),
    ensures
        protocol_of(s) == ProxyProtocol::HTTP,
        host_of(s) is None,
{
    lemma_scan_without_host_tag(s, 0, 0);
}

/// The line `Host: x` with its line break.
pub open spec fn host_line(x: Seq<u8>) -> Seq<u8> {
    seq![0x48u8, 0x6Fu8, 0x73u8, 0x74u8, 0x3Au8, 0x20u8] + x + seq![CR, LF]
}

/// Scanning a prefix of whole lines, none of them a `Host:` line, brings the
/// scan of the whole stream to the line after that prefix.
proof fn lemma_scan_past_lines(pre: Seq<u8>, s: Seq<u8>, start: int, j: int)
    requires
        pre.len() >= 2,
        s.len() >= pre.len(),
        pre =~= s.subrange(0, pre.len() as int),
        crlf_at(pre, pre.len() - 2),
        0 <= start <= j <= pre.len() - 2,
        scan_host(pre, start, j) is None,
    ensures
        scan_host(s, start, j) == scan_host(s, pre.len() as int, pre.len() as int),
    decreases pre.len() - j,
{
    assert(s[j] == pre[j] && s[j + 1] == pre[j + 1]);
    if crlf_at(pre, j) {
        if start + 5 <= j {
            assert(s.subrange(start + 5, j) =~= pre.subrange(start + 5, j));
            assert(host_tag_at(s, start) == host_tag_at(pre, start));
        }
        if j + 2 < pre.len() {
            assert(pre[pre.len() - 2] == CR);
            lemma_scan_past_lines(pre, s, j + 2, j + 2);
        }
    } else {
        lemma_scan_past_lines(pre, s, start, j + 1);
    }
}

/// Scanning a line that has no carriage return before `k` reaches `k`.
proof fn lemma_scan_in_line(s: Seq<u8>, start: int, j: int, k: int)
    requires
        0 <= j <= k,
        k + 1 < s.len(),
        forall|i: int| j <= i < k ==> s[i] != CR,
    ensures
        scan_host(s, start, j) == scan_host(s, start, k),
    decreases k - j,
{
    if j < k {
        lemma_scan_in_line(s, start, j + 1, k);
    }
}

/// After lines that hold no `Host:` header, the line `Host: x` gives `x` as
/// the host of an HTTP stream, whatever follows it, where `x` holds no
/// carriage return and no whitespace at its ends.
pub proof fn lemma_http_host_line(pre: Seq<u8>, x: Seq<u8>, post: Seq<u8>)
    requires
        pre.len() == 0 || (pre.len() >= 2 && pre[0] != TLS_HANDSHAKE && crlf_at(
            pre,
            pre.len() - 2,
        ) && http_host(pre) is None),
        forall|i: int| 0 <= i < x.len() ==> x[i] != CR,
        x.len() == 0 || (!is_space(x[0]) && !is_space(x.last())),
    ensures
        protocol_of(pre + host_line(x) + post) == ProxyProtocol::HTTP,
        host_of(pre + host_line(x) + post) == Some(x),
{
    let s = pre + host_line(x) + post;
    let p = pre.len() as int;
    let k = p + 6 + x.len();
    assert(s[p] == 0x48u8);
    if pre.len() > 0 {
        lemma_scan_past_lines(pre, s, 0, 0);
    }
    assert forall|i: int| p <= i < k implies s[i] != CR by {
        if i >= p + 6 {
            assert(s[i] == x[i - p - 6]);
        }
    }
    assert(s[k] == CR && s[k + 1] == LF);
    lemma_scan_in_line(s, p, p, k);
    assert(host_tag_at(s, p));
    let v = s.subrange(p + 5, k);
    assert(v =~= seq![0x20u8] + x);
    assert(v.drop_first() =~= x);
    assert(trim(v) == trim(x));
}

/// `n` as two big-endian bytes.
pub open spec fn be16_bytes(n: nat) -> Seq<u8> {
    seq![(n / 256) as u8, (n % 256) as u8]
}

/// A TLS extension: type, length of the value, value.
pub open spec fn extension(t: nat, v: Seq<u8>) -> Seq<u8> {
    be16_bytes(t) + be16_bytes(v.len()) + v
}

/// Extensions one after the other.
pub open spec fn extensions(es: Seq<(nat, Seq<u8>)>) -> Seq<u8>
    decreases es.len(),
{
    if es.len() == 0 {
        seq![]
    } else {
        extension(es[0].0, es[0].1) + extensions(es.drop_first())
    }
}

/// A server_name extension whose list holds the one host name `h`.
pub open spec fn server_name_extension(h: Seq<u8>) -> Seq<u8> {
    extension(0nat, be16_bytes((h.len() + 3) as nat) + seq![0u8] + be16_bytes(h.len()) + h)
}

/// A handshake record holding a ClientHello: `head` is the rest of the
/// record header, the handshake header, the version and the random; then
/// come the session id, cipher suites, compression methods and extensions,
/// each after its length.
#[verifier::opaque]
pub open spec fn client_hello(
    head: Seq<u8>,
    sid: Seq<u8>,
    cs: Seq<u8>,
    cm: Seq<u8>,
    exts: Seq<u8>,
) -> Seq<u8> {
    seq![TLS_HANDSHAKE] + head + seq![sid.len() as u8] + sid + be16_bytes(cs.len()) + cs + seq![
        cm.len() as u8,
    ] + cm + be16_bytes(exts.len()) + exts
}

proof fn lemma_be16_of_bytes(s: Seq<u8>, i: int, n: nat)
    requires
        0 <= i,
        i + 2 <= s.len(),
        n < 65536,
        s.subrange(i, i + 2) == be16_bytes(n),
    ensures
        be16(s, i) == n,
{
    assert(s[i] == s.subrange(i, i + 2)[0]);
    assert(s[i + 1] == s.subrange(i, i + 2)[1]);
    assert((n / 256) * 256 + n % 256 == n) by (nonlinear_arith);
    assert(n / 256 < 256) by (nonlinear_arith)
        requires
            n < 65536,
    ;
}

proof fn lemma_split(s: Seq<u8>, q: int, a: Seq<u8>, b: Seq<u8>)
    requires
        0 <= q,
        q + a.len() + b.len() <= s.len(),
        s.subrange(q, q + a.len() + b.len()) == a + b,
    ensures
        s.subrange(q, q + a.len()) == a,
        s.subrange(q + a.len(), q + a.len() + b.len()) == b,
{
    assert forall|i: int| 0 <= i < a.len() implies s.subrange(q, q + a.len())[i] == a[i] by {
        assert(s[q + i] == s.subrange(q, q + a.len() + b.len())[i]);
    }
    assert forall|i: int| 0 <= i < b.len() implies s.subrange(
        q + a.len(),
        q + a.len() + b.len(),
    )[i] == b[i] by {
        assert(s[q + a.len() + i] == s.subrange(q, q + a.len() + b.len())[a.len() + i]);
    }
    assert(s.subrange(q, q + a.len()) =~= a);
    assert(s.subrange(q + a.len(), q + a.len() + b.len()) =~= b);
}

/// The walk passes over extensions of other types than server_name.
proof fn lemma_walk_other_extensions(s: Seq<u8>, q: int, end: int, es: Seq<(nat, Seq<u8>)>)
    requires
        0 <= q,
        q + extensions(es).len() <= end <= s.len(),
        s.subrange(q, q + extensions(es).len()) == extensions(es),
        forall|i: int|
            0 <= i < es.len() ==> (#[trigger] es[i]).0 != 0 && es[i].0 < 65536 && es[i].1.len()
                < 65536,
    ensures
        sni_in_extensions(s, q, end) == sni_in_extensions(s, q + extensions(es).len(), end),
    decreases es.len(),
{
    if es.len() > 0 {
        let (t, v) = es[0];
        let rest = es.drop_first();
        let e = extension(t, v);
        lemma_split(s, q, e, extensions(rest));
        lemma_split(s, q, be16_bytes(t) + be16_bytes(v.len()), v);
        lemma_split(s, q, be16_bytes(t), be16_bytes(v.len()));
        lemma_be16_of_bytes(s, q, t);
        lemma_be16_of_bytes(s, q + 2, v.len());
        assert forall|i: int| 0 <= i < rest.len() implies (#[trigger] rest[i]).0 != 0 && rest[i].0
            < 65536 && rest[i].1.len() < 65536 by {
            assert(rest[i] == es[i + 1]);
        }
        lemma_walk_other_extensions(s, q + e.len(), end, rest);
    }
}

/// Where the extensions of a ClientHello record begin.
pub open spec fn extensions_offset(sid: Seq<u8>, cs: Seq<u8>, cm: Seq<u8>) -> int {
    49 + sid.len() as int + cs.len() as int + cm.len() as int
}

/// The parse of a record follows the length fields of a ClientHello.
proof fn lemma_client_hello_fields(s: Seq<u8>, sid_len: int, cs_len: nat, cm_len: int, ext_len: nat)
    requires
        0 <= sid_len < 256,
        cs_len < 65536,
        0 <= cm_len < 256,
        ext_len < 65536,
        49 + sid_len + cs_len + cm_len + ext_len <= s.len(),
        s[0] == TLS_HANDSHAKE,
        s[5] == CLIENT_HELLO,
        s[43] == sid_len,
        s.subrange(44 + sid_len, 46 + sid_len) == be16_bytes(cs_len),
        s[46 + sid_len + cs_len] == cm_len,
        s.subrange(47 + sid_len + cs_len + cm_len, 49 + sid_len + cs_len + cm_len) == be16_bytes(
            ext_len,
        ),
    ensures
        tls_sni(s) == sni_in_extensions(
            s,
            49 + sid_len + cs_len + cm_len,
            49 + sid_len + cs_len + cm_len + ext_len,
        ),
{
    lemma_be16_of_bytes(s, 44 + sid_len, cs_len);
    lemma_be16_of_bytes(s, 47 + sid_len + cs_len + cm_len, ext_len);
}

/// The parse of a ClientHello record reaches its extensions block.
#[verifier::spinoff_prover]
#[verifier::rlimit(50)]
proof fn lemma_client_hello_layout(
    head: Seq<u8>,
    sid: Seq<u8>,
    cs: Seq<u8>,
    cm: Seq<u8>,
    exts: Seq<u8>,
    tail: Seq<u8>,
)
    requires
        head.len() == 42,
        head[4] == CLIENT_HELLO,
        sid.len() < 256,
        cs.len() < 65536,
        cm.len() < 256,
        exts.len() < 65536,
    ensures
        ({
            let s = client_hello(head, sid, cs, cm, exts) + tail;
            let q = extensions_offset(sid, cs, cm);
            &&& protocol_of(s) == ProxyProtocol::TLS
            &&& q + exts.len() <= s.len()
            &&& s.subrange(q, q + exts.len()) == exts
            &&& tls_sni(s) == sni_in_extensions(s, q, q + exts.len())
        }),
{
    reveal(client_hello);
    let s = client_hello(head, sid, cs, cm, exts) + tail;
    let p1: int = 44 + sid.len() as int;
    let p2: int = p1 + 2 + cs.len();
    let p3: int = p2 + 1 + cm.len();
    let q: int = p3 + 2;
    assert(s[0] == TLS_HANDSHAKE);
    assert(s[5] == head[4]);
    assert(s[43] == sid.len() as u8);
    assert(s.subrange(p1, p1 + 2) =~= be16_bytes(cs.len()));
    assert(s[p2] == cm.len() as u8);
    assert(s.subrange(p3, q) =~= be16_bytes(exts.len()));
    assert(s.subrange(q, q + exts.len()) =~= exts);
    lemma_client_hello_fields(s, sid.len() as int, cs.len(), cm.len() as int, exts.len());
}

/// The walk over an extensions block finds `h` in the first server_name
/// extension.
#[verifier::spinoff_prover]
proof fn lemma_extensions_sni(
    s: Seq<u8>,
    q: int,
    before: Seq<(nat, Seq<u8>)>,
    h: Seq<u8>,
    after: Seq<u8>,
)
    requires
        0 <= q,
        q + (extensions(before) + server_name_extension(h) + after).len() <= s.len(),
        s.subrange(q, q + (extensions(before) + server_name_extension(h) + after).len())
            == extensions(before) + server_name_extension(h) + after,
        forall|i: int|
            0 <= i < before.len() ==> (#[trigger] before[i]).0 != 0 && before[i].0 < 65536
                && before[i].1.len() < 65536,
        h.len() + 5 < 65536,
    ensures
        sni_in_extensions(
            s,
            q,
            q + (extensions(before) + server_name_extension(h) + after).len(),
        ) == Some(h),
{
    let eb = extensions(before);
    let sn = server_name_extension(h);
    let end = q + (eb + sn + after).len();
    lemma_split(s, q, eb + sn, after);
    lemma_split(s, q, eb, sn);
    lemma_walk_other_extensions(s, q, end, before);
    let r: int = q + eb.len();
    let v = be16_bytes((h.len() + 3) as nat) + seq![0u8] + be16_bytes(h.len()) + h;
    lemma_split(s, r, be16_bytes(0nat) + be16_bytes(v.len()), v);
    lemma_split(s, r, be16_bytes(0nat), be16_bytes(v.len()));
    lemma_be16_of_bytes(s, r, 0nat);
    lemma_be16_of_bytes(s, r + 2, v.len());
    let w: int = r + 4;
    lemma_split(s, w, be16_bytes((h.len() + 3) as nat) + seq![0u8] + be16_bytes(h.len()), h);
    lemma_split(s, w, be16_bytes((h.len() + 3) as nat) + seq![0u8], be16_bytes(h.len()));
    lemma_split(s, w, be16_bytes((h.len() + 3) as nat), seq![0u8]);
    lemma_be16_of_bytes(s, w, (h.len() + 3) as nat);
    lemma_be16_of_bytes(s, w + 3, h.len());
}

/// A well-formed ClientHello whose first server_name extension names `h`
/// gives `h` as the host of a TLS stream, whatever extensions come before
/// it and whatever follows.
pub proof fn lemma_client_hello_sni(
    head: Seq<u8>,
    sid: Seq<u8>,
    cs: Seq<u8>,
    cm: Seq<u8>,
    before: Seq<(nat, Seq<u8>)>,
    h: Seq<u8>,
    after: Seq<u8>,
    tail: Seq<u8>,
)
    requires
        head.len() == 42,
        head[4] == CLIENT_HELLO,
        sid.len() < 256,
        cs.len() < 65536,
        cm.len() < 256,
        forall|i: int|
            0 <= i < before.len() ==> (#[trigger] before[i]).0 != 0 && before[i].0 < 65536
                && before[i].1.len() < 65536,
        (extensions(before) + server_name_extension(h) + after).len() < 65536,
    ensures
        protocol_of(
            client_hello(head, sid, cs, cm, extensions(before) + server_name_extension(h) + after)
                + tail,
        ) == ProxyProtocol::TLS,
        host_of(
            client_hello(head, sid, cs, cm, extensions(before) + server_name_extension(h) + after)
                + tail,
        ) == Some(h),
{
    let exts = extensions(before) + server_name_extension(h) + after;
    let s = client_hello(head, sid, cs, cm, exts) + tail;
    lemma_client_hello_layout(head, sid, cs, cm, exts, tail);
    lemma_extensions_sni(s, extensions_offset(sid, cs, cm), before, h, after);
}

} // verus!
