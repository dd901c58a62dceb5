//! TLS ClientHello recognition and SNI location.
//!
//! The split planner must know two things about the bytes a single read
//! produced: whether they begin with a complete TLS handshake record whose
//! message is a ClientHello, and, if so, where the SNI host name lies inside
//! the buffer. Both are defined here as functions of the raw bytes, and the
//! executable parser is proved to answer exactly those questions. Offsets
//! are indices into the read buffer itself, so the planner can split the
//! outgoing write around the host name.

use vstd::prelude::*;

verus! {

/// TLS record content type of handshake records.
pub const CONTENT_HANDSHAKE: u8 = 22;

/// Handshake message type of a ClientHello.
pub const HANDSHAKE_CLIENT_HELLO: u8 = 1;

/// The big-endian 16-bit value stored at `b[i]` and `b[i + 1]`.
pub open spec fn be16(b: Seq<u8>, i: int) -> int
    recommends
        0 <= i,
        i + 2 <= b.len(),
{
    b[i] as int * 0x100 + b[i + 1] as int
}

/// The big-endian 24-bit value stored at `b[i]`, `b[i + 1]` and `b[i + 2]`.
pub open spec fn be24(b: Seq<u8>, i: int) -> int
    recommends
        0 <= i,
        i + 3 <= b.len(),
{
    b[i] as int * 0x10000 + b[i + 1] as int * 0x100 + b[i + 2] as int
}

/// `b` (the bytes of one read) starts with a complete TLS handshake record
/// whose first message is a ClientHello: a record header (content type 22,
/// a 2-byte version, a 16-bit length) whose body lies within `b`, opening
/// with a handshake header (message type 1, a 24-bit length) whose body lies
/// within the record. Bytes after the record, and bytes of the record after
/// the ClientHello message, are ignored.
pub open spec fn hello_header_ok(b: Seq<u8>) -> bool {
    &&& b.len() >= 9
    &&& b[0] == CONTENT_HANDSHAKE
    &&& 5 + be16(b, 3) <= b.len()
    &&& b[5] == HANDSHAKE_CLIENT_HELLO
    &&& 4 + be24(b, 6) <= be16(b, 3)
}

/// Offset of the ClientHello body: past the record and handshake headers.
pub open spec fn body_start() -> int {
    9
}

/// End of the ClientHello body, per the 24-bit handshake length.
pub open spec fn body_end(b: Seq<u8>) -> int
    recommends
        hello_header_ok(b),
{
    9 + be24(b, 6)
}

/// The ClientHello body is well-formed: a 2-byte protocol version, a 32-byte
/// random, a session id (1-byte length plus bytes), cipher suites (2-byte
/// length plus bytes) and compression methods (1-byte length plus bytes) all
/// lie within the body, followed either by nothing or by an extensions block
/// (2-byte length plus bytes) that fills the body exactly.
pub open spec fn body_ok(b: Seq<u8>) -> bool
    recommends
        hello_header_ok(b),
{
    let s = body_start();
    let e = body_end(b);
    &&& e - s >= 35
    &&& {
        let sid = b[s + 34] as int;
        &&& s + 35 + sid + 2 <= e
        &&& {
            let cs = be16(b, s + 35 + sid);
            let comp_off = s + 35 + sid + 2 + cs;
            &&& comp_off + 1 <= e
            &&& {
                let ext_off = comp_off + 1 + b[comp_off] as int;
                ||| ext_off == e
                ||| (ext_off + 2 <= e && be16(b, ext_off) == e - ext_off - 2)
            }
        }
    }
}

/// The byte range holding the extension list of a well-formed ClientHello,
/// or `None` when the body ends with the compression methods.
pub open spec fn ext_region(b: Seq<u8>) -> Option<(int, int)>
    recommends
        hello_header_ok(b),
        body_ok(b),
{
    let s = body_start();
    let e = body_end(b);
    let sid = b[s + 34] as int;
    let cs = be16(b, s + 35 + sid);
    let comp_off = s + 35 + sid + 2 + cs;
    let ext_off = comp_off + 1 + b[comp_off] as int;
    if ext_off == e {
        None
    } else {
        Some((ext_off + 2, e))
    }
}

/// The bytes `[i, end)` form a well-formed server-name entry list: each
/// entry is a 1-byte name type, a 16-bit length, and that many name bytes.
pub open spec fn entries_ok(b: Seq<u8>, i: int, end: int) -> bool
    decreases end - i,
{
    if i == end {
        true
    } else if i + 3 <= end {
        let l = be16(b, i + 1);
        &&& i + 3 + l <= end
        &&& entries_ok(b, i + 3 + l, end)
    } else {
        false
    }
}

/// The data `[i, end)` of a server-name extension is well-formed: a 16-bit
/// list length that fills the data exactly, then a well-formed entry list.
pub open spec fn sni_data_ok(b: Seq<u8>, i: int, end: int) -> bool {
    &&& i + 2 <= end
    &&& be16(b, i) == end - i - 2
    &&& entries_ok(b, i + 2, end)
}

/// The bytes `[i, end)` form a well-formed extension list: each extension is
/// a 16-bit type, a 16-bit length, and that many data bytes; the data of a
/// server-name extension (type 0) is itself well-formed.
pub open spec fn exts_ok(b: Seq<u8>, i: int, end: int) -> bool
    decreases end - i,
{
    if i == end {
        true
    } else if i + 4 <= end {
        let l = be16(b, i + 2);
        &&& i + 4 + l <= end
        &&& (be16(b, i) == 0 ==> sni_data_ok(b, i + 4, i + 4 + l))
        &&& exts_ok(b, i + 4 + l, end)
    } else {
        false
    }
}

/// Offset and length, within the whole buffer, of the name bytes of the
/// first host-name entry (name type 0) in the entry list `[i, end)`.
pub open spec fn find_host_entry(b: Seq<u8>, i: int, end: int) -> Option<(int, int)>
    recommends
        entries_ok(b, i, end),
    decreases end - i,
{
    if i + 3 <= end {
        let l = be16(b, i + 1);
        if i + 3 + l <= end {
            if b[i] == 0u8 {
                Some((i + 3, l))
            } else {
                find_host_entry(b, i + 3 + l, end)
            }
        } else {
            None
        }
    } else {
        None
    }
}

/// Offset and length of the SNI host name, searching the extension list
/// `[i, end)` for the first server-name extension.
pub open spec fn find_sni_host(b: Seq<u8>, i: int, end: int) -> Option<(int, int)>
    recommends
        exts_ok(b, i, end),
    decreases end - i,
{
    if i + 4 <= end {
        let l = be16(b, i + 2);
        if i + 4 + l <= end {
            if be16(b, i) == 0 {
                find_host_entry(b, i + 6, i + 4 + l)
            } else {
                find_sni_host(b, i + 4 + l, end)
            }
        } else {
            None
        }
    } else {
        None
    }
}

/// `b` parses as a TLS ClientHello: record and handshake headers, the body,
/// and the extension list (when present) are all well-formed. Traffic that
/// fails this test is forwarded untouched by the planner.
pub open spec fn client_hello_ok(b: Seq<u8>) -> bool {
    &&& hello_header_ok(b)
    &&& body_ok(b)
    &&& match ext_region(b) {
        None => true,
        Some((es, ee)) => exts_ok(b, es, ee),
    }
}

/// Where the SNI host name of a ClientHello lies: offset and length within
/// the buffer, or `None` when no server-name extension carries a host-name
/// entry.
pub open spec fn sni_host_loc(b: Seq<u8>) -> Option<(int, int)>
    recommends
        client_hello_ok(b),
{
    match ext_region(b) {
        None => None,
        Some((es, ee)) => find_sni_host(b, es, ee),
    }
}

proof fn lemma_find_host_entry_bounds(b: Seq<u8>, i: int, end: int)
    requires
        0 <= i,
    ensures
        find_host_entry(b, i, end) matches Some(kl) ==> i <= kl.0 && 0 <= kl.1 && kl.0 + kl.1
            <= end,
    decreases end - i,
{
    if i + 3 <= end {
        let l = be16(b, i + 1);
        if i + 3 + l <= end {
            if b[i] == 0u8 {
            } else {
                lemma_find_host_entry_bounds(b, i + 3 + l, end);
            }
        }
    }
}

proof fn lemma_find_sni_host_bounds(b: Seq<u8>, i: int, end: int)
    requires
        0 <= i,
    ensures
        find_sni_host(b, i, end) matches Some(kl) ==> 0 <= kl.0 && 0 <= kl.1 && kl.0 + kl.1
            <= end,
    decreases end - i,
{
    if i + 4 <= end {
        let l = be16(b, i + 2);
        if i + 4 + l <= end {
            if be16(b, i) == 0 {
                lemma_find_host_entry_bounds(b, i + 6, i + 4 + l);
            } else {
                lemma_find_sni_host_bounds(b, i + 4 + l, end);
            }
        }
    }
}

/// The SNI host name of a ClientHello lies within the parsed prefix: its
/// offset is nonnegative and its bytes end at or before the prefix's end.
pub proof fn lemma_sni_loc_bounds(b: Seq<u8>)
    requires
        client_hello_ok(b),
    ensures
        sni_host_loc(b) matches Some(kl) ==> 0 <= kl.0 && 0 <= kl.1 && kl.0 + kl.1 <= b.len(),
{
    match ext_region(b) {
        None => {},
        Some((es, ee)) => {
            assert(ee == body_end(b));
            assert(ee <= b.len());
            lemma_find_sni_host_bounds(b, es, ee);
        },
    }
}

/// The host-name location as the executable parser reports it.
pub open spec fn loc_of(o: Option<(usize, usize)>) -> Option<(int, int)> {
    match o {
        Some(p) => Some((p.0 as int, p.1 as int)),
        None => None,
    }
}

/// What one read's worth of bytes revealed: whether its first `n` bytes
/// parse as a TLS ClientHello, and where the SNI host name lies if one was
/// found.
pub struct HelloInfo {
    /// The read parses as a complete ClientHello record.
    pub is_client_hello: bool,
    /// Offset and length of the SNI host name within the read buffer.
    pub sni: Option<(usize, usize)>,
}

enum Shape {
    NotHello,
    NoExts,
    Exts(usize, usize),
}

fn be16_at(buf: &Vec<u8>, n: usize, i: usize) -> (r: u16)
    requires
        i + 2 <= n,
        n <= buf.len(),
    ensures
        r as int == be16(buf@.take(n as int), i as int),
{
    proof {
        assert(buf@.take(n as int)[i as int] == buf@[i as int]);
        assert(buf@.take(n as int)[i as int + 1] == buf@[i as int + 1]);
    }
    buf[i] as u16 * 0x100 + buf[i + 1] as u16
}

fn be24_at(buf: &Vec<u8>, n: usize, i: usize) -> (r: u32)
    requires
        i + 3 <= n,
        n <= buf.len(),
    ensures
        r as int == be24(buf@.take(n as int), i as int),
{
    proof {
        assert(buf@.take(n as int)[i as int] == buf@[i as int]);
        assert(buf@.take(n as int)[i as int + 1] == buf@[i as int + 1]);
        assert(buf@.take(n as int)[i as int + 2] == buf@[i as int + 2]);
    }
    buf[i] as u32 * 0x10000 + buf[i + 1] as u32 * 0x100 + buf[i + 2] as u32
}

fn byte_at(buf: &Vec<u8>, n: usize, i: usize) -> (r: u8)
    requires
        i < n,
        n <= buf.len(),
    ensures
        r == buf@.take(n as int)[i as int],
{
    proof {
        assert(buf@.take(n as int)[i as int] == buf@[i as int]);
    }
    buf[i]
}

fn parse_shape(buf: &Vec<u8>, n: usize) -> (s: Shape)
    requires
        n <= buf.len(),
    ensures
        ({
            let b = buf@.take(n as int);
            match s {
                Shape::NotHello => !(hello_header_ok(b) && body_ok(b)),
                Shape::NoExts => hello_header_ok(b) && body_ok(b) && ext_region(b) is None,
                Shape::Exts(es, ee) => hello_header_ok(b) && body_ok(b) && ext_region(b)
                    == Some((es as int, ee as int)),
            }
        }),
{
    let ghost b = buf@.take(n as int);
    if n < 9 {
        return Shape::NotHello;
    }
    if byte_at(buf, n, 0) != CONTENT_HANDSHAKE {
        return Shape::NotHello;
    }
    let rec_len = be16_at(buf, n, 3) as usize;
    if 5 + rec_len > n {
        return Shape::NotHello;
    }
    if byte_at(buf, n, 5) != HANDSHAKE_CLIENT_HELLO {
        return Shape::NotHello;
    }
    let hs_len = be24_at(buf, n, 6) as usize;
    if 4 + hs_len > rec_len {
        return Shape::NotHello;
    }
    assert(hello_header_ok(b));
    let e = 9 + hs_len;
    assert(e == body_end(b) && e <= n);
    if hs_len < 35 {
        return Shape::NotHello;
    }
    let sid = byte_at(buf, n, 43) as usize;
    if 9 + 35 + sid + 2 > e {
        return Shape::NotHello;
    }
    let cs_off = 44 + sid;
    let cs = be16_at(buf, n, cs_off) as usize;
    let comp_off = cs_off + 2 + cs;
    if comp_off + 1 > e {
        return Shape::NotHello;
    }
    let ext_off = comp_off + 1 + byte_at(buf, n, comp_off) as usize;
    if ext_off == e {
        assert(body_ok(b));
        return Shape::NoExts;
    }
    if ext_off + 2 > e {
        return Shape::NotHello;
    }
    let el = be16_at(buf, n, ext_off) as usize;
    if el != e - ext_off - 2 {
        return Shape::NotHello;
    }
    assert(body_ok(b));
    Shape::Exts(ext_off + 2, e)
}

fn scan_entries(buf: &Vec<u8>, n: usize, i: usize, end: usize) -> (r: (bool, Option<(usize, usize)>))
    requires
        i <= end,
        end <= n,
        n <= buf.len(),
    ensures
        r.0 == entries_ok(buf@.take(n as int), i as int, end as int),
        r.0 ==> loc_of(r.1) == find_host_entry(buf@.take(n as int), i as int, end as int),
    decreases end - i,
{
    if i == end {
        return (true, None);
    }
    if end - i < 3 {
        return (false, None);
    }
    let l = be16_at(buf, n, i + 1) as usize;
    if l > end - (i + 3) {
        return (false, None);
    }
    if byte_at(buf, n, i) == 0 {
        let rest = scan_entries(buf, n, i + 3 + l, end);
        (rest.0, Some((i + 3, l)))
    } else {
        scan_entries(buf, n, i + 3 + l, end)
    }
}

fn scan_exts(buf: &Vec<u8>, n: usize, i: usize, end: usize) -> (r: (bool, Option<(usize, usize)>))
    requires
        i <= end,
        end <= n,
        n <= buf.len(),
    ensures
        r.0 == exts_ok(buf@.take(n as int), i as int, end as int),
        r.0 ==> loc_of(r.1) == find_sni_host(buf@.take(n as int), i as int, end as int),
    decreases end - i,
{
    if i == end {
        return (true, None);
    }
    if end - i < 4 {
        return (false, None);
    }
    let t = be16_at(buf, n, i);
    let l = be16_at(buf, n, i + 2) as usize;
    if l > end - (i + 4) {
        return (false, None);
    }
    if t == 0 {
        let ds = i + 4;
        let de = i + 4 + l;
        if l < 2 {
            return (false, None);
        }
        let ll = be16_at(buf, n, ds) as usize;
        if ll != l - 2 {
            return (false, None);
        }
        let ent = scan_entries(buf, n, ds + 2, de);
        if !ent.0 {
            return (false, None);
        }
        let rest = scan_exts(buf, n, de, end);
        (rest.0, ent.1)
    } else {
        scan_exts(buf, n, i + 4 + l, end)
    }
}

/// Decide whether the first `n` bytes of `buf` (the bytes one read produced;
/// anything past them is stale and ignored) are a TLS ClientHello, and
/// locate the SNI host name inside it.
pub fn parse_client_hello(buf: &Vec<u8>, n: usize) -> (r: HelloInfo)
    requires
        n <= buf.len(),
    ensures
        r.is_client_hello == client_hello_ok(buf@.take(n as int)),
        r.is_client_hello ==> loc_of(r.sni) == sni_host_loc(buf@.take(n as int)),
        !r.is_client_hello ==> r.sni is None,
{
    match parse_shape(buf, n) {
        Shape::NotHello => HelloInfo { is_client_hello: false, sni: None },
        Shape::NoExts => HelloInfo { is_client_hello: true, sni: None },
        Shape::Exts(es, ee) => {
            let scanned = scan_exts(buf, n, es, ee);
            if scanned.0 {
                HelloInfo { is_client_hello: true, sni: scanned.1 }
            } else {
                HelloInfo { is_client_hello: false, sni: None }
            }
        },
    }
}

} // verus!
