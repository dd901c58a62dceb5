use snisplit::hello::parse_client_hello;
use snisplit::plan::build_split_plan;

// Offset of the host name within the buffers `hello_with_host` builds.
const HOST_OFFSET: usize = 80;

fn be16(v: usize) -> [u8; 2] {
    [(v >> 8) as u8, (v & 0xff) as u8]
}

// A well-formed ClientHello record of exactly `total` bytes whose SNI host
// name is `host`, placed so that it starts at byte `HOST_OFFSET`; a second,
// unknown-type extension pads the record to `total`.
fn hello_with_host(host: &[u8], total: usize) -> Vec<u8> {
    let sid_len = 19usize;
    let cs_len = 2usize;
    let mut exts: Vec<u8> = Vec::new();
    exts.extend_from_slice(&be16(0)); // server_name extension
    exts.extend_from_slice(&be16(2 + 3 + host.len()));
    exts.extend_from_slice(&be16(3 + host.len())); // server_name_list length
    exts.push(0); // host_name
    exts.extend_from_slice(&be16(host.len()));
    exts.extend_from_slice(host);
    let so_far = 5 + 4 + 2 + 32 + 1 + sid_len + 2 + cs_len + 1 + 1 + 2 + exts.len();
    let pad = total - so_far - 4;
    exts.extend_from_slice(&be16(0xff01)); // an unassigned extension type
    exts.extend_from_slice(&be16(pad));
    exts.extend(std::iter::repeat(0u8).take(pad));
    assemble(sid_len, cs_len, Some(&exts))
}

// A well-formed ClientHello of exactly `total` bytes with one unknown-type
// extension and no server-name extension.
fn hello_without_sni(total: usize) -> Vec<u8> {
    let sid_len = 0usize;
    let cs_len = 2usize;
    let mut exts: Vec<u8> = Vec::new();
    let so_far = 5 + 4 + 2 + 32 + 1 + sid_len + 2 + cs_len + 1 + 1 + 2;
    let pad = total - so_far - 4;
    exts.extend_from_slice(&be16(0xff01));
    exts.extend_from_slice(&be16(pad));
    exts.extend(std::iter::repeat(0u8).take(pad));
    assemble(sid_len, cs_len, Some(&exts))
}

// A minimal well-formed ClientHello whose body ends with the compression
// methods: no extensions block.
fn hello_no_extensions() -> Vec<u8> {
    assemble(0, 2, None)
}

fn assemble(sid_len: usize, cs_len: usize, exts: Option<&[u8]>) -> Vec<u8> {
    let body_len =
        2 + 32 + 1 + sid_len + 2 + cs_len + 1 + 1 + exts.map_or(0, |e| 2 + e.len());
    let mut v: Vec<u8> = Vec::new();
    v.push(22); // handshake record
    v.push(3);
    v.push(1);
    v.extend_from_slice(&be16(body_len + 4));
    v.push(1); // ClientHello
    v.push(0);
    v.extend_from_slice(&be16(body_len));
    v.push(3); // client version
    v.push(3);
    v.extend(std::iter::repeat(7u8).take(32)); // random
    v.push(sid_len as u8);
    v.extend(std::iter::repeat(1u8).take(sid_len));
    v.extend_from_slice(&be16(cs_len));
    v.extend(std::iter::repeat(0u8).take(cs_len));
    v.push(1); // one compression method: null
    v.push(0);
    if let Some(e) = exts {
        v.extend_from_slice(&be16(e.len()));
        v.extend_from_slice(e);
    }
    v
}

// A read that is not TLS is forwarded as a single segment: the plan is
// exactly [bytes_read], whatever the configuration says.
#[test]
fn non_tls_single_segment() {
    let buf: Vec<u8> = b"GET / HTTP/1.1\r\nHost: example.test\r\n\r\n".to_vec();
    let n = buf.len();
    let positions: Vec<usize> = vec![5, 10];
    let plan = build_split_plan(&buf, n, &positions, true);
    assert_eq!(plan, vec![n]);
}

#[test]
fn empty_read_single_segment() {
    let buf: Vec<u8> = vec![0u8; 16];
    let positions: Vec<usize> = vec![];
    let plan = build_split_plan(&buf, 0, &positions, true);
    assert_eq!(plan, vec![0]);
}

// A truncated record (bytes_read ends before the record does) is not a
// ClientHello for this read, even when the full record sits in the buffer's
// stale tail.
#[test]
fn truncated_record_single_segment() {
    let buf = hello_with_host(b"abcdefghij", 300);
    assert_eq!(buf.len(), 300);
    let positions: Vec<usize> = vec![5];
    let plan = build_split_plan(&buf, 100, &positions, true);
    assert_eq!(plan, vec![100]);
}

// Stale bytes after the record do not disturb parsing.
#[test]
fn stale_tail_ignored() {
    let mut buf = hello_with_host(b"abcdefghij", 300);
    buf.extend(std::iter::repeat(0xAAu8).take(7892));
    let positions: Vec<usize> = vec![];
    let plan = build_split_plan(&buf, 300, &positions, true);
    assert_eq!(plan, vec![HOST_OFFSET + 1, 300]);
}

// Explicit positions at or past bytes_read are discarded; the rest are kept.
#[test]
fn explicit_positions_filtered() {
    let buf = hello_with_host(b"abcdefghij", 300);
    let positions: Vec<usize> = vec![5, 500];
    let plan = build_split_plan(&buf, 300, &positions, false);
    assert_eq!(plan, vec![5, 300]);
}

#[test]
fn explicit_position_at_bytes_read_discarded() {
    let buf = hello_with_host(b"abcdefghij", 300);
    let positions: Vec<usize> = vec![300];
    let plan = build_split_plan(&buf, 300, &positions, false);
    assert_eq!(plan, vec![300]);
}

// The plan is sorted, deduplicated, and ends with bytes_read.
#[test]
fn plan_sorted_deduplicated() {
    let buf = hello_with_host(b"abcdefghij", 300);
    let positions: Vec<usize> = vec![100, 5, 100, 5, 81];
    let plan = build_split_plan(&buf, 300, &positions, true);
    assert_eq!(plan, vec![5, 81, 100, 300]);
    for w in plan.windows(2) {
        assert!(w[0] < w[1]);
    }
    assert_eq!(*plan.last().unwrap(), 300);
}

// SNI-relative splitting: a host name of length >= 2 at offset k puts k + 1
// in the plan.
#[test]
fn sni_split_long_host() {
    let buf = hello_with_host(b"abcdefghij", 300);
    let positions: Vec<usize> = vec![];
    let plan = build_split_plan(&buf, 300, &positions, true);
    assert_eq!(HOST_OFFSET, 80);
    assert_eq!(plan, vec![81, 300]);
}

// A host name of length 1 at offset k puts k itself in the plan.
#[test]
fn sni_split_short_host() {
    let buf = hello_with_host(b"x", 300);
    let positions: Vec<usize> = vec![];
    let plan = build_split_plan(&buf, 300, &positions, true);
    assert_eq!(plan, vec![HOST_OFFSET, 300]);
}

// Without the SNI flag the host name does not contribute an offset.
#[test]
fn sni_flag_off() {
    let buf = hello_with_host(b"abcdefghij", 300);
    let positions: Vec<usize> = vec![];
    let plan = build_split_plan(&buf, 300, &positions, false);
    assert_eq!(plan, vec![300]);
}

// A ClientHello without a server-name extension still gets the explicit
// positions, and the SNI flag adds nothing.
#[test]
fn no_sni_extension() {
    let buf = hello_without_sni(280);
    let positions: Vec<usize> = vec![7];
    let plan = build_split_plan(&buf, 280, &positions, true);
    assert_eq!(plan, vec![7, 280]);
}

// A ClientHello with no extensions block at all parses, and gets the
// explicit positions.
#[test]
fn no_extensions_block() {
    let buf = hello_no_extensions();
    let n = buf.len();
    let positions: Vec<usize> = vec![9];
    let plan = build_split_plan(&buf, n, &positions, true);
    assert_eq!(plan, vec![9, n]);
}

// The parser itself: recognition and the host-name location.
#[test]
fn parser_locates_host() {
    let buf = hello_with_host(b"abcdefghij", 300);
    let info = parse_client_hello(&buf, 300);
    assert!(info.is_client_hello);
    assert_eq!(info.sni, Some((80, 10)));

    let plain = b"NOT TLS AT ALL padding padding".to_vec();
    let info = parse_client_hello(&plain, plain.len());
    assert!(!info.is_client_hello);
    assert_eq!(info.sni, None);
}

#[test]
fn parser_rejects_malformed_sni() {
    // Corrupt the server-name list length so the extension no longer fills
    // its data exactly: the whole read must be treated as not a ClientHello.
    let mut buf = hello_with_host(b"abcdefghij", 300);
    buf[76] = 0xEE;
    let info = parse_client_hello(&buf, 300);
    assert!(!info.is_client_hello);
    let positions: Vec<usize> = vec![5];
    let plan = build_split_plan(&buf, 300, &positions, true);
    assert_eq!(plan, vec![300]);
}

// An empty host name entry contributes its own start offset.
#[test]
fn sni_split_empty_host() {
    let buf = hello_with_host(b"", 300);
    let positions: Vec<usize> = vec![];
    let plan = build_split_plan(&buf, 300, &positions, true);
    assert_eq!(plan, vec![HOST_OFFSET, 300]);
}

// Each corruption of a header field makes the read a non-ClientHello, and
// the plan falls back to a single segment.
#[test]
fn parser_rejects_corrupted_headers() {
    let good = hello_with_host(b"abcdefghij", 300);
    let cases: Vec<(usize, u8)> = vec![
        (0, 23),   // record content type: not handshake
        (3, 0xEE), // record length: record no longer fits the read
        (5, 2),    // handshake type: not a ClientHello
        (8, 0xFF), // handshake length: message no longer fits the record
        (43, 250), // session id length: overruns the body
    ];
    for (at, val) in cases {
        let mut buf = good.clone();
        buf[at] = val;
        let info = parse_client_hello(&buf, 300);
        assert!(!info.is_client_hello, "byte {at} set to {val} must not parse");
        let positions: Vec<usize> = vec![5];
        let plan = build_split_plan(&buf, 300, &positions, true);
        assert_eq!(plan, vec![300]);
    }
}

#[test]
fn parser_rejects_short_reads() {
    let good = hello_with_host(b"abcdefghij", 300);
    for n in [0usize, 4, 8, 44, 299] {
        let info = parse_client_hello(&good, n);
        assert!(!info.is_client_hello, "a {n}-byte read must not parse");
    }
    assert!(parse_client_hello(&good, 300).is_client_hello);
}

// Concatenating the plan's segments reproduces the first bytes_read bytes.
#[test]
fn segments_concatenate_to_prefix() {
    let mut buf = hello_with_host(b"abcdefghij", 300);
    buf.extend(std::iter::repeat(0x55u8).take(100));
    let positions: Vec<usize> = vec![5, 200];
    let plan = build_split_plan(&buf, 300, &positions, true);
    assert_eq!(plan, vec![5, 81, 200, 300]);
    let mut joined: Vec<u8> = Vec::new();
    let mut start = 0usize;
    for &at in &plan {
        joined.extend_from_slice(&buf[start..at]);
        start = at;
    }
    assert_eq!(joined, buf[..300].to_vec());
}
