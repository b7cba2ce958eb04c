use unit_wasm::rusty::luw_ctx_t;
use unit_wasm::rusty::uwr_free;
use unit_wasm::rusty::uwr_get_http_content;
use unit_wasm::rusty::uwr_get_http_content_len;
use unit_wasm::rusty::uwr_get_http_content_sent;
use unit_wasm::rusty::uwr_get_http_content_str;
use unit_wasm::rusty::uwr_get_http_local_addr;
use unit_wasm::rusty::uwr_get_http_local_port;
use unit_wasm::rusty::uwr_get_http_method;
use unit_wasm::rusty::uwr_get_http_path;
use unit_wasm::rusty::uwr_get_http_query;
use unit_wasm::rusty::uwr_get_http_remote;
use unit_wasm::rusty::uwr_get_http_server_name;
use unit_wasm::rusty::uwr_get_http_total_content_sent;
use unit_wasm::rusty::uwr_get_http_version;
use unit_wasm::rusty::uwr_http_hdr_count;
use unit_wasm::rusty::uwr_http_hdr_field;
use unit_wasm::rusty::uwr_http_hdr_get_value;
use unit_wasm::rusty::uwr_http_hdr_iter_step;
use unit_wasm::rusty::uwr_http_is_tls;
use unit_wasm::rusty::uwr_init_ctx;
use unit_wasm::rusty::uwr_malloc;
use unit_wasm::rusty::uwr_req_buf_append;
use unit_wasm::rusty::uwr_req_buf_copy;
use unit_wasm::rusty::uwr_req_sent_content;
use unit_wasm::rusty::uwr_set_req_buf;
use unit_wasm::rusty::ReqLoc;
use unit_wasm::rusty::LUW_SRB_ALLOC;
use unit_wasm::rusty::LUW_SRB_APPEND;
use unit_wasm::rusty::LUW_SRB_FULL_SIZE;
use unit_wasm::rusty::LUW_SRB_NONE;
use unit_wasm::rusty::UWR_CTX_INITIALIZER;

struct Req<'a> {
    method: &'a str,
    version: &'a str,
    path: &'a str,
    query: &'a str,
    remote: &'a str,
    local_addr: &'a str,
    local_port: &'a str,
    server_name: &'a str,
    headers: Vec<(&'a str, &'a str)>,
    content: &'a [u8],
    content_len: u32,
    total_content_sent: u32,
    tls: bool,
}

fn put(b: &mut Vec<u8>, at: usize, v: u32) {
    b[at..at + 4].copy_from_slice(&v.to_le_bytes());
}

fn get(b: &[u8], at: usize) -> u32 {
    u32::from_le_bytes([b[at], b[at + 1], b[at + 2], b[at + 3]])
}

/// Lays out a request structure as the host does: the fixed fields, the
/// header fields, the NUL-terminated strings, then the body data.
fn build(r: &Req) -> Vec<u8> {
    let nr = r.headers.len();
    let start = 92 + 16 * nr;
    let mut b = vec![0u8; start];
    let add = |b: &mut Vec<u8>, s: &str| -> (u32, u32) {
        let off = b.len() as u32;
        b.extend_from_slice(s.as_bytes());
        b.push(0);
        (off, s.len() as u32)
    };
    let fields = [
        r.method,
        r.version,
        r.path,
        r.query,
        r.remote,
        r.local_addr,
        r.local_port,
        r.server_name,
    ];
    for (i, s) in fields.iter().enumerate() {
        let (off, len) = add(&mut b, s);
        put(&mut b, 8 * i, off);
        put(&mut b, 8 * i + 4, len);
    }
    for (i, (n, v)) in r.headers.iter().enumerate() {
        let (no, nl) = add(&mut b, n);
        let (vo, vl) = add(&mut b, v);
        let f = 92 + 16 * i;
        put(&mut b, f, no);
        put(&mut b, f + 4, nl);
        put(&mut b, f + 8, vo);
        put(&mut b, f + 12, vl);
    }
    let content_off = b.len() as u32;
    b.extend_from_slice(r.content);
    put(&mut b, 64, content_off);
    put(&mut b, 68, r.content_len);
    put(&mut b, 72, r.content.len() as u32);
    put(&mut b, 76, r.total_content_sent);
    let n = b.len() as u32;
    put(&mut b, 80, n);
    put(&mut b, 84, nr as u32);
    put(&mut b, 88, if r.tls { 1 } else { 0 });
    b
}

fn sample() -> Req<'static> {
    Req {
        method: "POST",
        version: "HTTP/1.1",
        path: "/echo/?q=a",
        query: "q=a",
        remote: "::1",
        local_addr: "::1",
        local_port: "8080",
        server_name: "localhost",
        headers: vec![
            ("Host", "localhost:8080"),
            ("User-Agent", "curl/8.0.1"),
            ("Content-Type", "application/x-www-form-urlencoded"),
            ("Content-Length", "11"),
        ],
        content: b"Hello World",
        content_len: 11,
        total_content_sent: 11,
        tls: false,
    }
}

/// Shared memory of `size` bytes holding `req` at its start.
fn memory(req: &[u8], size: usize) -> Vec<u8> {
    let mut m = req.to_vec();
    m.resize(size, 0);
    m
}

fn ctx_on(req: &[u8]) -> luw_ctx_t {
    let mut ctx = UWR_CTX_INITIALIZER();
    uwr_init_ctx(&mut ctx, memory(req, 8192), 4096);
    ctx
}

#[test]
fn request_info_is_read_from_the_request_structure() {
    let req = build(&sample());
    let ctx = ctx_on(&req);
    assert_eq!(uwr_get_http_path(&ctx), "/echo/?q=a");
    assert_eq!(uwr_get_http_method(&ctx), "POST");
    assert_eq!(uwr_get_http_version(&ctx), "HTTP/1.1");
    assert_eq!(uwr_get_http_query(&ctx), "q=a");
    assert_eq!(uwr_get_http_remote(&ctx), "::1");
    assert_eq!(uwr_get_http_local_addr(&ctx), "::1");
    assert_eq!(uwr_get_http_local_port(&ctx), "8080");
    assert_eq!(uwr_get_http_server_name(&ctx), "localhost");
}

#[test]
fn empty_query_string_reads_as_empty() {
    let mut r = sample();
    r.query = "";
    let ctx = ctx_on(&build(&r));
    assert_eq!(uwr_get_http_query(&ctx), "");
}

#[test]
fn non_ascii_strings_are_decoded_as_utf8() {
    let mut r = sample();
    r.server_name = "bücher.example";
    let ctx = ctx_on(&build(&r));
    assert_eq!(uwr_get_http_server_name(&ctx), "bücher.example");
}

#[test]
fn content_fields_and_tls() {
    let mut r = sample();
    r.content_len = 100;
    r.total_content_sent = 11;
    r.tls = true;
    let ctx = ctx_on(&build(&r));
    assert_eq!(uwr_get_http_content_len(&ctx), 100);
    assert_eq!(uwr_get_http_content_sent(&ctx), 11);
    assert_eq!(uwr_get_http_total_content_sent(&ctx), 11);
    assert!(uwr_http_is_tls(&ctx));
    assert_eq!(uwr_get_http_content_str(&ctx), "Hello World");
    let c = uwr_get_http_content(&ctx);
    assert_eq!(&c[..11], b"Hello World");
    assert_eq!(c.len(), 8192 - (get(&ctx.addr, 64) as usize));
}

#[test]
fn plain_connection_is_not_tls() {
    let ctx = ctx_on(&build(&sample()));
    assert!(!uwr_http_is_tls(&ctx));
}

#[test]
fn header_fields_are_listed_in_order() {
    let ctx = ctx_on(&build(&sample()));
    assert_eq!(uwr_http_hdr_count(&ctx), 4);
    assert_eq!(
        uwr_http_hdr_field(&ctx, 0),
        Some((b"Host".to_vec(), b"localhost:8080".to_vec()))
    );
    assert_eq!(
        uwr_http_hdr_field(&ctx, 3),
        Some((b"Content-Length".to_vec(), b"11".to_vec()))
    );
}

#[test]
fn unreadable_header_fields_give_none() {
    let mut r = sample();
    r.headers = vec![("X-Bad", "ok")];
    let mut req = build(&r);
    // a field slot past the end of the request
    assert_eq!(uwr_http_hdr_field(&ctx_on(&req), 100000), None);
    // a value that is not valid UTF-8 is handed over as it is
    let vo = get(&req, 92 + 8) as usize;
    req[vo] = 0xff;
    assert_eq!(
        uwr_http_hdr_field(&ctx_on(&req), 0),
        Some((b"X-Bad".to_vec(), vec![0xff, b'k']))
    );
    // a name offset past the end of the shared memory
    put(&mut req, 92, 100000);
    assert_eq!(uwr_http_hdr_field(&ctx_on(&req), 0), None);
}

#[test]
fn header_lookup_ignores_case() {
    let ctx = ctx_on(&build(&sample()));
    assert_eq!(
        uwr_http_hdr_get_value(&ctx, "content-type"),
        Some("application/x-www-form-urlencoded".to_string())
    );
    assert_eq!(
        uwr_http_hdr_get_value(&ctx, "CONTENT-TYPE"),
        Some("application/x-www-form-urlencoded".to_string())
    );
    assert_eq!(
        uwr_http_hdr_get_value(&ctx, "Content-Type"),
        Some("application/x-www-form-urlencoded".to_string())
    );
}

#[test]
fn header_lookup_misses() {
    let ctx = ctx_on(&build(&sample()));
    assert_eq!(uwr_http_hdr_get_value(&ctx, "Cookie"), None);
    // a prefix of a name is not the name
    assert_eq!(uwr_http_hdr_get_value(&ctx, "Content"), None);
}

#[test]
fn header_lookup_returns_the_first_match() {
    let mut r = sample();
    r.headers = vec![("X-A", "one"), ("x-a", "two")];
    let ctx = ctx_on(&build(&r));
    assert_eq!(uwr_http_hdr_get_value(&ctx, "X-a"), Some("one".to_string()));
}

#[test]
fn header_lookup_stops_the_name_at_a_nul() {
    let ctx = ctx_on(&build(&sample()));
    assert_eq!(uwr_http_hdr_get_value(&ctx, "host\0junk"), Some("localhost:8080".to_string()));
}

#[test]
fn sent_content_is_the_body_of_this_call() {
    let req = build(&sample());
    assert_eq!(uwr_req_sent_content(&req), b"Hello World");
}

#[test]
fn malloc_gives_zeroed_memory() {
    let b = uwr_malloc(16);
    assert_eq!(b, vec![0u8; 16]);
    uwr_free(b);
}

#[test]
fn set_req_buf_rejects_unknown_flags() {
    let mut ctx = ctx_on(&build(&sample()));
    let before = ctx.addr.clone();
    let mut buf = vec![1u8, 2, 3];
    assert_eq!(uwr_set_req_buf(&mut ctx, &mut buf, 0x08), -1);
    assert_eq!(buf, vec![1u8, 2, 3]);
    assert_eq!(ctx.req, ReqLoc::SharedMemory);
    assert_eq!(ctx.addr, before);
}

#[test]
fn set_req_buf_rejects_full_size_without_alloc() {
    let mut ctx = ctx_on(&build(&sample()));
    let mut buf = Vec::new();
    assert_eq!(uwr_set_req_buf(&mut ctx, &mut buf, LUW_SRB_FULL_SIZE), -1);
    assert_eq!(
        uwr_set_req_buf(&mut ctx, &mut buf, LUW_SRB_FULL_SIZE | LUW_SRB_APPEND),
        -1
    );
    assert_eq!(ctx.req, ReqLoc::SharedMemory);
}

#[test]
fn request_copy_reads_as_the_request() {
    let req = build(&sample());
    let mut ctx = ctx_on(&req);
    let mut buf = vec![0u8; req.len() + 10];
    assert_eq!(uwr_set_req_buf(&mut ctx, &mut buf, LUW_SRB_NONE), 0);
    assert_eq!(buf, ctx.req_buf);
    assert_eq!(ctx.req, ReqLoc::RequestBuffer);
    assert_eq!(ctx.req_buf.len(), req.len() + 10);
    assert_eq!(&ctx.req_buf[..req.len()], &req[..]);
    assert_eq!(ctx.reqp, 0);
    // the shared memory may now be reused for the response
    for b in ctx.addr.iter_mut() {
        *b = 0xff;
    }
    assert_eq!(uwr_get_http_path(&ctx), "/echo/?q=a");
    assert_eq!(uwr_get_http_method(&ctx), "POST");
    assert_eq!(
        uwr_http_hdr_get_value(&ctx, "host"),
        Some("localhost:8080".to_string())
    );
    assert_eq!(uwr_get_http_content_str(&ctx), "Hello World");
}

#[test]
fn alloc_sizes_the_copy_by_the_request() {
    let req = build(&sample());
    let mut ctx = ctx_on(&req);
    let mut buf = Vec::new();
    assert_eq!(uwr_set_req_buf(&mut ctx, &mut buf, LUW_SRB_ALLOC), 0);
    assert_eq!(ctx.req_buf, req);
    assert_eq!(buf, req);
    assert_eq!(ctx.reqp, 0);
}

#[test]
fn full_size_allocates_the_whole_request() {
    let mut r = sample();
    r.content_len = 30;
    let req = build(&r);
    let content_off = get(&req, 64) as usize;
    let mut ctx = ctx_on(&req);
    let mut buf = Vec::new();
    assert_eq!(
        uwr_set_req_buf(
            &mut ctx,
            &mut buf,
            LUW_SRB_APPEND | LUW_SRB_ALLOC | LUW_SRB_FULL_SIZE
        ),
        0
    );
    assert_eq!(ctx.req_buf.len(), content_off + 30);
    assert_eq!(&ctx.req_buf[..req.len()], &req[..]);
    assert_eq!(ctx.reqp, req.len());
}

/// A later request structure carrying only body data.
fn chunk(data: &[u8], total: u32) -> Vec<u8> {
    let mut b = vec![0u8; 92];
    b.extend_from_slice(data);
    put(&mut b, 64, 92);
    put(&mut b, 72, data.len() as u32);
    put(&mut b, 76, total);
    let n = b.len() as u32;
    put(&mut b, 80, n);
    b
}

#[test]
fn appended_chunks_follow_the_first_request() {
    let mut r = sample();
    r.content = b"abc";
    r.content_len = 9;
    r.total_content_sent = 3;
    let req = build(&r);
    let mut ctx = ctx_on(&req);
    let mut buf = Vec::new();
    assert_eq!(
        uwr_set_req_buf(
            &mut ctx,
            &mut buf,
            LUW_SRB_APPEND | LUW_SRB_ALLOC | LUW_SRB_FULL_SIZE
        ),
        0
    );
    uwr_req_buf_append(&mut ctx, &chunk(b"def", 6));
    assert_eq!(uwr_get_http_content_sent(&ctx), 3);
    assert_eq!(uwr_get_http_total_content_sent(&ctx), 6);
    uwr_req_buf_append(&mut ctx, &chunk(b"ghi", 9));
    assert_eq!(uwr_get_http_total_content_sent(&ctx), 9);
    assert_eq!(ctx.reqp, req.len() + 6);
    assert_eq!(uwr_get_http_content_str(&ctx), "abcdefghi");
}

#[test]
fn copy_overwrites_the_body() {
    let mut r = sample();
    r.content = b"abc";
    r.content_len = 6;
    r.total_content_sent = 3;
    let req = build(&r);
    let mut ctx = ctx_on(&req);
    let mut buf = vec![0u8; req.len()];
    assert_eq!(uwr_set_req_buf(&mut ctx, &mut buf, LUW_SRB_NONE), 0);
    uwr_req_buf_copy(&mut ctx, &chunk(b"xyz", 6));
    let off = get(&ctx.req_buf, 64) as usize;
    assert_eq!(&ctx.req_buf[off..off + 3], b"xyz");
    assert_eq!(uwr_get_http_content_sent(&ctx), 3);
    assert_eq!(uwr_get_http_total_content_sent(&ctx), 6);
    assert_eq!(ctx.reqp, 0);
}

#[test]
fn header_walk_stops_when_asked_or_at_the_end() {
    let ctx = ctx_on(&build(&sample()));
    assert_eq!(uwr_http_hdr_iter_step(&ctx, 0, true), Some(0));
    assert_eq!(uwr_http_hdr_iter_step(&ctx, 3, true), Some(3));
    assert_eq!(uwr_http_hdr_iter_step(&ctx, 4, true), None);
    assert_eq!(uwr_http_hdr_iter_step(&ctx, 1, false), None);
    // walking with a callback that stops after the second header
    let mut seen = Vec::new();
    let mut idx = 0u32;
    let mut go_on = true;
    while let Some(i) = uwr_http_hdr_iter_step(&ctx, idx, go_on) {
        let (name, _) = uwr_http_hdr_field(&ctx, i).unwrap();
        seen.push(name);
        go_on = seen.len() < 2;
        idx = i + 1;
    }
    assert_eq!(seen, vec![b"Host".to_vec(), b"User-Agent".to_vec()]);
}
