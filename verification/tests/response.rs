use unit_wasm::rusty::luw_ctx_t;
use unit_wasm::rusty::luw_srb_flags_t;
use unit_wasm::rusty::uwr_get_http_total_content_sent;
use unit_wasm::rusty::uwr_get_response_data_size;
use unit_wasm::rusty::uwr_http_add_header;
use unit_wasm::rusty::uwr_http_add_header_content_len;
use unit_wasm::rusty::uwr_http_add_header_content_type;
use unit_wasm::rusty::uwr_http_init_headers;
use unit_wasm::rusty::uwr_http_send_headers;
use unit_wasm::rusty::uwr_http_send_response;
use unit_wasm::rusty::uwr_init_ctx;
use unit_wasm::rusty::uwr_luw_mem_reset;
use unit_wasm::rusty::uwr_mem_fill_buf_from_req;
use unit_wasm::rusty::uwr_mem_write_buf;
use unit_wasm::rusty::uwr_mem_write_str;
use unit_wasm::rusty::uwr_req_buf_append;
use unit_wasm::rusty::uwr_set_req_buf;
use unit_wasm::rusty::ReqLoc;
use unit_wasm::rusty::LUW_SRB_ALLOC;
use unit_wasm::rusty::LUW_SRB_APPEND;
use unit_wasm::rusty::LUW_SRB_FLAGS_ALL;
use unit_wasm::rusty::LUW_SRB_FULL_SIZE;
use unit_wasm::rusty::LUW_SRB_NONE;
use unit_wasm::rusty::LUW_VERSION_MAJOR;
use unit_wasm::rusty::LUW_VERSION_MINOR;
use unit_wasm::rusty::LUW_VERSION_NUMBER;
use unit_wasm::rusty::LUW_VERSION_PATCH;
use unit_wasm::rusty::UWR_CTX_INITIALIZER;

fn get(b: &[u8], at: usize) -> u32 {
    u32::from_le_bytes([b[at], b[at + 1], b[at + 2], b[at + 3]])
}

fn put(b: &mut Vec<u8>, at: usize, v: u32) {
    b[at..at + 4].copy_from_slice(&v.to_le_bytes());
}

/// A context on a shared memory of `size` bytes filled with 0xaa, the
/// response placed at `offset`.
fn ctx_with(size: usize, offset: usize) -> luw_ctx_t {
    let mut ctx = UWR_CTX_INITIALIZER();
    uwr_init_ctx(&mut ctx, vec![0xaau8; size], offset);
    ctx
}

/// The header `idx` of the response header structure at `h`, as the host reads it.
fn resp_header(addr: &[u8], h: usize, idx: usize) -> (Vec<u8>, Vec<u8>) {
    let f = h + 4 + 16 * idx;
    let no = get(addr, f) as usize;
    let nl = get(addr, f + 4) as usize;
    let vo = get(addr, f + 8) as usize;
    let vl = get(addr, f + 12) as usize;
    (
        addr[h + no..h + no + nl].to_vec(),
        addr[h + vo..h + vo + vl].to_vec(),
    )
}

#[test]
fn initializer_has_nothing_attached() {
    let ctx = UWR_CTX_INITIALIZER();
    assert!(ctx.addr.is_empty());
    assert!(ctx.req_buf.is_empty());
    assert_eq!(ctx.req, ReqLoc::NotSet);
    assert_eq!(ctx.resp_hdr, None);
    assert_eq!(ctx.resp_offset, 0);
    assert_eq!(ctx.mem, 0);
    assert_eq!(ctx.hdrp, 0);
    assert_eq!(ctx.reqp, 0);
    assert_eq!(ctx.resp_hdr_idx, -1);
}

#[test]
fn init_places_an_empty_response_at_the_offset() {
    let ctx = ctx_with(8192, 4096);
    assert_eq!(ctx.resp_offset, 4096);
    assert_eq!(get(&ctx.addr, 4096), 0);
    assert_eq!(ctx.addr[4100], 0xaa);
    assert_eq!(ctx.addr[0], 0xaa);
    assert_eq!(ctx.req, ReqLoc::SharedMemory);
    assert_eq!(ctx.resp_hdr_idx, -1);
    assert_eq!(uwr_get_response_data_size(&ctx), 0);
}

#[test]
fn writes_append_to_the_response() {
    let mut ctx = ctx_with(8192, 4096);
    assert_eq!(uwr_mem_write_str(&mut ctx, "Hello, "), 7);
    assert_eq!(uwr_mem_write_buf(&mut ctx, b"world!xyz", 6), 13);
    assert_eq!(uwr_get_response_data_size(&ctx), 13);
    assert_eq!(get(&ctx.addr, 4096), 13);
    assert_eq!(&ctx.addr[4100..4113], b"Hello, world!");
    assert_eq!(ctx.addr[4113], 0xaa);
}

#[test]
fn writing_nothing_changes_nothing_but_returns_the_size() {
    let mut ctx = ctx_with(64, 0);
    assert_eq!(uwr_mem_write_str(&mut ctx, "ab"), 2);
    assert_eq!(uwr_mem_write_str(&mut ctx, ""), 2);
    assert_eq!(uwr_mem_write_buf(&mut ctx, b"zzz", 0), 2);
    assert_eq!(uwr_get_response_data_size(&ctx), 2);
}

#[test]
fn reset_empties_the_response_and_the_headers() {
    let mut ctx = ctx_with(8192, 4096);
    uwr_http_init_headers(&mut ctx, 2, 0);
    uwr_mem_write_str(&mut ctx, "data");
    uwr_luw_mem_reset(&mut ctx);
    assert_eq!(uwr_get_response_data_size(&ctx), 0);
    assert_eq!(get(&ctx.addr, 4096), 0);
    assert_eq!(get(&ctx.addr, 0), 0);
    assert_eq!(uwr_mem_write_str(&mut ctx, "new"), 3);
    assert_eq!(&ctx.addr[4100..4103], b"new");
}

#[test]
fn headers_are_laid_out_for_the_host() {
    let mut ctx = ctx_with(8192, 4096);
    uwr_mem_write_str(&mut ctx, "Hello");
    uwr_http_init_headers(&mut ctx, 2, 0);
    assert_eq!(get(&ctx.addr, 0), 2);
    assert_eq!(ctx.resp_hdr, Some(0));
    assert_eq!(ctx.hdrp, 4 + 2 * 16);
    uwr_http_add_header_content_type(&mut ctx, "text/plain");
    uwr_http_add_header_content_len(&mut ctx);
    assert_eq!(ctx.resp_hdr_idx, 1);
    assert_eq!(
        resp_header(&ctx.addr, 0, 0),
        (b"Content-Type".to_vec(), b"text/plain".to_vec())
    );
    assert_eq!(
        resp_header(&ctx.addr, 0, 1),
        (b"Content-Length".to_vec(), b"5".to_vec())
    );
    // name then value, right after the field slots
    assert_eq!(&ctx.addr[36..48], b"Content-Type");
    assert_eq!(get(&ctx.addr, 4), 36);
    assert_eq!(get(&ctx.addr, 8), 12);
    assert_eq!(get(&ctx.addr, 12), 48);
    assert_eq!(get(&ctx.addr, 16), 10);
    assert_eq!(uwr_http_send_headers(&ctx), 0);
    assert_eq!(uwr_http_send_response(&ctx), 4096);
}

#[test]
fn header_offsets_are_from_the_header_structure() {
    let mut ctx = ctx_with(8192, 4096);
    uwr_http_init_headers(&mut ctx, 1, 100);
    uwr_http_add_header(&mut ctx, "X-Test", "yes");
    assert_eq!(get(&ctx.addr, 104), 20);
    assert_eq!(
        resp_header(&ctx.addr, 100, 0),
        (b"X-Test".to_vec(), b"yes".to_vec())
    );
    assert_eq!(uwr_http_send_headers(&ctx), 100);
}

#[test]
fn header_strings_end_at_a_nul() {
    let mut ctx = ctx_with(256, 128);
    uwr_http_init_headers(&mut ctx, 1, 0);
    uwr_http_add_header(&mut ctx, "A\0B", "v\0w");
    assert_eq!(resp_header(&ctx.addr, 0, 0), (b"A".to_vec(), b"v".to_vec()));
    assert_eq!(ctx.hdrp, 20 + 2);
}

#[test]
fn content_length_is_the_decimal_data_size() {
    let mut ctx = ctx_with(8192, 4096);
    let body = vec![b'x'; 1234];
    uwr_mem_write_buf(&mut ctx, &body, 1234);
    uwr_http_init_headers(&mut ctx, 1, 0);
    uwr_http_add_header_content_len(&mut ctx);
    assert_eq!(
        resp_header(&ctx.addr, 0, 0),
        (b"Content-Length".to_vec(), b"1234".to_vec())
    );
}

#[test]
fn content_length_of_an_empty_response_is_zero() {
    let mut ctx = ctx_with(256, 128);
    uwr_http_init_headers(&mut ctx, 1, 0);
    uwr_http_add_header_content_len(&mut ctx);
    assert_eq!(
        resp_header(&ctx.addr, 0, 0),
        (b"Content-Length".to_vec(), b"0".to_vec())
    );
}

/// A request structure with `body` as its content.
fn request_with_body(body: &[u8]) -> Vec<u8> {
    let mut b = vec![0u8; 92];
    b.extend_from_slice(body);
    put(&mut b, 64, 92);
    put(&mut b, 68, body.len() as u32);
    put(&mut b, 72, body.len() as u32);
    put(&mut b, 76, body.len() as u32);
    let n = b.len() as u32;
    put(&mut b, 80, n);
    b
}

#[test]
fn fill_moves_the_body_into_the_response() {
    let req = request_with_body(b"0123456789");
    let mut mem = req.clone();
    mem.resize(512, 0);
    let mut ctx = UWR_CTX_INITIALIZER();
    uwr_init_ctx(&mut ctx, mem, 256);
    let mut buf = Vec::new();
    assert_eq!(uwr_set_req_buf(&mut ctx, &mut buf, LUW_SRB_ALLOC), 0);
    assert_eq!(uwr_mem_fill_buf_from_req(&mut ctx, 0, 4096), 10);
    assert_eq!(&ctx.addr[260..270], b"0123456789");
    assert_eq!(get(&ctx.addr, 256), 10);
    assert_eq!(uwr_get_response_data_size(&ctx), 10);
}

#[test]
fn fill_replaces_earlier_response_data() {
    let req = request_with_body(b"0123456789");
    let mut mem = req.clone();
    mem.resize(512, 0);
    let mut ctx = UWR_CTX_INITIALIZER();
    uwr_init_ctx(&mut ctx, mem, 256);
    let mut buf = Vec::new();
    assert_eq!(uwr_set_req_buf(&mut ctx, &mut buf, LUW_SRB_ALLOC), 0);
    assert_eq!(uwr_mem_write_str(&mut ctx, "earlier data"), 12);
    assert_eq!(uwr_mem_fill_buf_from_req(&mut ctx, 0, 6), 6);
    assert_eq!(uwr_get_response_data_size(&ctx), 6);
    assert_eq!(get(&ctx.addr, 256), 6);
    assert_eq!(&ctx.addr[260..266], b"012345");
    // a later write appends after the filled data, and the size field agrees
    assert_eq!(uwr_mem_write_str(&mut ctx, "!"), 7);
    assert_eq!(uwr_get_response_data_size(&ctx), 7);
    assert_eq!(ctx.addr[266], b'!');
}

#[test]
fn fill_is_bounded_by_the_memory_size_and_starts_at_from() {
    let req = request_with_body(b"0123456789");
    let mut mem = req.clone();
    mem.resize(512, 0);
    let mut ctx = UWR_CTX_INITIALIZER();
    uwr_init_ctx(&mut ctx, mem, 256);
    let mut buf = vec![0u8; 200];
    assert_eq!(uwr_set_req_buf(&mut ctx, &mut buf, LUW_SRB_NONE), 0);
    assert_eq!(uwr_mem_fill_buf_from_req(&mut ctx, 2, 4), 4);
    assert_eq!(&ctx.addr[260..264], b"2345");
    assert_eq!(get(&ctx.addr, 256), 4);
}

#[test]
fn version_and_flag_constants() {
    assert_eq!(LUW_VERSION_MAJOR, 0);
    assert_eq!(LUW_VERSION_MINOR, 2);
    assert_eq!(LUW_VERSION_PATCH, 0);
    assert_eq!(LUW_VERSION_NUMBER, 0x0002_0000);
    assert_eq!(LUW_SRB_NONE, 0);
    assert_eq!(LUW_SRB_APPEND, 1);
    assert_eq!(LUW_SRB_ALLOC, 2);
    assert_eq!(LUW_SRB_FULL_SIZE, 4);
    assert_eq!(LUW_SRB_FLAGS_ALL, 7);
    assert_eq!(luw_srb_flags_t::LUW_SRB_FULL_SIZE.bits(), 4);
    assert_eq!(luw_srb_flags_t::LUW_SRB_FLAGS_ALL.bits(), 7);
    assert_eq!(luw_srb_flags_t::LUW_SRB_NONE.bits(), 0);
}

/// A request structure carrying `body` as one chunk of a body of `len`
/// bytes, of which `total` have been sent with this chunk.
fn chunk(body: &[u8], len: u32, total: u32) -> Vec<u8> {
    let mut b = request_with_body(body);
    put(&mut b, 68, len);
    put(&mut b, 76, total);
    b
}

#[test]
fn multiple_writes_add_up_from_init_and_after_reset() {
    let mut ctx = ctx_with(256, 0);
    uwr_http_init_headers(&mut ctx, 0, 128);
    assert_eq!(uwr_mem_write_str(&mut ctx, "ab"), 2);
    assert_eq!(uwr_mem_write_buf(&mut ctx, b"cdef", 3), 5);
    assert_eq!(uwr_mem_write_str(&mut ctx, ""), 5);
    assert_eq!(uwr_get_response_data_size(&ctx), 5);
    assert_eq!(&ctx.addr[4..9], b"abcde");
    uwr_luw_mem_reset(&mut ctx);
    assert_eq!(uwr_mem_write_str(&mut ctx, "xyz"), 3);
    assert_eq!(uwr_mem_write_str(&mut ctx, "w"), 4);
    assert_eq!(uwr_get_response_data_size(&ctx), 4);
    assert_eq!(get(&ctx.addr, 0), 4);
    assert_eq!(&ctx.addr[4..8], b"xyzw");
}

#[test]
fn upload_is_reflected_chunk_by_chunk() {
    let first = chunk(b"01234", 10, 5);
    let mut mem = first.clone();
    mem.resize(512, 0);
    let mut ctx = UWR_CTX_INITIALIZER();
    uwr_init_ctx(&mut ctx, mem, 256);
    let mut buf = Vec::new();
    let flags = LUW_SRB_APPEND | LUW_SRB_ALLOC | LUW_SRB_FULL_SIZE;
    assert_eq!(uwr_set_req_buf(&mut ctx, &mut buf, flags), 0);
    let mut sent = Vec::new();
    let mut s = uwr_mem_fill_buf_from_req(&mut ctx, 0, 4096);
    assert_eq!(s, 5);
    sent.extend_from_slice(&ctx.addr[260..260 + uwr_get_response_data_size(&ctx)]);
    assert_eq!(s as u64, uwr_get_http_total_content_sent(&ctx));
    uwr_req_buf_append(&mut ctx, &chunk(b"56789", 10, 10));
    let w = uwr_mem_fill_buf_from_req(&mut ctx, s, 4096);
    assert_eq!(w, 5);
    s += w;
    sent.extend_from_slice(&ctx.addr[260..260 + uwr_get_response_data_size(&ctx)]);
    assert_eq!(s as u64, uwr_get_http_total_content_sent(&ctx));
    assert_eq!(get(&ctx.addr, 256), 5);
    assert_eq!(sent, b"0123456789".to_vec());
}
