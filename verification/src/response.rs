//! Building the response in the shared memory: the response structure
//! `struct luw_resp` (a 32-bit size, then the data) and the response header
//! structure `struct luw_resp_hdr` (a 32-bit field count, then one
//! `struct luw_hdr_field` per header, then the header strings).

use vstd::prelude::*;
use vstd::string::StringSliceAdditionalSpecFns;
use crate::bytes::c_bytes;
use crate::bytes::c_view;
use crate::bytes::copy_into;
use crate::bytes::decimal;
use crate::bytes::le_u32;
use crate::bytes::lemma_c_view_no_nul;
use crate::bytes::lemma_le_u32_same;
use crate::bytes::lemma_splice_frame;
use crate::bytes::push_decimal;
use crate::bytes::put_le_u32;
use crate::bytes::read_le_u32;
use crate::bytes::splice;
use crate::bytes::write_le_u32;
use crate::ctx::luw_ctx_t;
use crate::ctx::resp_size;
use crate::ctx::CtxView;
use crate::ctx::ReqLoc;
use crate::ctx::RESP_DATA_START;
use crate::request::req_field;
use crate::request::FIELD_CONTENT_OFF;
use crate::request::FIELD_CONTENT_SENT;
use crate::request::HDR_FIELD_SIZE;

verus! {

/// Size of `struct luw_resp_hdr` before its fields: the 32-bit field count.
pub const RESP_HDR_FIELDS_START: usize = 4;

/// `n` more bytes of response data fit in the shared memory.
pub open spec fn mem_write_ready(c: CtxView, n: int) -> bool {
    c.resp_offset + RESP_DATA_START + c.mem + n <= c.addr.len()
}

/// The context after `data` is written to the response: the bytes go right
/// after the data written so far, the write position moves past them, and the
/// response size field grows by their number, in 32 bits.
pub open spec fn mem_write_view(c: CtxView, data: Seq<u8>) -> CtxView {
    CtxView {
        addr: put_le_u32(
            splice(c.addr, c.resp_offset + RESP_DATA_START + c.mem, data),
            c.resp_offset as int,
            ((resp_size(c) + data.len()) % 0x1_0000_0000) as u32,
        ),
        mem: (c.mem + data.len()) as usize,
        ..c
    }
}

/// Writes `data` to the response and returns the new response size.
fn mem_write_bytes(ctx: &mut luw_ctx_t, data: &[u8]) -> (size: usize)
    requires
        mem_write_ready(old(ctx)@, data@.len() as int),
    ensures
        final(ctx)@ == mem_write_view(old(ctx)@, data@),
        size == resp_size(final(ctx)@),
        size == (resp_size(old(ctx)@) + data@.len()) % 0x1_0000_0000,
{
    let _alen = ctx.addr.len();
    let ro = ctx.resp_offset;
    let old_size = read_le_u32(ctx.addr.as_slice(), ro);
    let n = data.len();
    let at = ro + RESP_DATA_START + ctx.mem;
    proof {
        lemma_splice_frame(ctx.addr@, at as int, data@);
        lemma_le_u32_same(splice(ctx.addr@, at as int, data@), ctx.addr@, ro as int);
    }
    copy_into(&mut ctx.addr, at, data);
    let low = (n as u64 % 0x1_0000_0000) as u64;
    let new_size = ((old_size as u64 + low) % 0x1_0000_0000) as u32;
    proof {
        vstd::arithmetic::div_mod::lemma_add_mod_noop_right(
            old_size as int,
            n as int,
            0x1_0000_0000,
        );
    }
    write_le_u32(&mut ctx.addr, ro, new_size);
    ctx.mem = ctx.mem + n;
    proof {
        crate::bytes::lemma_put_le_u32(
            splice(old(ctx)@.addr, at as int, data@),
            ro as int,
            new_size,
        );
    }
    new_size as usize
}

/// Writes the bytes of `src` to the response and returns the new response size.
pub fn uwr_mem_write_str(ctx: &mut luw_ctx_t, src: &str) -> (size: usize)
    requires
        mem_write_ready(old(ctx)@, src.spec_bytes().len() as int),
    ensures
        final(ctx)@ == mem_write_view(old(ctx)@, src.spec_bytes()),
        size == resp_size(final(ctx)@),
{
    mem_write_bytes(ctx, src.as_bytes())
}

/// Writes the first `size` bytes of `src` to the response and returns the
/// new response size.
pub fn uwr_mem_write_buf(ctx: &mut luw_ctx_t, src: &[u8], size: u64) -> (new_size: usize)
    requires
        size <= src@.len(),
        mem_write_ready(old(ctx)@, size as int),
    ensures
        final(ctx)@ == mem_write_view(old(ctx)@, src@.subrange(0, size as int)),
        new_size == resp_size(final(ctx)@),
{
    let _slen = src.len();
    let sz = size as usize;
    mem_write_bytes(ctx, &src[0..sz])
}

/// The size of the response data written so far.
pub fn uwr_get_response_data_size(ctx: &luw_ctx_t) -> (n: usize)
    ensures
        n == ctx@.mem,
{
    ctx.mem
}

/// The response size field and the response header count both lie in the
/// shared memory.
pub open spec fn mem_reset_ready(c: CtxView) -> bool {
    &&& c.resp_hdr is Some
    &&& c.resp_offset + RESP_DATA_START <= c.addr.len()
    &&& c.resp_hdr.unwrap() + RESP_HDR_FIELDS_START <= c.addr.len()
}

/// The context after a reset: no response data, response size 0, no
/// response headers.
pub open spec fn mem_reset_view(c: CtxView) -> CtxView {
    CtxView {
        addr: put_le_u32(put_le_u32(c.addr, c.resp_offset as int, 0), c.resp_hdr.unwrap() as int, 0),
        mem: 0,
        ..c
    }
}

/// Resets the response data size and the number of response headers to 0.
pub fn uwr_luw_mem_reset(ctx: &mut luw_ctx_t)
    requires
        mem_reset_ready(old(ctx)@),
    ensures
        final(ctx)@ == mem_reset_view(old(ctx)@),
{
    let h = match ctx.resp_hdr {
        Some(h) => h,
        None => 0,
    };
    let ro = ctx.resp_offset;
    ctx.mem = 0;
    write_le_u32(&mut ctx.addr, ro, 0);
    write_le_u32(&mut ctx.addr, h, 0);
}

/// The response header structure with room for `nr` fields fits in the
/// shared memory at `offset`.
pub open spec fn init_headers_ready(c: CtxView, nr: int, offset: int) -> bool {
    offset + RESP_HDR_FIELDS_START + HDR_FIELD_SIZE * nr <= c.addr.len()
}

/// The context after the response headers are set up for `nr` headers at
/// `offset`: the count field holds `nr`, header strings go after the `nr`
/// field slots, and no header has been added yet.
pub open spec fn init_headers_view(c: CtxView, nr: usize, offset: usize) -> CtxView {
    CtxView {
        addr: put_le_u32(c.addr, offset as int, nr as u32),
        resp_hdr: Some(offset),
        hdrp: (offset + RESP_HDR_FIELDS_START + HDR_FIELD_SIZE * nr) as usize,
        resp_hdr_idx: -1i32,
        ..c
    }
}

/// Sets up the response headers: `nr` headers, placed at `offset` in the
/// shared memory.
pub fn uwr_http_init_headers(ctx: &mut luw_ctx_t, nr: usize, offset: usize)
    requires
        init_headers_ready(old(ctx)@, nr as int, offset as int),
    ensures
        final(ctx)@ == init_headers_view(old(ctx)@, nr, offset),
{
    let _alen = ctx.addr.len();
    write_le_u32(&mut ctx.addr, offset, nr as u32);
    ctx.resp_hdr = Some(offset);
    ctx.hdrp = offset + RESP_HDR_FIELDS_START + HDR_FIELD_SIZE * nr;
    ctx.resp_hdr_idx = -1;
}

/// Position in the shared memory of the slot of response header `idx`.
pub open spec fn resp_field_pos(c: CtxView, idx: int) -> int {
    c.resp_hdr.unwrap() + RESP_HDR_FIELDS_START + HDR_FIELD_SIZE * idx
}

/// A header whose name and value have these lengths can be added: the
/// headers are set up, the next slot and the strings fit in the shared
/// memory, and the string position lies past the header structure's start.
pub open spec fn add_header_ready(c: CtxView, name_len: int, value_len: int) -> bool {
    &&& c.resp_hdr is Some
    &&& -1 <= c.resp_hdr_idx < 0x7fff_ffff
    &&& resp_field_pos(c, c.resp_hdr_idx + 1) + HDR_FIELD_SIZE <= c.addr.len()
    &&& c.resp_hdr.unwrap() <= c.hdrp
    &&& c.hdrp + name_len + value_len <= c.addr.len()
}

/// The context after a header is added: the next slot records the name's
/// offset (from the header structure) and length, the name goes to the string
/// position, then the slot records the value's offset and length and the
/// value follows the name; the string position moves past both.
pub open spec fn add_header_view(c: CtxView, name: Seq<u8>, value: Seq<u8>) -> CtxView {
    let h = c.resp_hdr.unwrap() as int;
    let idx = c.resp_hdr_idx + 1;
    let f = resp_field_pos(c, idx);
    let p0 = c.hdrp as int;
    let p1 = p0 + name.len();
    let a1 = put_le_u32(c.addr, f, (p0 - h) as u32);
    let a2 = put_le_u32(a1, f + 4, name.len() as u32);
    let a3 = splice(a2, p0, name);
    let a4 = put_le_u32(a3, f + 8, (p1 - h) as u32);
    let a5 = put_le_u32(a4, f + 12, value.len() as u32);
    let a6 = splice(a5, p1, value);
    CtxView { addr: a6, hdrp: (p1 + value.len()) as usize, resp_hdr_idx: idx as i32, ..c }
}

/// Adds a header whose name and value are exactly these bytes.
fn add_header_bytes(ctx: &mut luw_ctx_t, name: &[u8], value: &[u8])
    requires
        add_header_ready(old(ctx)@, name@.len() as int, value@.len() as int),
    ensures
        final(ctx)@ == add_header_view(old(ctx)@, name@, value@),
{
    let h = match ctx.resp_hdr {
        Some(h) => h,
        None => 0,
    };
    let _alen = ctx.addr.len();
    let idx = ctx.resp_hdr_idx + 1;
    let f = h + RESP_HDR_FIELDS_START + HDR_FIELD_SIZE * (idx as usize);
    let nlen = name.len();
    let vlen = value.len();
    let p0 = ctx.hdrp;
    write_le_u32(&mut ctx.addr, f, (p0 - h) as u32);
    write_le_u32(&mut ctx.addr, f + 4, nlen as u32);
    copy_into(&mut ctx.addr, p0, name);
    let p1 = p0 + nlen;
    write_le_u32(&mut ctx.addr, f + 8, (p1 - h) as u32);
    write_le_u32(&mut ctx.addr, f + 12, vlen as u32);
    copy_into(&mut ctx.addr, p1, value);
    ctx.hdrp = p1 + vlen;
    ctx.resp_hdr_idx = idx;
}

/// Adds a response header. As C strings, `name` and `value` end at their
/// first NUL, if they hold one.
pub fn uwr_http_add_header(ctx: &mut luw_ctx_t, name: &str, value: &str)
    requires
        add_header_ready(
            old(ctx)@,
            c_view(name.spec_bytes()).len() as int,
            c_view(value.spec_bytes()).len() as int,
        ),
    ensures
        final(ctx)@ == add_header_view(
            old(ctx)@,
            c_view(name.spec_bytes()),
            c_view(value.spec_bytes()),
        ),
{
    let n = c_bytes(name.as_bytes());
    let v = c_bytes(value.as_bytes());
    add_header_bytes(ctx, n.as_slice(), v.as_slice());
}

/// Adds the `Content-Type` response header.
pub fn uwr_http_add_header_content_type(ctx: &mut luw_ctx_t, ctype: &str)
    requires
        add_header_ready(
            old(ctx)@,
            c_view("Content-Type".spec_bytes()).len() as int,
            c_view(ctype.spec_bytes()).len() as int,
        ),
    ensures
        final(ctx)@ == add_header_view(
            old(ctx)@,
            c_view("Content-Type".spec_bytes()),
            c_view(ctype.spec_bytes()),
        ),
{
    uwr_http_add_header(ctx, "Content-Type", ctype);
}

proof fn lemma_decimal_digits(n: nat)
    ensures
        forall|i: int| 0 <= i < decimal(n).len() ==> 48 <= #[trigger] decimal(n)[i] <= 57,
    decreases n,
{
    if n >= 10 {
        lemma_decimal_digits(n / 10);
        let d = decimal(n);
        let p = decimal(n / 10);
        assert forall|i: int| 0 <= i < d.len() implies 48 <= #[trigger] d[i] <= 57 by {
            if i < p.len() {
                assert(d[i] == p[i]);
            }
        }
    }
}

/// Adds the `Content-Length` response header, whose value is the decimal size
/// of the response data written so far.
pub fn uwr_http_add_header_content_len(ctx: &mut luw_ctx_t)
    requires
        add_header_ready(
            old(ctx)@,
            c_view("Content-Length".spec_bytes()).len() as int,
            decimal(old(ctx)@.mem as nat).len() as int,
        ),
    ensures
        final(ctx)@ == add_header_view(
            old(ctx)@,
            c_view("Content-Length".spec_bytes()),
            decimal(old(ctx)@.mem as nat),
        ),
{
    let mut digits: Vec<u8> = Vec::new();
    push_decimal(ctx.mem, &mut digits);
    proof {
        assert(digits@ =~= decimal(ctx.mem as nat));
        lemma_decimal_digits(ctx.mem as nat);
        lemma_c_view_no_nul(digits@);
    }
    let n = c_bytes("Content-Length".as_bytes());
    let v = c_bytes(digits.as_slice());
    add_header_bytes(ctx, n.as_slice(), v.as_slice());
}

/// The offset of the response header structure in the shared memory, which
/// the host is given to send the headers.
pub fn uwr_http_send_headers(ctx: &luw_ctx_t) -> (offset: u32)
    requires
        ctx@.resp_hdr is Some,
    ensures
        offset == ctx@.resp_hdr.unwrap() as u32,
{
    match ctx.resp_hdr {
        Some(h) => h as u32,
        None => 0,
    }
}

/// The offset of the response structure in the shared memory, which the host
/// is given to send the response data.
pub fn uwr_http_send_response(ctx: &luw_ctx_t) -> (offset: u32)
    ensures
        offset == ctx@.resp_offset as u32,
{
    ctx.resp_offset as u32
}

/// How many bytes `uwr_mem_fill_buf_from_req` moves: the body data sent in
/// this call, at most `mem_size`.
pub open spec fn fill_size(c: CtxView, mem_size: u32) -> int {
    let sent = req_field(c.req_buf, FIELD_CONTENT_SENT as int);
    if sent > mem_size {
        mem_size as int
    } else {
        sent
    }
}

/// Where in the request copy `uwr_mem_fill_buf_from_req` starts reading.
pub open spec fn fill_start(c: CtxView, from: usize) -> int {
    req_field(c.req_buf, FIELD_CONTENT_OFF as int) + from
}

/// Filling the response from the request copy needs the copy, with its body
/// fields and the bytes to move, and room for them in the response.
pub open spec fn fill_ready(c: CtxView, from: usize, mem_size: u32) -> bool {
    &&& c.req == ReqLoc::RequestBuffer
    &&& FIELD_CONTENT_SENT + 4 <= c.req_buf.len()
    &&& fill_start(c, from) + fill_size(c, mem_size) <= c.req_buf.len()
    &&& c.resp_offset + RESP_DATA_START + fill_size(c, mem_size) <= c.addr.len()
}

/// The context after the response is filled from the request copy: the
/// response data is replaced by the moved bytes, and both the response size
/// field and the data size hold their number.
pub open spec fn fill_view(c: CtxView, from: usize, mem_size: u32) -> CtxView {
    let start = fill_start(c, from);
    let n = fill_size(c, mem_size);
    CtxView {
        addr: put_le_u32(
            splice(
                c.addr,
                c.resp_offset + RESP_DATA_START,
                c.req_buf.subrange(start, start + n),
            ),
            c.resp_offset as int,
            n as u32,
        ),
        mem: n as usize,
        ..c
    }
}

/// Replaces the response data with the body data of this call from the
/// request copy, starting `from` bytes into the copy's body and moving at most
/// `mem_size` bytes (the size of the shared memory). Returns the number of
/// bytes moved, which is then the size of the response data.
pub fn uwr_mem_fill_buf_from_req(ctx: &mut luw_ctx_t, from: usize, mem_size: u32) -> (n: usize)
    requires
        fill_ready(old(ctx)@, from, mem_size),
    ensures
        n == fill_size(old(ctx)@, mem_size),
        final(ctx)@ == fill_view(old(ctx)@, from, mem_size),
{
    let _blen = ctx.req_buf.len();
    let _alen = ctx.addr.len();
    let sent = read_le_u32(ctx.req_buf.as_slice(), FIELD_CONTENT_SENT);
    let write_bytes = if sent > mem_size {
        mem_size
    } else {
        sent
    };
    let start = read_le_u32(ctx.req_buf.as_slice(), FIELD_CONTENT_OFF) as usize + from;
    let n = write_bytes as usize;
    let ro = ctx.resp_offset;
    copy_into(&mut ctx.addr, ro + RESP_DATA_START, &ctx.req_buf.as_slice()[start..start + n]);
    write_le_u32(&mut ctx.addr, ro, write_bytes);
    ctx.mem = n;
    n
}

} // verus!
