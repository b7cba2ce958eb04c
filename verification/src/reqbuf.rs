//! Keeping a copy of the request across calls: setting the copy up, and
//! adding the body data that later calls bring.

use vstd::prelude::*;
use crate::bytes::copy_into;
use crate::bytes::copy_range;
use crate::bytes::put_le_u32;
use crate::bytes::read_le_u32;
use crate::bytes::splice;
use crate::bytes::write_le_u32;
use crate::ctx::luw_ctx_t;
use crate::ctx::req_bytes;
use crate::ctx::req_slice;
use crate::ctx::CtxView;
use crate::ctx::ReqLoc;
use crate::flags::srb_flags_valid;
use crate::flags::LUW_SRB_ALLOC;
use crate::flags::LUW_SRB_APPEND;
use crate::flags::LUW_SRB_FLAGS_ALL;
use crate::flags::LUW_SRB_FULL_SIZE;
use crate::request::req_field;
use crate::request::sent_content;
use crate::request::sent_content_ok;
use crate::request::FIELD_CONTENT_LEN;
use crate::request::FIELD_CONTENT_OFF;
use crate::request::FIELD_CONTENT_SENT;
use crate::request::FIELD_REQUEST_SIZE;
use crate::request::FIELD_TOTAL_CONTENT_SENT;

verus! {

/// `n` zero bytes.
pub open spec fn zeros(n: nat) -> Seq<u8> {
    Seq::new(n, |i: int| 0u8)
}

/// A buffer of `size` bytes, all zero.
pub fn uwr_malloc(size: u32) -> (buf: Vec<u8>)
    ensures
        buf@ == zeros(size as nat),
{
    let n = size as usize;
    let mut v: Vec<u8> = Vec::new();
    let mut i: usize = 0;
    while i < n
        invariant
            i <= n,
            n == size,
            v@ =~= zeros(i as nat),
        decreases n - i,
    {
        v.push(0u8);
        i = i + 1;
    }
    v
}

/// Releases a buffer: it is dropped here.
pub fn uwr_free(_buf: Vec<u8>) {
}

/// The number of request bytes that `uwr_set_req_buf` copies: the request
/// size that the current request structure `r` records.
pub open spec fn srb_copy_size(r: Seq<u8>) -> int {
    req_field(r, FIELD_REQUEST_SIZE as int)
}

/// The size of the buffer that `uwr_set_req_buf` allocates: the whole
/// request, `content_off + content_len` in 32 bits, with `LUW_SRB_FULL_SIZE`,
/// else the request size.
pub open spec fn srb_alloc_size(r: Seq<u8>, flags: u32) -> int {
    if flags & LUW_SRB_FULL_SIZE != 0 {
        (req_field(r, FIELD_CONTENT_OFF as int) + req_field(r, FIELD_CONTENT_LEN as int))
            % 0x1_0000_0000
    } else {
        srb_copy_size(r)
    }
}

/// What `uwr_set_req_buf` needs with valid flags: the request structure holds
/// the fields it reads, the shared memory holds the bytes it copies, and the
/// buffer it copies into is large enough.
pub open spec fn srb_ready(c: CtxView, buf_len: int, flags: u32) -> bool {
    let r = req_bytes(c);
    &&& FIELD_REQUEST_SIZE + 4 <= r.len()
    &&& srb_copy_size(r) <= c.addr.len()
    &&& if flags & LUW_SRB_ALLOC != 0 {
        srb_copy_size(r) <= srb_alloc_size(r, flags)
    } else {
        srb_copy_size(r) <= buf_len
    }
}

/// The context after `uwr_set_req_buf` succeeds: the request, as many bytes
/// as its size field says, is copied from the shared memory to the front of
/// the buffer (a new zeroed one with `LUW_SRB_ALLOC`, else `buf`), the
/// context reads the request from that copy, and in append mode later data
/// goes right after the copied bytes.
pub open spec fn set_req_buf_view(c: CtxView, buf: Seq<u8>, flags: u32) -> CtxView {
    let r = req_bytes(c);
    let n = srb_copy_size(r);
    let dest = if flags & LUW_SRB_ALLOC != 0 {
        zeros(srb_alloc_size(r, flags) as nat)
    } else {
        buf
    };
    CtxView {
        req_buf: splice(dest, 0, c.addr.subrange(0, n)),
        req: ReqLoc::RequestBuffer,
        reqp: if flags & LUW_SRB_APPEND != 0 {
            n as usize
        } else {
            0
        },
        ..c
    }
}

/// Takes a copy of the request into a buffer of the context's own and reads
/// the request from there from now on. The buffer is a new one with
/// `LUW_SRB_ALLOC` (sized by `LUW_SRB_FULL_SIZE` for the whole request), else
/// the one in `buf`. Either way `buf` then holds the copy as it stands after
/// the call; since each buffer has one owner, the context keeps its own, and
/// what later calls add to the copy is read through the context. With
/// `LUW_SRB_APPEND`, later calls of `uwr_req_buf_append` add their body data
/// after the copy.
/// Returns -1, changing nothing, on unknown flags or on `LUW_SRB_FULL_SIZE`
/// without `LUW_SRB_ALLOC`, else 0.
pub fn uwr_set_req_buf(ctx: &mut luw_ctx_t, buf: &mut Vec<u8>, flags: u32) -> (rc: i32)
    requires
        srb_flags_valid(flags) ==> srb_ready(old(ctx)@, old(buf)@.len() as int, flags),
    ensures
        rc == 0 || rc == -1,
        rc == 0 <==> srb_flags_valid(flags),
        rc == 0 ==> final(ctx)@ == set_req_buf_view(old(ctx)@, old(buf)@, flags),
        rc == 0 ==> final(buf)@ == final(ctx)@.req_buf,
        rc == -1 ==> final(ctx)@ == old(ctx)@ && final(buf)@ == old(buf)@,
{
    if flags & !LUW_SRB_FLAGS_ALL != 0 {
        return -1;
    }
    if flags & LUW_SRB_FULL_SIZE != 0 && flags & LUW_SRB_ALLOC == 0 {
        return -1;
    }
    let r = req_slice(ctx);
    let copy_bytes = read_le_u32(r, FIELD_REQUEST_SIZE);
    let alloc_size: u32 = if flags & LUW_SRB_FULL_SIZE != 0 {
        let off = read_le_u32(r, FIELD_CONTENT_OFF) as u64;
        let len = read_le_u32(r, FIELD_CONTENT_LEN) as u64;
        ((off + len) % 0x1_0000_0000) as u32
    } else {
        copy_bytes
    };
    let mut dest: Vec<u8> = if flags & LUW_SRB_ALLOC != 0 {
        uwr_malloc(alloc_size)
    } else {
        let mut d: Vec<u8> = Vec::new();
        std::mem::swap(&mut d, buf);
        d
    };
    let n = copy_bytes as usize;
    copy_into(&mut dest, 0, &ctx.addr.as_slice()[0..n]);
    ctx.req_buf = dest;
    ctx.req = ReqLoc::RequestBuffer;
    ctx.reqp = if flags & LUW_SRB_APPEND != 0 {
        n
    } else {
        0
    };
    let blen = ctx.req_buf.len();
    *buf = copy_range(ctx.req_buf.as_slice(), 0, blen);
    assert(buf@ =~= ctx.req_buf@);
    0
}

/// What appending the body data of `src` needs: the context reads the request
/// from its copy, which holds the fields to update and room for the data at
/// the append position, and `src` holds the data it describes.
pub open spec fn req_buf_append_ready(c: CtxView, src: Seq<u8>) -> bool {
    &&& c.req == ReqLoc::RequestBuffer
    &&& sent_content_ok(src)
    &&& FIELD_TOTAL_CONTENT_SENT + 4 <= c.req_buf.len()
    &&& c.reqp + req_field(src, FIELD_CONTENT_SENT as int) <= c.req_buf.len()
}

/// `b` with the body counters of the request structure set to those of `src`.
pub open spec fn with_sent_counters(b: Seq<u8>, src: Seq<u8>) -> Seq<u8> {
    put_le_u32(
        put_le_u32(
            b,
            FIELD_CONTENT_SENT as int,
            req_field(src, FIELD_CONTENT_SENT as int) as u32,
        ),
        FIELD_TOTAL_CONTENT_SENT as int,
        req_field(src, FIELD_TOTAL_CONTENT_SENT as int) as u32,
    )
}

/// The context after the body data of `src` is appended: the data lands at
/// the append position, which moves past it, and the copy's `content_sent`
/// and `total_content_sent` become those of `src`.
pub open spec fn req_buf_append_view(c: CtxView, src: Seq<u8>) -> CtxView {
    let data = sent_content(src);
    CtxView {
        req_buf: with_sent_counters(splice(c.req_buf, c.reqp as int, data), src),
        reqp: (c.reqp + data.len()) as usize,
        ..c
    }
}

/// Appends the body data carried by the request structure `src` to the
/// request copy.
pub fn uwr_req_buf_append(ctx: &mut luw_ctx_t, src: &[u8])
    requires
        req_buf_append_ready(old(ctx)@, src@),
    ensures
        final(ctx)@ == req_buf_append_view(old(ctx)@, src@),
{
    let off = read_le_u32(src, FIELD_CONTENT_OFF) as usize;
    let sent = read_le_u32(src, FIELD_CONTENT_SENT);
    let total = read_le_u32(src, FIELD_TOTAL_CONTENT_SENT);
    let _len = src.len();
    let n = sent as usize;
    let at = ctx.reqp;
    let _blen = ctx.req_buf.len();
    copy_into(&mut ctx.req_buf, at, &src[off..off + n]);
    ctx.reqp = at + n;
    write_le_u32(&mut ctx.req_buf, FIELD_CONTENT_SENT, sent);
    write_le_u32(&mut ctx.req_buf, FIELD_TOTAL_CONTENT_SENT, total);
}

/// What overwriting the copy's body with the body data of `src` needs: the
/// context reads the request from its copy, which holds the body fields and
/// room for the data at its body offset, and `src` holds the data it describes.
pub open spec fn req_buf_copy_ready(c: CtxView, src: Seq<u8>) -> bool {
    &&& c.req == ReqLoc::RequestBuffer
    &&& sent_content_ok(src)
    &&& FIELD_TOTAL_CONTENT_SENT + 4 <= c.req_buf.len()
    &&& req_field(c.req_buf, FIELD_CONTENT_OFF as int) + req_field(src, FIELD_CONTENT_SENT as int)
        <= c.req_buf.len()
}

/// The context after the copy's body is overwritten with the body data of
/// `src`: the data lands at the start of the copy's body, and the copy's
/// `content_sent` and `total_content_sent` become those of `src`.
pub open spec fn req_buf_copy_view(c: CtxView, src: Seq<u8>) -> CtxView {
    CtxView {
        req_buf: with_sent_counters(
            splice(
                c.req_buf,
                req_field(c.req_buf, FIELD_CONTENT_OFF as int),
                sent_content(src),
            ),
            src,
        ),
        ..c
    }
}

/// Overwrites the body of the request copy with the body data carried by the
/// request structure `src`, rather than appending it.
pub fn uwr_req_buf_copy(ctx: &mut luw_ctx_t, src: &[u8])
    requires
        req_buf_copy_ready(old(ctx)@, src@),
    ensures
        final(ctx)@ == req_buf_copy_view(old(ctx)@, src@),
{
    let off = read_le_u32(src, FIELD_CONTENT_OFF) as usize;
    let sent = read_le_u32(src, FIELD_CONTENT_SENT);
    let total = read_le_u32(src, FIELD_TOTAL_CONTENT_SENT);
    let _len = src.len();
    let n = sent as usize;
    let at = read_le_u32(ctx.req_buf.as_slice(), FIELD_CONTENT_OFF) as usize;
    copy_into(&mut ctx.req_buf, at, &src[off..off + n]);
    write_le_u32(&mut ctx.req_buf, FIELD_CONTENT_SENT, sent);
    write_le_u32(&mut ctx.req_buf, FIELD_TOTAL_CONTENT_SENT, total);
}

} // verus!
