//! The context through which a module reads the request and builds its
//! response.
//!
//! The shared memory and the request copy are held as byte buffers, and
//! what the underlying interface keeps as pointers into them is kept here as
//! offsets.

use vstd::prelude::*;
use crate::bytes::le_u32;
use crate::bytes::put_le_u32;
use crate::bytes::write_le_u32;

verus! {

/// Which buffer holds the request structure that the context reads.
#[derive(Clone, Copy, PartialEq, Eq, Structural, Debug)]
pub enum ReqLoc {
    /// No request is attached yet.
    NotSet,
    /// The request is read in place, from the start of the shared memory.
    SharedMemory,
    /// The request is read from the copy in `req_buf`.
    RequestBuffer,
}

/// The context structure.
pub struct luw_ctx_t {
    /// The shared memory; empty until the context is initialised.
    pub addr: Vec<u8>,
    /// Number of response data bytes written so far, i.e. how far the write
    /// position is past the start of the response data.
    pub mem: usize,
    /// Which buffer holds the request structure.
    pub req: ReqLoc,
    /// Offset in the shared memory of the response header structure, once
    /// the response headers have been set up.
    pub resp_hdr: Option<usize>,
    /// Offset in the shared memory of the response structure.
    pub resp_offset: usize,
    /// The copy of the request, when one is kept.
    pub req_buf: Vec<u8>,
    /// Offset in the shared memory at which the next response header bytes go.
    pub hdrp: usize,
    /// Offset in the request copy at which appended request data goes.
    pub reqp: usize,
    /// Index of the last response header added; -1 before the first.
    pub resp_hdr_idx: i32,
}

/// The mathematical model of a context: its buffers as sequences.
pub struct CtxView {
    pub addr: Seq<u8>,
    pub mem: usize,
    pub req: ReqLoc,
    pub resp_hdr: Option<usize>,
    pub resp_offset: usize,
    pub req_buf: Seq<u8>,
    pub hdrp: usize,
    pub reqp: usize,
    pub resp_hdr_idx: i32,
}

impl View for luw_ctx_t {
    type V = CtxView;

    open spec fn view(&self) -> CtxView {
        CtxView {
            addr: self.addr@,
            mem: self.mem,
            req: self.req,
            resp_hdr: self.resp_hdr,
            resp_offset: self.resp_offset,
            req_buf: self.req_buf@,
            hdrp: self.hdrp,
            reqp: self.reqp,
            resp_hdr_idx: self.resp_hdr_idx,
        }
    }
}

/// Size of `struct luw_resp` before its data: the 32-bit `size` field.
pub const RESP_DATA_START: usize = 4;

/// A context with nothing attached: no memory, no request, no response.
pub open spec fn initial_view() -> CtxView {
    CtxView {
        addr: Seq::empty(),
        mem: 0,
        req: ReqLoc::NotSet,
        resp_hdr: None,
        resp_offset: 0,
        req_buf: Seq::empty(),
        hdrp: 0,
        reqp: 0,
        resp_hdr_idx: -1i32,
    }
}

/// The context right after it has been initialised on `addr` with the
/// response placed at `offset`: the request is read in place and the
/// response is empty, its size field set to 0.
pub open spec fn init_ctx_view(addr: Seq<u8>, offset: usize) -> CtxView {
    CtxView {
        addr: put_le_u32(addr, offset as int, 0),
        req: ReqLoc::SharedMemory,
        resp_offset: offset,
        ..initial_view()
    }
}

/// The bytes of the buffer that holds the request structure.
pub open spec fn req_bytes(c: CtxView) -> Seq<u8> {
    match c.req {
        ReqLoc::NotSet => Seq::empty(),
        ReqLoc::SharedMemory => c.addr,
        ReqLoc::RequestBuffer => c.req_buf,
    }
}

/// The response data written so far.
pub open spec fn resp_data(c: CtxView) -> Seq<u8> {
    c.addr.subrange(
        c.resp_offset + RESP_DATA_START,
        c.resp_offset + RESP_DATA_START + c.mem,
    )
}

/// The `size` field of the response structure in the shared memory.
pub open spec fn resp_size(c: CtxView) -> int {
    le_u32(c.addr, c.resp_offset as int)
}

/// Returns a context with nothing attached.
pub fn UWR_CTX_INITIALIZER() -> (ctx: luw_ctx_t)
    ensures
        ctx@ == initial_view(),
{
    luw_ctx_t {
        addr: Vec::new(),
        mem: 0,
        req: ReqLoc::NotSet,
        resp_hdr: None,
        resp_offset: 0,
        req_buf: Vec::new(),
        hdrp: 0,
        reqp: 0,
        resp_hdr_idx: -1,
    }
}

/// Sets up `ctx` on the shared memory `addr`, with the response structure at
/// `offset`: the request is read in place and the response starts empty.
pub fn uwr_init_ctx(ctx: &mut luw_ctx_t, addr: Vec<u8>, offset: usize)
    requires
        offset + RESP_DATA_START <= addr@.len(),
    ensures
        final(ctx)@ == init_ctx_view(addr@, offset),
{
    let mut c = UWR_CTX_INITIALIZER();
    c.addr = addr;
    c.req = ReqLoc::SharedMemory;
    c.resp_offset = offset;
    write_le_u32(&mut c.addr, offset, 0);
    *ctx = c;
}

/// The buffer that holds the request structure.
pub fn req_slice(ctx: &luw_ctx_t) -> (r: &[u8])
    ensures
        r@ == req_bytes(ctx@),
{
    match ctx.req {
        ReqLoc::SharedMemory => ctx.addr.as_slice(),
        ReqLoc::RequestBuffer => ctx.req_buf.as_slice(),
        ReqLoc::NotSet => {
            let s = ctx.addr.as_slice();
            let e = &s[0..0];
            assert(e@ =~= Seq::<u8>::empty());
            e
        },
    }
}

} // verus!
