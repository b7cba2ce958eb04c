//! Properties that hold across the operations of the library.

use vstd::prelude::*;
use crate::bytes::cstr_at;
use crate::bytes::cstr_len;
use crate::bytes::decimal;
use crate::bytes::le_u32;
use crate::bytes::lemma_le_u32_same;
use crate::bytes::lemma_put_le_u32;
use crate::bytes::lemma_splice_frame;
use crate::bytes::put_le_u32;
use crate::bytes::splice;
use crate::ctx::init_ctx_view;
use crate::ctx::req_bytes;
use crate::ctx::resp_data;
use crate::ctx::resp_size;
use crate::ctx::CtxView;
use crate::ctx::ReqLoc;
use crate::ctx::RESP_DATA_START;
use crate::flags::srb_flags_valid;
use crate::reqbuf::req_buf_append_ready;
use crate::reqbuf::req_buf_append_view;
use crate::reqbuf::set_req_buf_view;
use crate::reqbuf::srb_copy_size;
use crate::reqbuf::srb_ready;
use crate::request::ascii_lower;
use crate::request::eq_ignore_ascii_case;
use crate::request::hdr_lookup;
use crate::request::hdr_lookup_ok;
use crate::request::req_field;
use crate::request::req_string;
use crate::request::sent_content;
use crate::request::FIELD_NR_FIELDS;
use crate::request::FIELD_CONTENT_OFF;
use crate::request::FIELD_CONTENT_SENT;
use crate::request::sent_content_ok;
use crate::flags::LUW_SRB_APPEND;
use crate::request::FIELD_TOTAL_CONTENT_SENT;
use crate::response::add_header_ready;
use crate::response::add_header_view;
use crate::response::init_headers_ready;
use crate::response::init_headers_view;
use crate::response::mem_reset_ready;
use crate::response::mem_reset_view;
use crate::response::mem_write_ready;
use crate::response::mem_write_view;
use crate::response::fill_ready;
use crate::response::fill_size;
use crate::response::fill_start;
use crate::response::fill_view;
use crate::response::resp_field_pos;
use crate::response::RESP_HDR_FIELDS_START;

verus! {

/// The response size field agrees, in 32 bits, with the amount of response
/// data written.
pub open spec fn size_in_step(c: CtxView) -> bool {
    resp_size(c) == (c.mem as int) % 0x1_0000_0000
}

/// The name that the host reads for response header `idx` of the header
/// structure at `h`.
pub open spec fn resp_hdr_name(addr: Seq<u8>, h: int, idx: int) -> Seq<u8> {
    let f = h + RESP_HDR_FIELDS_START + 16 * idx;
    addr.subrange(h + le_u32(addr, f), h + le_u32(addr, f) + le_u32(addr, f + 4))
}

/// The value that the host reads for response header `idx` of the header
/// structure at `h`.
pub open spec fn resp_hdr_value(addr: Seq<u8>, h: int, idx: int) -> Seq<u8> {
    let f = h + RESP_HDR_FIELDS_START + 16 * idx;
    addr.subrange(h + le_u32(addr, f + 8), h + le_u32(addr, f + 8) + le_u32(addr, f + 12))
}

/// Right after initialisation the response holds no data and its size field
/// is 0.
pub proof fn law_init_empty_response(addr: Seq<u8>, offset: usize)
    requires
        offset + RESP_DATA_START <= addr.len(),
    ensures
        resp_data(init_ctx_view(addr, offset)) == Seq::<u8>::empty(),
        resp_size(init_ctx_view(addr, offset)) == 0,
        size_in_step(init_ctx_view(addr, offset)),
{
    lemma_put_le_u32(addr, offset as int, 0);
    assert(resp_data(init_ctx_view(addr, offset)) =~= Seq::<u8>::empty());
}

/// Writing to the response appends: the response data afterwards is the
/// data before followed by the bytes written, and the size field keeps in
/// step with the amount written.
pub proof fn law_write_appends(c: CtxView, data: Seq<u8>)
    requires
        mem_write_ready(c, data.len() as int),
        c.addr.len() <= usize::MAX,
    ensures
        resp_data(mem_write_view(c, data)) == resp_data(c) + data,
        resp_size(mem_write_view(c, data)) == (resp_size(c) + data.len()) % 0x1_0000_0000,
        size_in_step(c) ==> size_in_step(mem_write_view(c, data)),
        mem_write_view(c, data).mem == c.mem + data.len(),
{
    let at = c.resp_offset + RESP_DATA_START + c.mem;
    let s1 = splice(c.addr, at, data);
    let size = ((resp_size(c) + data.len()) % 0x1_0000_0000) as u32;
    lemma_splice_frame(c.addr, at, data);
    lemma_put_le_u32(s1, c.resp_offset as int, size);
    let c2 = mem_write_view(c, data);
    let d0 = c.resp_offset + RESP_DATA_START;
    assert(resp_data(c2) =~= resp_data(c) + data) by {
        assert forall|i: int| 0 <= i < c.mem + data.len() implies #[trigger] resp_data(c2)[i] == (
        resp_data(c) + data)[i] by {
            assert(resp_data(c2)[i] == c2.addr[d0 + i]);
            assert(c2.addr[d0 + i] == s1[d0 + i]);
            if i < c.mem {
                assert(s1[d0 + i] == c.addr[d0 + i]);
            } else {
                assert(s1.subrange(at, at + data.len())[i - c.mem] == data[i - c.mem]);
            }
        }
    }
    if size_in_step(c) {
        vstd::arithmetic::div_mod::lemma_add_mod_noop_right(
            data.len() as int,
            c.mem as int,
            0x1_0000_0000,
        );
    }
}

/// After a reset the response holds no data, its size field is 0 and the
/// response header count is 0.
pub proof fn law_reset_clears(c: CtxView)
    requires
        mem_reset_ready(c),
    ensures
        resp_data(mem_reset_view(c)) == Seq::<u8>::empty(),
        resp_size(mem_reset_view(c)) == 0,
        le_u32(mem_reset_view(c).addr, c.resp_hdr.unwrap() as int) == 0,
        size_in_step(mem_reset_view(c)),
{
    let h = c.resp_hdr.unwrap() as int;
    let ro = c.resp_offset as int;
    let a1 = put_le_u32(c.addr, ro, 0);
    let a2 = put_le_u32(a1, h, 0);
    lemma_put_le_u32(c.addr, ro, 0);
    lemma_put_le_u32(a1, h, 0);
    assert(a1[ro] == 0 && a1[ro + 1] == 0 && a1[ro + 2] == 0 && a1[ro + 3] == 0) by {
        assert(a1[ro] == (0u32 % 256) as u8);
    }
    assert(a2[ro] == 0 && a2[ro + 1] == 0 && a2[ro + 2] == 0 && a2[ro + 3] == 0) by {
        assert(a2[h] == 0 && a2[h + 1] == 0 && a2[h + 2] == 0 && a2[h + 3] == 0) by {
            assert(a2[h] == (0u32 % 256) as u8);
        }
    }
    assert(resp_data(mem_reset_view(c)) =~= Seq::<u8>::empty());
}

/// Setting up the response headers records the header count where the host
/// reads it.
pub proof fn law_headers_count(c: CtxView, nr: usize, offset: usize)
    requires
        init_headers_ready(c, nr as int, offset as int),
        nr < 0x1_0000_0000,
    ensures
        le_u32(init_headers_view(c, nr, offset).addr, offset as int) == nr,
{
    lemma_put_le_u32(c.addr, offset as int, nr as u32);
}

/// A header added after its slot (the strings lie past the slots, as after
/// `uwr_http_init_headers` with room for it) is what the host reads back from
/// that slot: the same name and the same value.
pub proof fn law_header_readback(c: CtxView, name: Seq<u8>, value: Seq<u8>)
    requires
        add_header_ready(c, name.len() as int, value.len() as int),
        resp_field_pos(c, c.resp_hdr_idx + 1) + 16 <= c.hdrp,
        c.hdrp + name.len() + value.len() - c.resp_hdr.unwrap() < 0x1_0000_0000,
        c.addr.len() <= usize::MAX,
    ensures
        resp_hdr_name(
            add_header_view(c, name, value).addr,
            c.resp_hdr.unwrap() as int,
            c.resp_hdr_idx + 1,
        ) == name,
        resp_hdr_value(
            add_header_view(c, name, value).addr,
            c.resp_hdr.unwrap() as int,
            c.resp_hdr_idx + 1,
        ) == value,
        add_header_view(c, name, value).resp_hdr_idx == c.resp_hdr_idx + 1,
        add_header_view(c, name, value).hdrp == c.hdrp + name.len() + value.len(),
        le_u32(add_header_view(c, name, value).addr, resp_field_pos(c, c.resp_hdr_idx + 1))
            == c.hdrp - c.resp_hdr.unwrap(),
        le_u32(add_header_view(c, name, value).addr, resp_field_pos(c, c.resp_hdr_idx + 1) + 4)
            == name.len(),
        le_u32(add_header_view(c, name, value).addr, resp_field_pos(c, c.resp_hdr_idx + 1) + 8)
            == c.hdrp + name.len() - c.resp_hdr.unwrap(),
        le_u32(add_header_view(c, name, value).addr, resp_field_pos(c, c.resp_hdr_idx + 1) + 12)
            == value.len(),
{
    let h = c.resp_hdr.unwrap() as int;
    let idx = c.resp_hdr_idx + 1;
    let f = resp_field_pos(c, idx);
    let p0 = c.hdrp as int;
    let p1 = p0 + name.len();
    let a1 = put_le_u32(c.addr, f, (p0 - h) as u32);
    let a2 = put_le_u32(a1, f + 4, name.len() as u32);
    let a3 = splice(a2, p0, name);
    let a4 = put_le_u32(a3, f + 8, (p1 - h) as u32);
    let a5 = put_le_u32(a4, f + 12, value.len() as u32);
    let a6 = splice(a5, p1, value);
    lemma_put_le_u32(c.addr, f, (p0 - h) as u32);
    lemma_put_le_u32(a1, f + 4, name.len() as u32);
    lemma_splice_frame(a2, p0, name);
    lemma_put_le_u32(a3, f + 8, (p1 - h) as u32);
    lemma_put_le_u32(a4, f + 12, value.len() as u32);
    lemma_splice_frame(a5, p1, value);
    assert(a6 == add_header_view(c, name, value).addr);
    // the slot's name fields survive the later writes
    lemma_le_u32_same(a1, a2, f);
    lemma_le_u32_same(a2, a3, f);
    lemma_le_u32_same(a3, a4, f);
    lemma_le_u32_same(a4, a5, f);
    lemma_le_u32_same(a5, a6, f);
    lemma_le_u32_same(a2, a3, f + 4);
    lemma_le_u32_same(a3, a4, f + 4);
    lemma_le_u32_same(a4, a5, f + 4);
    lemma_le_u32_same(a5, a6, f + 4);
    lemma_le_u32_same(a4, a5, f + 8);
    lemma_le_u32_same(a5, a6, f + 8);
    lemma_le_u32_same(a5, a6, f + 12);
    assert(le_u32(a6, f) == p0 - h);
    assert(le_u32(a6, f + 4) == name.len());
    assert(le_u32(a6, f + 8) == p1 - h);
    assert(le_u32(a6, f + 12) == value.len());
    // the name survives the later writes
    assert(a6.subrange(p0, p1) =~= name) by {
        assert forall|i: int| 0 <= i < name.len() implies a6[p0 + i] == name[i] by {
            assert(a3.subrange(p0, p1)[i] == name[i]);
            assert(a3[p0 + i] == name[i]);
        }
    }
    assert(a6.subrange(p1, p1 + value.len()) =~= value);
    assert(RESP_HDR_FIELDS_START + 16 * idx == f - h);
}

/// Looking a request header up does not depend on the case of the ASCII
/// letters of the name looked for.
pub proof fn law_lookup_ignores_case(r: Seq<u8>, t1: Seq<u8>, t2: Seq<u8>, i: nat)
    requires
        eq_ignore_ascii_case(t1, t2),
    ensures
        hdr_lookup(r, t1, i) == hdr_lookup(r, t2, i),
        hdr_lookup_ok(r, t1, i) == hdr_lookup_ok(r, t2, i),
    decreases req_field(r, FIELD_NR_FIELDS as int) - i,
{
    if i < req_field(r, FIELD_NR_FIELDS as int) {
        let n = crate::request::req_hdr_name(r, i as int);
        assert(eq_ignore_ascii_case(n, t1) == eq_ignore_ascii_case(n, t2)) by {
            if eq_ignore_ascii_case(n, t1) {
                assert forall|k: int| 0 <= k < n.len() implies ascii_lower(#[trigger] n[k])
                    == ascii_lower(t2[k]) by {
                    assert(ascii_lower(n[k]) == ascii_lower(t1[k]));
                    assert(ascii_lower(t1[k]) == ascii_lower(t2[k]));
                }
            }
            if eq_ignore_ascii_case(n, t2) {
                assert forall|k: int| 0 <= k < n.len() implies ascii_lower(#[trigger] n[k])
                    == ascii_lower(t1[k]) by {
                    assert(ascii_lower(n[k]) == ascii_lower(t2[k]));
                    assert(ascii_lower(t1[k]) == ascii_lower(t2[k]));
                }
            }
        }
        law_lookup_ignores_case(r, t1, t2, i + 1);
    }
}

proof fn lemma_cstr_len_agree(a: Seq<u8>, b: Seq<u8>, off: int)
    requires
        0 <= off,
        off + cstr_len(a, off) < a.len(),
        off + cstr_len(a, off) < b.len(),
        forall|k: int| off <= k <= off + cstr_len(a, off) ==> a[k] == b[k],
    ensures
        cstr_len(b, off) == cstr_len(a, off),
    decreases a.len() - off,
{
    if a[off] != 0 {
        lemma_cstr_len_agree(a, b, off + 1);
    }
}

/// The request copy reads as the request did: after `uwr_set_req_buf`
/// succeeds on a context that read the request in place, every field within
/// the copied bytes holds the same value, and every string whose bytes and
/// terminating NUL lie within them reads the same.
pub proof fn law_copy_reads_same(c: CtxView, buf: Seq<u8>, flags: u32, at: int)
    requires
        c.req == ReqLoc::SharedMemory,
        srb_flags_valid(flags),
        srb_ready(c, buf.len() as int, flags),
        0 <= at,
        at + 4 <= srb_copy_size(req_bytes(c)),
    ensures
        req_field(req_bytes(set_req_buf_view(c, buf, flags)), at) == req_field(req_bytes(c), at),
        req_field(req_bytes(c), at) + cstr_len(req_bytes(c), req_field(req_bytes(c), at))
            < srb_copy_size(req_bytes(c)) ==> req_string(
            req_bytes(set_req_buf_view(c, buf, flags)),
            at,
        ) == req_string(req_bytes(c), at),
{
    let r = req_bytes(c);
    let n = srb_copy_size(r);
    let c2 = set_req_buf_view(c, buf, flags);
    let r2 = req_bytes(c2);
    let dest = if flags & crate::flags::LUW_SRB_ALLOC != 0 {
        crate::reqbuf::zeros(crate::reqbuf::srb_alloc_size(r, flags) as nat)
    } else {
        buf
    };
    lemma_splice_frame(dest, 0, c.addr.subrange(0, n));
    assert(r2 == splice(dest, 0, c.addr.subrange(0, n)));
    assert forall|k: int| 0 <= k < n implies r2[k] == r[k] by {
        assert(r2.subrange(0, n)[k] == c.addr.subrange(0, n)[k]);
    }
    lemma_le_u32_same(r, r2, at);
    let off = req_field(r, at);
    if off + cstr_len(r, off) < n {
        lemma_cstr_len_agree(r, r2, off);
        assert(cstr_at(r2, off) =~= cstr_at(r, off));
    }
}

/// Appending extends what has been appended: the bytes of the copy from any
/// position `s` past the body counters up to the append position are, after
/// an append, those before followed by the appended data. Chained over calls,
/// the bytes appended since `uwr_set_req_buf` are the chunks in order.
pub proof fn law_appends_concatenate(c: CtxView, src: Seq<u8>, s: int)
    requires
        req_buf_append_ready(c, src),
        c.req_buf.len() <= usize::MAX,
        FIELD_TOTAL_CONTENT_SENT + 4 <= s <= c.reqp,
    ensures
        req_buf_append_view(c, src).req_buf.subrange(s, req_buf_append_view(c, src).reqp as int)
            == c.req_buf.subrange(s, c.reqp as int) + sent_content(src),
{
    let data = sent_content(src);
    let b1 = splice(c.req_buf, c.reqp as int, data);
    lemma_splice_frame(c.req_buf, c.reqp as int, data);
    let b2 = put_le_u32(
        b1,
        crate::request::FIELD_CONTENT_SENT as int,
        req_field(src, crate::request::FIELD_CONTENT_SENT as int) as u32,
    );
    lemma_put_le_u32(
        b1,
        crate::request::FIELD_CONTENT_SENT as int,
        req_field(src, crate::request::FIELD_CONTENT_SENT as int) as u32,
    );
    let b3 = put_le_u32(
        b2,
        FIELD_TOTAL_CONTENT_SENT as int,
        req_field(src, FIELD_TOTAL_CONTENT_SENT as int) as u32,
    );
    lemma_put_le_u32(
        b2,
        FIELD_TOTAL_CONTENT_SENT as int,
        req_field(src, FIELD_TOTAL_CONTENT_SENT as int) as u32,
    );
    assert(b3 == req_buf_append_view(c, src).req_buf);
    let e = c.reqp + data.len();
    assert(b3.subrange(s, e) =~= c.req_buf.subrange(s, c.reqp as int) + data) by {
        assert forall|i: int| 0 <= i < e - s implies #[trigger] b3.subrange(s, e)[i] == (
        c.req_buf.subrange(s, c.reqp as int) + data)[i] by {
            assert(b3[s + i] == b1[s + i]);
            if s + i < c.reqp {
            } else {
                assert(b1.subrange(c.reqp as int, e)[s + i - c.reqp] == data[s + i - c.reqp]);
            }
        }
    }
}

/// The number that a run of ASCII decimal digits denotes.
pub open spec fn decimal_value(s: Seq<u8>) -> int
    decreases s.len(),
{
    if s.len() == 0 {
        0
    } else {
        decimal_value(s.drop_last()) * 10 + (s.last() - 48)
    }
}

/// The decimal digits written for a number (as in the `Content-Length`
/// header) denote that number.
pub proof fn law_decimal_reads_back(n: nat)
    ensures
        decimal_value(decimal(n)) == n,
    decreases n,
{
    if n >= 10 {
        law_decimal_reads_back(n / 10);
        assert(decimal(n).drop_last() =~= decimal(n / 10));
        assert(n % 10 < 10);
        assert(decimal(n).last() == 48 + n % 10);
        assert(n == (n / 10) * 10 + n % 10);
        assert(decimal_value(decimal(n)) == decimal_value(decimal(n / 10)) * 10 + (n % 10));
    } else {
        assert(decimal(n).drop_last() =~= Seq::<u8>::empty());
        assert(decimal(n).last() == 48 + n);
        assert(decimal_value(Seq::<u8>::empty()) == 0);
        assert(decimal_value(decimal(n)) == decimal_value(Seq::<u8>::empty()) * 10 + n);
    }
}

/// Filling the response from the request copy replaces the response data by
/// the moved bytes; the data size and the size field both become their number.
pub proof fn law_fill_replaces(c: CtxView, from: usize, mem_size: u32)
    requires
        fill_ready(c, from, mem_size),
    ensures
        resp_data(fill_view(c, from, mem_size)) == c.req_buf.subrange(
            fill_start(c, from),
            fill_start(c, from) + fill_size(c, mem_size),
        ),
        fill_view(c, from, mem_size).mem == fill_size(c, mem_size),
        resp_size(fill_view(c, from, mem_size)) == fill_size(c, mem_size),
        size_in_step(fill_view(c, from, mem_size)),
{
    let start = fill_start(c, from);
    let n = fill_size(c, mem_size);
    let chunk = c.req_buf.subrange(start, start + n);
    let at = c.resp_offset + RESP_DATA_START;
    let s1 = splice(c.addr, at, chunk);
    lemma_splice_frame(c.addr, at, chunk);
    lemma_put_le_u32(s1, c.resp_offset as int, n as u32);
    let c2 = fill_view(c, from, mem_size);
    assert(resp_data(c2) =~= chunk) by {
        assert forall|i: int| 0 <= i < n implies #[trigger] resp_data(c2)[i] == chunk[i] by {
            assert(resp_data(c2)[i] == c2.addr[at + i]);
            assert(s1.subrange(at, at + n)[i] == chunk[i]);
        }
    }
}

/// The concatenation of the byte strings of `ws`, in order.
pub open spec fn concat_all(ws: Seq<Seq<u8>>) -> Seq<u8>
    decreases ws.len(),
{
    if ws.len() == 0 {
        Seq::empty()
    } else {
        concat_all(ws.drop_last()) + ws.last()
    }
}

/// The total length of the byte strings of `ws`.
pub open spec fn total_len(ws: Seq<Seq<u8>>) -> int
    decreases ws.len(),
{
    if ws.len() == 0 {
        0
    } else {
        total_len(ws.drop_last()) + ws.last().len()
    }
}

/// The context after the byte strings of `ws` are written to the response,
/// one after the other.
pub open spec fn writes_view(c: CtxView, ws: Seq<Seq<u8>>) -> CtxView
    decreases ws.len(),
{
    if ws.len() == 0 {
        c
    } else {
        mem_write_view(writes_view(c, ws.drop_last()), ws.last())
    }
}

proof fn lemma_total_len_nonneg(ws: Seq<Seq<u8>>)
    ensures
        total_len(ws) >= 0,
        concat_all(ws).len() == total_len(ws),
    decreases ws.len(),
{
    if ws.len() > 0 {
        lemma_total_len_nonneg(ws.drop_last());
    }
}

/// A run of writes adds up: the data size grows by the total length written,
/// the response data is the data before followed by the writes in order, and
/// the size field stays in step. From initialisation or a reset (data size 0,
/// no data) the data size is the sum of the lengths written.
pub proof fn law_writes_add_up(c: CtxView, ws: Seq<Seq<u8>>)
    requires
        c.resp_offset + RESP_DATA_START + c.mem + total_len(ws) <= c.addr.len(),
        c.addr.len() <= usize::MAX,
    ensures
        writes_view(c, ws).mem == c.mem + total_len(ws),
        resp_data(writes_view(c, ws)) == resp_data(c) + concat_all(ws),
        size_in_step(c) ==> size_in_step(writes_view(c, ws)),
        writes_view(c, ws).addr.len() == c.addr.len(),
        writes_view(c, ws).resp_offset == c.resp_offset,
    decreases ws.len(),
{
    lemma_total_len_nonneg(ws);
    if ws.len() == 0 {
        assert(resp_data(c) + concat_all(ws) =~= resp_data(c));
    } else {
        let prev = ws.drop_last();
        lemma_total_len_nonneg(prev);
        law_writes_add_up(c, prev);
        let c1 = writes_view(c, prev);
        let at = c1.resp_offset + RESP_DATA_START + c1.mem;
        lemma_splice_frame(c1.addr, at, ws.last());
        law_write_appends(c1, ws.last());
        lemma_put_le_u32(
            splice(c1.addr, at, ws.last()),
            c1.resp_offset as int,
            ((resp_size(c1) + ws.last().len()) % 0x1_0000_0000) as u32,
        );
        assert(resp_data(c) + concat_all(ws) =~= resp_data(c) + concat_all(prev) + ws.last());
    }
}

/// From initialisation, the data size is the sum of the lengths written, the
/// response data is the writes in order, and the size field stays in step.
pub proof fn law_writes_from_init(addr: Seq<u8>, offset: usize, ws: Seq<Seq<u8>>)
    requires
        offset + RESP_DATA_START + total_len(ws) <= addr.len(),
        addr.len() <= usize::MAX,
    ensures
        writes_view(init_ctx_view(addr, offset), ws).mem == total_len(ws),
        resp_data(writes_view(init_ctx_view(addr, offset), ws)) == concat_all(ws),
        size_in_step(writes_view(init_ctx_view(addr, offset), ws)),
{
    let c = init_ctx_view(addr, offset);
    lemma_total_len_nonneg(ws);
    law_init_empty_response(addr, offset);
    lemma_put_le_u32(addr, offset as int, 0);
    law_writes_add_up(c, ws);
    assert(resp_data(c) + concat_all(ws) =~= concat_all(ws));
}

/// After a reset, the data size is the sum of the lengths written since, the
/// response data is those writes in order, and the size field stays in step.
pub proof fn law_writes_after_reset(c: CtxView, ws: Seq<Seq<u8>>)
    requires
        mem_reset_ready(c),
        c.resp_offset + RESP_DATA_START + total_len(ws) <= c.addr.len(),
        c.addr.len() <= usize::MAX,
    ensures
        writes_view(mem_reset_view(c), ws).mem == total_len(ws),
        resp_data(writes_view(mem_reset_view(c), ws)) == concat_all(ws),
        size_in_step(writes_view(mem_reset_view(c), ws)),
{
    let c0 = mem_reset_view(c);
    lemma_total_len_nonneg(ws);
    law_reset_clears(c);
    lemma_put_le_u32(c.addr, c.resp_offset as int, 0);
    lemma_put_le_u32(put_le_u32(c.addr, c.resp_offset as int, 0), c.resp_hdr.unwrap() as int, 0);
    law_writes_add_up(c0, ws);
    assert(resp_data(c0) + concat_all(ws) =~= concat_all(ws));
}

/// The response size field and the data size stay in step: initialisation,
/// a reset and a fill from the request copy put them in step, and a write
/// keeps them so.
pub proof fn law_size_stays_in_step(
    c: CtxView,
    data: Seq<u8>,
    from: usize,
    mem_size: u32,
    addr: Seq<u8>,
    offset: usize,
)
    ensures
        offset + RESP_DATA_START <= addr.len() ==> size_in_step(init_ctx_view(addr, offset)),
        size_in_step(c) && mem_write_ready(c, data.len() as int) && c.addr.len() <= usize::MAX
            ==> size_in_step(mem_write_view(c, data)),
        mem_reset_ready(c) ==> size_in_step(mem_reset_view(c)),
        fill_ready(c, from, mem_size) ==> size_in_step(fill_view(c, from, mem_size)),
{
    if offset + RESP_DATA_START <= addr.len() {
        law_init_empty_response(addr, offset);
    }
    if size_in_step(c) && mem_write_ready(c, data.len() as int) && c.addr.len() <= usize::MAX {
        law_write_appends(c, data);
    }
    if mem_reset_ready(c) {
        law_reset_clears(c);
    }
    if fill_ready(c, from, mem_size) {
        law_fill_replaces(c, from, mem_size);
    }
}

/// The headers, name and value, that the host reads from the first `k` slots
/// of the response header structure at `h`.
pub open spec fn resp_hdr_table(addr: Seq<u8>, h: int, k: int) -> Seq<(Seq<u8>, Seq<u8>)> {
    Seq::new(k as nat, |j: int| (resp_hdr_name(addr, h, j), resp_hdr_value(addr, h, j)))
}

/// Position of the first header string: right after the slots that the
/// header count makes room for.
pub open spec fn resp_hdr_strings(c: CtxView) -> int {
    let h = c.resp_hdr.unwrap() as int;
    h + RESP_HDR_FIELDS_START + 16 * le_u32(c.addr, h)
}

/// The name and value of slot `j` lie among the header strings written so far.
pub open spec fn resp_slot_in(c: CtxView, j: int) -> bool {
    let h = c.resp_hdr.unwrap() as int;
    let f = h + RESP_HDR_FIELDS_START + 16 * j;
    &&& resp_hdr_strings(c) <= h + le_u32(c.addr, f)
    &&& h + le_u32(c.addr, f) + le_u32(c.addr, f + 4) <= c.hdrp
    &&& resp_hdr_strings(c) <= h + le_u32(c.addr, f + 8)
    &&& h + le_u32(c.addr, f + 8) + le_u32(c.addr, f + 12) <= c.hdrp
}

/// The response header structure is laid out as the host reads it: the
/// headers added so far fit the count, their slots come first, and each
/// slot's strings lie after all the slots and before the string position.
pub open spec fn hdr_table_ok(c: CtxView) -> bool {
    &&& c.resp_hdr is Some
    &&& c.resp_hdr.unwrap() + RESP_HDR_FIELDS_START <= c.addr.len()
    &&& -1 <= c.resp_hdr_idx
    &&& c.resp_hdr_idx + 1 <= le_u32(c.addr, c.resp_hdr.unwrap() as int)
    &&& resp_hdr_strings(c) <= c.hdrp <= c.addr.len()
    &&& forall|j: int| 0 <= j <= c.resp_hdr_idx ==> #[trigger] resp_slot_in(c, j)
}

/// Setting up the response headers gives an empty, well laid out header table.
pub proof fn law_headers_init_table(c: CtxView, nr: usize, offset: usize)
    requires
        init_headers_ready(c, nr as int, offset as int),
        nr < 0x1_0000_0000,
        c.addr.len() <= usize::MAX,
    ensures
        hdr_table_ok(init_headers_view(c, nr, offset)),
        resp_hdr_table(init_headers_view(c, nr, offset).addr, offset as int, 0) == Seq::<
            (Seq<u8>, Seq<u8>),
        >::empty(),
{
    lemma_put_le_u32(c.addr, offset as int, nr as u32);
    assert((nr as u32) as int == nr as int);
    assert(le_u32(init_headers_view(c, nr, offset).addr, offset as int) == nr);
    assert(resp_hdr_table(init_headers_view(c, nr, offset).addr, offset as int, 0) =~= Seq::<
        (Seq<u8>, Seq<u8>),
    >::empty());
}

proof fn lemma_add_header_frame(c: CtxView, name: Seq<u8>, value: Seq<u8>)
    requires
        add_header_ready(c, name.len() as int, value.len() as int),
        resp_field_pos(c, c.resp_hdr_idx + 1) + 16 <= c.hdrp,
    ensures
        add_header_view(c, name, value).addr.len() == c.addr.len(),
        forall|k: int|
            0 <= k < c.addr.len() && !(resp_field_pos(c, c.resp_hdr_idx + 1) <= k
                < resp_field_pos(c, c.resp_hdr_idx + 1) + 16) && !(c.hdrp <= k) ==> #[trigger] add_header_view(
                c,
                name,
                value,
            ).addr[k] == c.addr[k],
{
    let h = c.resp_hdr.unwrap() as int;
    let idx = c.resp_hdr_idx + 1;
    let f = resp_field_pos(c, idx);
    let p0 = c.hdrp as int;
    let p1 = p0 + name.len();
    let a1 = put_le_u32(c.addr, f, (p0 - h) as u32);
    let a2 = put_le_u32(a1, f + 4, name.len() as u32);
    let a3 = splice(a2, p0, name);
    let a4 = put_le_u32(a3, f + 8, (p1 - h) as u32);
    let a5 = put_le_u32(a4, f + 12, value.len() as u32);
    let a6 = splice(a5, p1, value);
    lemma_put_le_u32(c.addr, f, (p0 - h) as u32);
    lemma_put_le_u32(a1, f + 4, name.len() as u32);
    lemma_splice_frame(a2, p0, name);
    lemma_put_le_u32(a3, f + 8, (p1 - h) as u32);
    lemma_put_le_u32(a4, f + 12, value.len() as u32);
    lemma_splice_frame(a5, p1, value);
    assert(a6 == add_header_view(c, name, value).addr);
    assert forall|k: int|
        0 <= k < c.addr.len() && !(f <= k < f + 16) && !(p0 <= k) implies #[trigger] a6[k]
        == c.addr[k] by {
        assert(a1[k] == c.addr[k]);
        assert(a2[k] == a1[k]);
        assert(a3[k] == a2[k]);
        assert(a4[k] == a3[k]);
        assert(a5[k] == a4[k]);
        assert(a6[k] == a5[k]);
    }
}

proof fn lemma_earlier_slot_kept(c: CtxView, name: Seq<u8>, value: Seq<u8>, j: int)
    requires
        hdr_table_ok(c),
        c.resp_hdr_idx + 1 < le_u32(c.addr, c.resp_hdr.unwrap() as int),
        add_header_ready(c, name.len() as int, value.len() as int),
        0 <= j <= c.resp_hdr_idx,
    ensures
        resp_hdr_name(add_header_view(c, name, value).addr, c.resp_hdr.unwrap() as int, j)
            == resp_hdr_name(c.addr, c.resp_hdr.unwrap() as int, j),
        resp_hdr_value(add_header_view(c, name, value).addr, c.resp_hdr.unwrap() as int, j)
            == resp_hdr_value(c.addr, c.resp_hdr.unwrap() as int, j),
        le_u32(add_header_view(c, name, value).addr, c.resp_hdr.unwrap() as int + RESP_HDR_FIELDS_START + 16 * j)
            == le_u32(c.addr, c.resp_hdr.unwrap() as int + RESP_HDR_FIELDS_START + 16 * j),
        le_u32(add_header_view(c, name, value).addr, c.resp_hdr.unwrap() as int + RESP_HDR_FIELDS_START + 16 * j + 4)
            == le_u32(c.addr, c.resp_hdr.unwrap() as int + RESP_HDR_FIELDS_START + 16 * j + 4),
        le_u32(add_header_view(c, name, value).addr, c.resp_hdr.unwrap() as int + RESP_HDR_FIELDS_START + 16 * j + 8)
            == le_u32(c.addr, c.resp_hdr.unwrap() as int + RESP_HDR_FIELDS_START + 16 * j + 8),
        le_u32(add_header_view(c, name, value).addr, c.resp_hdr.unwrap() as int + RESP_HDR_FIELDS_START + 16 * j + 12)
            == le_u32(c.addr, c.resp_hdr.unwrap() as int + RESP_HDR_FIELDS_START + 16 * j + 12),
{
    let h = c.resp_hdr.unwrap() as int;
    let idx = c.resp_hdr_idx + 1;
    let f = resp_field_pos(c, idx);
    let strs = resp_hdr_strings(c);
    assert(f + 16 <= strs);
    lemma_add_header_frame(c, name, value);
    let a = c.addr;
    let b = add_header_view(c, name, value).addr;
    let fj = h + RESP_HDR_FIELDS_START + 16 * j;
    assert(resp_slot_in(c, j));
    assert(fj + 16 <= f);
    lemma_le_u32_same(a, b, fj);
    lemma_le_u32_same(a, b, fj + 4);
    lemma_le_u32_same(a, b, fj + 8);
    lemma_le_u32_same(a, b, fj + 12);
    let no = h + le_u32(a, fj);
    let nl = le_u32(a, fj + 4);
    let vo = h + le_u32(a, fj + 8);
    let vl = le_u32(a, fj + 12);
    assert(b.subrange(no, no + nl) =~= a.subrange(no, no + nl));
    assert(b.subrange(vo, vo + vl) =~= a.subrange(vo, vo + vl));
}

/// Adding a header to a well laid out header table (one with a free slot)
/// keeps it well laid out, keeps the count, and appends the header to the
/// list the host reads: the earlier slots and their strings are unchanged.
proof fn lemma_table_ok_after(c: CtxView, name: Seq<u8>, value: Seq<u8>)
    requires
        hdr_table_ok(c),
        c.resp_hdr_idx + 1 < le_u32(c.addr, c.resp_hdr.unwrap() as int),
        add_header_ready(c, name.len() as int, value.len() as int),
        c.hdrp + name.len() + value.len() - c.resp_hdr.unwrap() < 0x1_0000_0000,
        c.addr.len() <= usize::MAX,
    ensures
        hdr_table_ok(add_header_view(c, name, value)),
        le_u32(add_header_view(c, name, value).addr, c.resp_hdr.unwrap() as int) == le_u32(
            c.addr,
            c.resp_hdr.unwrap() as int,
        ),
{
    let h = c.resp_hdr.unwrap() as int;
    let idx = c.resp_hdr_idx + 1;
    let c2 = add_header_view(c, name, value);
    assert(resp_field_pos(c, idx) + 16 <= resp_hdr_strings(c));
    law_header_readback(c, name, value);
    lemma_add_header_frame(c, name, value);
    lemma_le_u32_same(c.addr, c2.addr, h);
    assert(resp_hdr_strings(c2) == resp_hdr_strings(c));
    assert(resp_slot_in(c2, idx));
    assert forall|j: int| 0 <= j < idx implies #[trigger] resp_slot_in(c2, j) by {
        lemma_earlier_slot_kept(c, name, value, j);
        assert(resp_slot_in(c, j));
    }
    assert forall|j: int| 0 <= j <= c2.resp_hdr_idx implies #[trigger] resp_slot_in(c2, j) by {
        if j == idx {
        }
    }
}

/// Adding a header to a well laid out header table (one with a free slot)
/// keeps it well laid out, keeps the count, and appends the header to the
/// list the host reads: the earlier slots and their strings are unchanged.
pub proof fn law_header_table_grows(c: CtxView, name: Seq<u8>, value: Seq<u8>)
    requires
        hdr_table_ok(c),
        c.resp_hdr_idx + 1 < le_u32(c.addr, c.resp_hdr.unwrap() as int),
        add_header_ready(c, name.len() as int, value.len() as int),
        c.hdrp + name.len() + value.len() - c.resp_hdr.unwrap() < 0x1_0000_0000,
        c.addr.len() <= usize::MAX,
    ensures
        hdr_table_ok(add_header_view(c, name, value)),
        le_u32(add_header_view(c, name, value).addr, c.resp_hdr.unwrap() as int) == le_u32(
            c.addr,
            c.resp_hdr.unwrap() as int,
        ),
        resp_hdr_table(
            add_header_view(c, name, value).addr,
            c.resp_hdr.unwrap() as int,
            c.resp_hdr_idx + 2,
        ) == resp_hdr_table(c.addr, c.resp_hdr.unwrap() as int, c.resp_hdr_idx + 1).push(
            (name, value),
        ),
{
    let h = c.resp_hdr.unwrap() as int;
    let idx = c.resp_hdr_idx + 1;
    let b = add_header_view(c, name, value).addr;
    lemma_table_ok_after(c, name, value);
    assert(resp_field_pos(c, idx) + 16 <= resp_hdr_strings(c));
    law_header_readback(c, name, value);
    assert forall|j: int| 0 <= j < idx implies #[trigger] resp_hdr_table(b, h, idx + 1)[j]
        == resp_hdr_table(c.addr, h, idx)[j] by {
        lemma_earlier_slot_kept(c, name, value, j);
    }
    assert(resp_hdr_table(b, h, idx + 1) =~= resp_hdr_table(c.addr, h, idx).push((name, value)));
}

/// The number of body bytes that the request structures of `srcs` carry.
pub open spec fn sent_total(srcs: Seq<Seq<u8>>) -> int
    decreases srcs.len(),
{
    if srcs.len() == 0 {
        0
    } else {
        sent_total(srcs.drop_last()) + req_field(srcs.last(), FIELD_CONTENT_SENT as int)
    }
}

/// The body bytes that the request structures of `srcs` carry, in order.
pub open spec fn sent_concat(srcs: Seq<Seq<u8>>) -> Seq<u8>
    decreases srcs.len(),
{
    if srcs.len() == 0 {
        Seq::empty()
    } else {
        sent_concat(srcs.drop_last()) + sent_content(srcs.last())
    }
}

/// Every request structure of `srcs` holds the body bytes it describes.
pub open spec fn all_sent_ok(srcs: Seq<Seq<u8>>) -> bool {
    forall|i: int| 0 <= i < srcs.len() ==> sent_content_ok(#[trigger] srcs[i])
}

/// The context after the body data of each request structure of `srcs` is
/// appended, in order.
pub open spec fn appends_view(c: CtxView, srcs: Seq<Seq<u8>>) -> CtxView
    decreases srcs.len(),
{
    if srcs.len() == 0 {
        c
    } else {
        req_buf_append_view(appends_view(c, srcs.drop_last()), srcs.last())
    }
}

proof fn lemma_sent_total(srcs: Seq<Seq<u8>>)
    requires
        all_sent_ok(srcs),
    ensures
        sent_total(srcs) >= 0,
        sent_concat(srcs).len() == sent_total(srcs),
    decreases srcs.len(),
{
    if srcs.len() > 0 {
        let prev = srcs.drop_last();
        assert(all_sent_ok(prev)) by {
            assert forall|i: int| 0 <= i < prev.len() implies sent_content_ok(#[trigger] prev[i]) by {
                assert(prev[i] == srcs[i]);
            }
        }
        lemma_sent_total(prev);
        assert(sent_content_ok(srcs[srcs.len() - 1]));
    }
}

proof fn lemma_append_keeps(c: CtxView, src: Seq<u8>)
    requires
        req_buf_append_ready(c, src),
        FIELD_TOTAL_CONTENT_SENT + 4 <= c.reqp,
        c.req_buf.len() <= usize::MAX,
    ensures
        req_buf_append_view(c, src).req_buf.len() == c.req_buf.len(),
        forall|k: int|
            0 <= k < FIELD_CONTENT_SENT ==> #[trigger] req_buf_append_view(c, src).req_buf[k]
                == c.req_buf[k],
        req_field(req_buf_append_view(c, src).req_buf, FIELD_CONTENT_SENT as int) == req_field(
            src,
            FIELD_CONTENT_SENT as int,
        ),
        req_field(req_buf_append_view(c, src).req_buf, FIELD_TOTAL_CONTENT_SENT as int)
            == req_field(src, FIELD_TOTAL_CONTENT_SENT as int),
        req_buf_append_view(c, src).reqp == c.reqp + req_field(src, FIELD_CONTENT_SENT as int),
        req_buf_append_view(c, src).req_buf.subrange(
            c.reqp as int,
            req_buf_append_view(c, src).reqp as int,
        ) == sent_content(src),
{
    let data = sent_content(src);
    let b1 = splice(c.req_buf, c.reqp as int, data);
    lemma_splice_frame(c.req_buf, c.reqp as int, data);
    let sent = req_field(src, FIELD_CONTENT_SENT as int) as u32;
    let total = req_field(src, FIELD_TOTAL_CONTENT_SENT as int) as u32;
    let b2 = put_le_u32(b1, FIELD_CONTENT_SENT as int, sent);
    lemma_put_le_u32(b1, FIELD_CONTENT_SENT as int, sent);
    let b3 = put_le_u32(b2, FIELD_TOTAL_CONTENT_SENT as int, total);
    lemma_put_le_u32(b2, FIELD_TOTAL_CONTENT_SENT as int, total);
    assert(b3 == req_buf_append_view(c, src).req_buf);
    lemma_le_u32_same(b2, b3, FIELD_CONTENT_SENT as int);
    assert(b3.subrange(c.reqp as int, c.reqp + data.len()) =~= data) by {
        assert forall|i: int| 0 <= i < data.len() implies #[trigger] b3.subrange(
            c.reqp as int,
            c.reqp + data.len(),
        )[i] == data[i] by {
            assert(b1.subrange(c.reqp as int, c.reqp + data.len())[i] == data[i]);
        }
    }
}

/// Appending the body data of several request structures lays it out in
/// order: from any position `s` past the body counters, the copy up to the
/// append position is what it was followed by the chunks in order; the
/// append position moves by their total size; the fields before the body
/// counters are unchanged; and the counters are those of the latest chunk.
pub proof fn law_appends_in_order(c: CtxView, srcs: Seq<Seq<u8>>, s: int)
    requires
        c.req == ReqLoc::RequestBuffer,
        FIELD_TOTAL_CONTENT_SENT + 4 <= s <= c.reqp,
        all_sent_ok(srcs),
        c.reqp + sent_total(srcs) <= c.req_buf.len(),
        c.req_buf.len() <= usize::MAX,
    ensures
        appends_view(c, srcs).req == ReqLoc::RequestBuffer,
        appends_view(c, srcs).req_buf.len() == c.req_buf.len(),
        appends_view(c, srcs).reqp == c.reqp + sent_total(srcs),
        appends_view(c, srcs).req_buf.subrange(s, appends_view(c, srcs).reqp as int)
            == c.req_buf.subrange(s, c.reqp as int) + sent_concat(srcs),
        forall|k: int|
            0 <= k < FIELD_CONTENT_SENT ==> #[trigger] appends_view(c, srcs).req_buf[k]
                == c.req_buf[k],
        srcs.len() > 0 ==> req_field(appends_view(c, srcs).req_buf, FIELD_CONTENT_SENT as int)
            == req_field(srcs.last(), FIELD_CONTENT_SENT as int),
        srcs.len() > 0 ==> req_field(
            appends_view(c, srcs).req_buf,
            FIELD_TOTAL_CONTENT_SENT as int,
        ) == req_field(srcs.last(), FIELD_TOTAL_CONTENT_SENT as int),
    decreases srcs.len(),
{
    lemma_sent_total(srcs);
    if srcs.len() == 0 {
        assert(c.req_buf.subrange(s, c.reqp as int) + sent_concat(srcs) =~= c.req_buf.subrange(
            s,
            c.reqp as int,
        ));
    } else {
        let prev = srcs.drop_last();
        let last = srcs.last();
        assert(all_sent_ok(prev)) by {
            assert forall|i: int| 0 <= i < prev.len() implies sent_content_ok(#[trigger] prev[i]) by {
                assert(prev[i] == srcs[i]);
            }
        }
        assert(sent_content_ok(srcs[srcs.len() - 1]));
        lemma_sent_total(prev);
        law_appends_in_order(c, prev, s);
        let c0 = appends_view(c, prev);
        law_appends_concatenate(c0, last, s);
        lemma_append_keeps(c0, last);
        assert(c.req_buf.subrange(s, c.reqp as int) + sent_concat(srcs) =~= c.req_buf.subrange(
            s,
            c.reqp as int,
        ) + sent_concat(prev) + sent_content(last));
    }
}

/// Chunks of one request arrive in order: after `uwr_set_req_buf` in append
/// mode on the first call's request (laid out, as the host does, with its
/// body last) and the appends of the later calls, the copy's body is the
/// first body followed by the later chunks in order, the append position is
/// the body offset plus the body bytes received, and, when the host's total
/// for the latest chunk is the running sum, the copy's total equals that sum.
pub proof fn law_chunks_in_order(c: CtxView, buf: Seq<u8>, flags: u32, srcs: Seq<Seq<u8>>)
    requires
        c.req == ReqLoc::SharedMemory,
        srb_flags_valid(flags),
        flags & LUW_SRB_APPEND != 0,
        srb_ready(c, buf.len() as int, flags),
        FIELD_TOTAL_CONTENT_SENT + 4 <= req_field(c.addr, FIELD_CONTENT_OFF as int),
        srb_copy_size(c.addr) == req_field(c.addr, FIELD_CONTENT_OFF as int) + req_field(
            c.addr,
            FIELD_CONTENT_SENT as int,
        ),
        all_sent_ok(srcs),
        srb_copy_size(c.addr) + sent_total(srcs) <= set_req_buf_view(c, buf, flags).req_buf.len(),
        set_req_buf_view(c, buf, flags).req_buf.len() <= usize::MAX,
    ensures
        req_field(
            appends_view(set_req_buf_view(c, buf, flags), srcs).req_buf,
            FIELD_CONTENT_OFF as int,
        ) == req_field(c.addr, FIELD_CONTENT_OFF as int),
        appends_view(set_req_buf_view(c, buf, flags), srcs).req_buf.subrange(
            req_field(c.addr, FIELD_CONTENT_OFF as int),
            appends_view(set_req_buf_view(c, buf, flags), srcs).reqp as int,
        ) == sent_content(c.addr) + sent_concat(srcs),
        appends_view(set_req_buf_view(c, buf, flags), srcs).reqp == req_field(
            c.addr,
            FIELD_CONTENT_OFF as int,
        ) + req_field(c.addr, FIELD_CONTENT_SENT as int) + sent_total(srcs),
        (srcs.len() == 0 ==> req_field(c.addr, FIELD_TOTAL_CONTENT_SENT as int) == req_field(
            c.addr,
            FIELD_CONTENT_SENT as int,
        )) && (srcs.len() > 0 ==> req_field(srcs.last(), FIELD_TOTAL_CONTENT_SENT as int)
            == req_field(c.addr, FIELD_CONTENT_SENT as int) + sent_total(srcs)) ==> req_field(
            appends_view(set_req_buf_view(c, buf, flags), srcs).req_buf,
            FIELD_TOTAL_CONTENT_SENT as int,
        ) == appends_view(set_req_buf_view(c, buf, flags), srcs).reqp - req_field(
            c.addr,
            FIELD_CONTENT_OFF as int,
        ),
{
    let r = c.addr;
    let n = srb_copy_size(r);
    let co = req_field(r, FIELD_CONTENT_OFF as int);
    let c1 = set_req_buf_view(c, buf, flags);
    let dest = if flags & crate::flags::LUW_SRB_ALLOC != 0 {
        crate::reqbuf::zeros(crate::reqbuf::srb_alloc_size(r, flags) as nat)
    } else {
        buf
    };
    lemma_splice_frame(dest, 0, r.subrange(0, n));
    assert forall|k: int| 0 <= k < n implies c1.req_buf[k] == r[k] by {
        assert(c1.req_buf.subrange(0, n)[k] == r.subrange(0, n)[k]);
    }
    assert(c1.reqp == n);
    lemma_sent_total(srcs);
    law_appends_in_order(c1, srcs, co);
    let c2 = appends_view(c1, srcs);
    lemma_le_u32_same(r, c2.req_buf, FIELD_CONTENT_OFF as int);
    assert(c1.req_buf.subrange(co, n) =~= sent_content(r));
    lemma_le_u32_same(r, c1.req_buf, FIELD_TOTAL_CONTENT_SENT as int);
}

/// The upload-reflector run: for each later chunk, its body data is appended
/// to the copy and the response is then filled from the copy starting at the
/// number `s` of body bytes reflected so far. Gives the context, the new
/// count and the responses sent so far, concatenated.
pub open spec fn reflect_run(c: CtxView, s: nat, srcs: Seq<Seq<u8>>, mem_size: u32) -> (
    CtxView,
    nat,
    Seq<u8>,
)
    decreases srcs.len(),
{
    if srcs.len() == 0 {
        (c, s, Seq::empty())
    } else {
        let prev = reflect_run(c, s, srcs.drop_last(), mem_size);
        let c1 = req_buf_append_view(prev.0, srcs.last());
        let c2 = fill_view(c1, prev.1 as usize, mem_size);
        (c2, (prev.1 + fill_size(c1, mem_size)) as nat, prev.2 + resp_data(c2))
    }
}

/// Every chunk of `srcs` fits in one response: at most `mem_size` bytes and
/// within the shared memory after the response size field.
pub open spec fn chunks_fit(c: CtxView, srcs: Seq<Seq<u8>>, mem_size: u32) -> bool {
    forall|i: int|
        0 <= i < srcs.len() ==> #[trigger] req_field(srcs[i], FIELD_CONTENT_SENT as int)
            <= mem_size && c.resp_offset + RESP_DATA_START + req_field(
            srcs[i],
            FIELD_CONTENT_SENT as int,
        ) <= c.addr.len()
}

/// Reflecting an upload loses and repeats nothing: when each later chunk fits
/// in one response, the responses sent, in order, are exactly the chunks'
/// body bytes in order, the count of reflected bytes grows by their total, the
/// copy holds those bytes right after the ones reflected before, the last
/// response is the last chunk with the data size and size field in step, and
/// the total sent that the copy reports is the latest chunk's, which is the
/// count reflected when the host reports the running sum.
pub proof fn law_reflect_run(c: CtxView, s: nat, srcs: Seq<Seq<u8>>, mem_size: u32)
    requires
        c.req == ReqLoc::RequestBuffer,
        FIELD_TOTAL_CONTENT_SENT + 4 <= req_field(c.req_buf, FIELD_CONTENT_OFF as int),
        c.reqp == req_field(c.req_buf, FIELD_CONTENT_OFF as int) + s,
        all_sent_ok(srcs),
        chunks_fit(c, srcs, mem_size),
        c.reqp + sent_total(srcs) <= c.req_buf.len(),
        c.req_buf.len() <= usize::MAX,
        c.addr.len() <= usize::MAX,
    ensures
        reflect_run(c, s, srcs, mem_size).2 == sent_concat(srcs),
        reflect_run(c, s, srcs, mem_size).1 == s + sent_total(srcs),
        reflect_run(c, s, srcs, mem_size).0.reqp == req_field(
            c.req_buf,
            FIELD_CONTENT_OFF as int,
        ) + reflect_run(c, s, srcs, mem_size).1,
        reflect_run(c, s, srcs, mem_size).0.req_buf.subrange(
            req_field(c.req_buf, FIELD_CONTENT_OFF as int) + s,
            req_field(c.req_buf, FIELD_CONTENT_OFF as int) + reflect_run(c, s, srcs, mem_size).1,
        ) == sent_concat(srcs),
        req_field(reflect_run(c, s, srcs, mem_size).0.req_buf, FIELD_CONTENT_OFF as int)
            == req_field(c.req_buf, FIELD_CONTENT_OFF as int),
        reflect_run(c, s, srcs, mem_size).0.req == ReqLoc::RequestBuffer,
        reflect_run(c, s, srcs, mem_size).0.req_buf.len() == c.req_buf.len(),
        reflect_run(c, s, srcs, mem_size).0.addr.len() == c.addr.len(),
        reflect_run(c, s, srcs, mem_size).0.resp_offset == c.resp_offset,
        srcs.len() > 0 ==> resp_data(reflect_run(c, s, srcs, mem_size).0) == sent_content(
            srcs.last(),
        ),
        srcs.len() > 0 ==> size_in_step(reflect_run(c, s, srcs, mem_size).0),
        srcs.len() > 0 ==> req_field(
            reflect_run(c, s, srcs, mem_size).0.req_buf,
            FIELD_TOTAL_CONTENT_SENT as int,
        ) == req_field(srcs.last(), FIELD_TOTAL_CONTENT_SENT as int),
        srcs.len() > 0 && req_field(srcs.last(), FIELD_TOTAL_CONTENT_SENT as int) == s
            + sent_total(srcs) ==> req_field(
            reflect_run(c, s, srcs, mem_size).0.req_buf,
            FIELD_TOTAL_CONTENT_SENT as int,
        ) == reflect_run(c, s, srcs, mem_size).1,
    decreases srcs.len(),
{
    let co = req_field(c.req_buf, FIELD_CONTENT_OFF as int);
    lemma_sent_total(srcs);
    if srcs.len() == 0 {
        assert(c.req_buf.subrange(co + s, co + s) =~= sent_concat(srcs));
    } else {
        let prev = srcs.drop_last();
        let last = srcs.last();
        assert(all_sent_ok(prev)) by {
            assert forall|i: int| 0 <= i < prev.len() implies sent_content_ok(#[trigger] prev[i]) by {
                assert(prev[i] == srcs[i]);
            }
        }
        assert(chunks_fit(c, prev, mem_size)) by {
            assert forall|i: int| 0 <= i < prev.len() implies #[trigger] req_field(
                prev[i],
                FIELD_CONTENT_SENT as int,
            ) <= mem_size && c.resp_offset + RESP_DATA_START + req_field(
                prev[i],
                FIELD_CONTENT_SENT as int,
            ) <= c.addr.len() by {
                assert(prev[i] == srcs[i]);
                assert(req_field(srcs[i], FIELD_CONTENT_SENT as int) <= mem_size);
            }
        }
        assert(sent_content_ok(srcs[srcs.len() - 1]));
        assert(req_field(srcs[srcs.len() - 1], FIELD_CONTENT_SENT as int) <= mem_size);
        lemma_sent_total(prev);
        law_reflect_run(c, s, prev, mem_size);
        let p = reflect_run(c, s, prev, mem_size);
        let c0 = p.0;
        let s0 = p.1;
        let sent = req_field(last, FIELD_CONTENT_SENT as int);
        law_appends_concatenate(c0, last, co + s);
        lemma_append_keeps(c0, last);
        let c1 = req_buf_append_view(c0, last);
        lemma_le_u32_same(c0.req_buf, c1.req_buf, FIELD_CONTENT_OFF as int);
        assert(fill_size(c1, mem_size) == sent);
        assert(fill_start(c1, s0 as usize) == co + s0);
        law_fill_replaces(c1, s0 as usize, mem_size);
        let c2 = fill_view(c1, s0 as usize, mem_size);
        assert(resp_data(c2) == sent_content(last));
        assert(c2.req_buf == c1.req_buf);
        assert(sent_concat(srcs) == sent_concat(prev) + sent_content(last));
    }
}

/// The first call of the upload-reflector run: with the copy set up in append
/// mode on the first call's request (laid out with its body last), filling
/// the response from the copy's start gives that call's body, and leaves the
/// context ready for `law_reflect_run` with that many bytes reflected.
pub proof fn law_reflect_first(c: CtxView, buf: Seq<u8>, flags: u32, mem_size: u32)
    requires
        c.req == ReqLoc::SharedMemory,
        srb_flags_valid(flags),
        flags & LUW_SRB_APPEND != 0,
        srb_ready(c, buf.len() as int, flags),
        FIELD_TOTAL_CONTENT_SENT + 4 <= req_field(c.addr, FIELD_CONTENT_OFF as int),
        srb_copy_size(c.addr) == req_field(c.addr, FIELD_CONTENT_OFF as int) + req_field(
            c.addr,
            FIELD_CONTENT_SENT as int,
        ),
        req_field(c.addr, FIELD_CONTENT_SENT as int) <= mem_size,
        c.resp_offset + RESP_DATA_START + req_field(c.addr, FIELD_CONTENT_SENT as int)
            <= c.addr.len(),
        c.addr.len() <= usize::MAX,
        set_req_buf_view(c, buf, flags).req_buf.len() <= usize::MAX,
    ensures
        fill_size(set_req_buf_view(c, buf, flags), mem_size) == req_field(
            c.addr,
            FIELD_CONTENT_SENT as int,
        ),
        resp_data(fill_view(set_req_buf_view(c, buf, flags), 0, mem_size)) == sent_content(c.addr),
        size_in_step(fill_view(set_req_buf_view(c, buf, flags), 0, mem_size)),
        fill_view(set_req_buf_view(c, buf, flags), 0, mem_size).req == ReqLoc::RequestBuffer,
        fill_view(set_req_buf_view(c, buf, flags), 0, mem_size).reqp == req_field(
            c.addr,
            FIELD_CONTENT_OFF as int,
        ) + req_field(c.addr, FIELD_CONTENT_SENT as int),
        req_field(
            fill_view(set_req_buf_view(c, buf, flags), 0, mem_size).req_buf,
            FIELD_CONTENT_OFF as int,
        ) == req_field(c.addr, FIELD_CONTENT_OFF as int),
{
    let r = c.addr;
    let n = srb_copy_size(r);
    let co = req_field(r, FIELD_CONTENT_OFF as int);
    let c1 = set_req_buf_view(c, buf, flags);
    let dest = if flags & crate::flags::LUW_SRB_ALLOC != 0 {
        crate::reqbuf::zeros(crate::reqbuf::srb_alloc_size(r, flags) as nat)
    } else {
        buf
    };
    lemma_splice_frame(dest, 0, r.subrange(0, n));
    assert forall|k: int| 0 <= k < n implies c1.req_buf[k] == r[k] by {
        assert(c1.req_buf.subrange(0, n)[k] == r.subrange(0, n)[k]);
    }
    lemma_le_u32_same(r, c1.req_buf, FIELD_CONTENT_OFF as int);
    lemma_le_u32_same(r, c1.req_buf, FIELD_CONTENT_SENT as int);
    law_fill_replaces(c1, 0, mem_size);
    assert(c1.req_buf.subrange(co, n) =~= sent_content(r));
}

/// `x` and `y` are the same byte, or the same ASCII letter in upper and
/// lower case.
pub open spec fn same_byte_ignoring_case(x: u8, y: u8) -> bool {
    ||| x == y
    ||| 65 <= x <= 90 && y == x + 32
    ||| 65 <= y <= 90 && x == y + 32
}

/// `a` and `b` have the same length and agree byte by byte up to the case of
/// ASCII letters.
pub open spec fn same_ignoring_case(a: Seq<u8>, b: Seq<u8>) -> bool {
    &&& a.len() == b.len()
    &&& forall|i: int| 0 <= i < a.len() ==> same_byte_ignoring_case(#[trigger] a[i], b[i])
}

/// Lower-casing changes exactly the upper-case ASCII letters, each to its
/// lower-case letter.
pub proof fn law_ascii_lower_letters_only(c: u8)
    ensures
        65 <= c <= 90 ==> crate::request::ascii_lower(c) == c + 32,
        !(65 <= c <= 90) ==> crate::request::ascii_lower(c) == c,
{
}

/// Header names are compared ignoring only the case of ASCII letters: two
/// names compare equal exactly when they have the same length and each pair
/// of bytes is the same byte or the same letter in the other case, so
/// distinct letters never match.
pub proof fn law_case_insensitive_equality(a: Seq<u8>, b: Seq<u8>)
    ensures
        eq_ignore_ascii_case(a, b) <==> same_ignoring_case(a, b),
{
    if eq_ignore_ascii_case(a, b) {
        assert forall|i: int| 0 <= i < a.len() implies same_byte_ignoring_case(
            #[trigger] a[i],
            b[i],
        ) by {
            assert(ascii_lower(a[i]) == ascii_lower(b[i]));
        }
    }
    if same_ignoring_case(a, b) {
        assert forall|i: int| 0 <= i < a.len() implies ascii_lower(#[trigger] a[i]) == ascii_lower(
            b[i],
        ) by {
            assert(same_byte_ignoring_case(a[i], b[i]));
        }
    }
}

/// The header search from `s` on finds header `i` when its name matches and
/// no name between `s` and `i` does.
proof fn lemma_lookup_reaches(r: Seq<u8>, t: Seq<u8>, s: nat, i: nat)
    requires
        s <= i,
        i < req_field(r, FIELD_NR_FIELDS as int),
        same_ignoring_case(crate::request::req_hdr_name(r, i as int), t),
        forall|j: int|
            s <= j < i ==> !same_ignoring_case(#[trigger] crate::request::req_hdr_name(r, j), t),
    ensures
        hdr_lookup(r, t, s) == Some(i),
    decreases i - s,
{
    law_case_insensitive_equality(crate::request::req_hdr_name(r, s as int), t);
    if s < i {
        lemma_lookup_reaches(r, t, s + 1, i);
    }
}

/// The header search from `s` on finds nothing when no name from `s` on
/// matches.
proof fn lemma_lookup_misses(r: Seq<u8>, t: Seq<u8>, s: nat)
    requires
        forall|j: int|
            s <= j < req_field(r, FIELD_NR_FIELDS as int) ==> !same_ignoring_case(
                #[trigger] crate::request::req_hdr_name(r, j),
                t,
            ),
    ensures
        hdr_lookup(r, t, s) is None,
    decreases req_field(r, FIELD_NR_FIELDS as int) - s,
{
    if s < req_field(r, FIELD_NR_FIELDS as int) {
        law_case_insensitive_equality(crate::request::req_hdr_name(r, s as int), t);
        lemma_lookup_misses(r, t, s + 1);
    }
}

/// The header lookup finds every header: when header `i`, among the
/// request's `nr_fields` headers, is the first whose name is `t` up to the
/// case of ASCII letters, the lookup gives `i`, the last header included.
pub proof fn law_lookup_finds_first_match(r: Seq<u8>, t: Seq<u8>, i: nat)
    requires
        i < req_field(r, FIELD_NR_FIELDS as int),
        same_ignoring_case(crate::request::req_hdr_name(r, i as int), t),
        forall|j: int|
            0 <= j < i ==> !same_ignoring_case(#[trigger] crate::request::req_hdr_name(r, j), t),
    ensures
        hdr_lookup(r, t, 0) == Some(i),
{
    lemma_lookup_reaches(r, t, 0, i);
}

/// The header lookup gives `None` exactly when no header name of the request
/// is `t` up to case; what it finds is a header of the request whose name is
/// `t` up to case, with none before it.
pub proof fn law_lookup_result(r: Seq<u8>, t: Seq<u8>)
    ensures
        hdr_lookup(r, t, 0) is None <==> forall|j: int|
            0 <= j < req_field(r, FIELD_NR_FIELDS as int) ==> !same_ignoring_case(
                #[trigger] crate::request::req_hdr_name(r, j),
                t,
            ),
        hdr_lookup(r, t, 0) matches Some(i) ==> i < req_field(r, FIELD_NR_FIELDS as int)
            && same_ignoring_case(crate::request::req_hdr_name(r, i as int), t) && forall|j: int|
            0 <= j < i ==> !same_ignoring_case(#[trigger] crate::request::req_hdr_name(r, j), t),
{
    let nr = req_field(r, FIELD_NR_FIELDS as int);
    if forall|j: int|
        0 <= j < nr ==> !same_ignoring_case(#[trigger] crate::request::req_hdr_name(r, j), t) {
        lemma_lookup_misses(r, t, 0);
    } else {
        let k = choose|j: int|
            0 <= j < nr && same_ignoring_case(#[trigger] crate::request::req_hdr_name(r, j), t);
        lemma_first_match(r, t, k);
    }
}

/// Below a matching header `k` there is a first matching header, and the
/// lookup gives it.
proof fn lemma_first_match(r: Seq<u8>, t: Seq<u8>, k: int)
    requires
        0 <= k < req_field(r, FIELD_NR_FIELDS as int),
        same_ignoring_case(crate::request::req_hdr_name(r, k), t),
    ensures
        hdr_lookup(r, t, 0) matches Some(i) && i <= k && same_ignoring_case(
            crate::request::req_hdr_name(r, i as int),
            t,
        ) && forall|j: int|
            0 <= j < i ==> !same_ignoring_case(#[trigger] crate::request::req_hdr_name(r, j), t),
    decreases k,
{
    if exists|j: int| 0 <= j < k && same_ignoring_case(#[trigger] crate::request::req_hdr_name(r, j), t) {
        let j = choose|j: int|
            0 <= j < k && same_ignoring_case(#[trigger] crate::request::req_hdr_name(r, j), t);
        lemma_first_match(r, t, j);
    } else {
        lemma_lookup_reaches(r, t, 0, k as nat);
    }
}

/// The request buffer flags are accepted exactly when they are a
/// combination of the three known bits (1, 2 and 4) in which the full-size
/// bit (4) comes with the allocate bit (2): every value from 0 to 7 but 4
/// and 5.
pub proof fn law_srb_flags_accepted(flags: u32)
    ensures
        srb_flags_valid(flags) <==> (flags <= 7 && flags != 4 && flags != 5),
{
    assert(((flags & !7u32) == 0u32 && ((flags & 4u32) != 0u32 ==> (flags & 2u32) != 0u32)) <==> (
    flags <= 7u32 && flags != 4u32 && flags != 5u32)) by (bit_vector);
}

/// Copying a later request's body into the request copy puts all of that
/// body at the copy's body offset, sets the copy's `content_sent` and
/// `total_content_sent` to the later request's, and leaves the body offset
/// and every byte outside the new body and those counters as they were.
pub proof fn law_copy_overwrites_body(c: CtxView, src: Seq<u8>)
    requires
        crate::reqbuf::req_buf_copy_ready(c, src),
        FIELD_TOTAL_CONTENT_SENT + 4 <= req_field(c.req_buf, FIELD_CONTENT_OFF as int),
    ensures
        crate::reqbuf::req_buf_copy_view(c, src).req_buf.len() == c.req_buf.len(),
        crate::reqbuf::req_buf_copy_view(c, src).req_buf.subrange(
            req_field(c.req_buf, FIELD_CONTENT_OFF as int),
            req_field(c.req_buf, FIELD_CONTENT_OFF as int) + req_field(
                src,
                FIELD_CONTENT_SENT as int,
            ),
        ) == src.subrange(
            req_field(src, FIELD_CONTENT_OFF as int),
            req_field(src, FIELD_CONTENT_OFF as int) + req_field(src, FIELD_CONTENT_SENT as int),
        ),
        req_field(crate::reqbuf::req_buf_copy_view(c, src).req_buf, FIELD_CONTENT_SENT as int)
            == req_field(src, FIELD_CONTENT_SENT as int),
        req_field(
            crate::reqbuf::req_buf_copy_view(c, src).req_buf,
            FIELD_TOTAL_CONTENT_SENT as int,
        ) == req_field(src, FIELD_TOTAL_CONTENT_SENT as int),
        req_field(crate::reqbuf::req_buf_copy_view(c, src).req_buf, FIELD_CONTENT_OFF as int)
            == req_field(c.req_buf, FIELD_CONTENT_OFF as int),
        forall|k: int|
            0 <= k < c.req_buf.len() && !(FIELD_CONTENT_SENT <= k < FIELD_TOTAL_CONTENT_SENT + 4)
                && !(req_field(c.req_buf, FIELD_CONTENT_OFF as int) <= k < req_field(
                c.req_buf,
                FIELD_CONTENT_OFF as int,
            ) + req_field(src, FIELD_CONTENT_SENT as int)) ==> #[trigger] crate::reqbuf::req_buf_copy_view(c, src).req_buf[k]
                == c.req_buf[k],
        crate::reqbuf::req_buf_copy_view(c, src).req == c.req,
        crate::reqbuf::req_buf_copy_view(c, src).reqp == c.reqp,
        crate::reqbuf::req_buf_copy_view(c, src).addr == c.addr,
{
    let co = req_field(c.req_buf, FIELD_CONTENT_OFF as int);
    let data = sent_content(src);
    let b1 = splice(c.req_buf, co, data);
    lemma_splice_frame(c.req_buf, co, data);
    let sent = req_field(src, FIELD_CONTENT_SENT as int) as u32;
    let total = req_field(src, FIELD_TOTAL_CONTENT_SENT as int) as u32;
    let b2 = put_le_u32(b1, FIELD_CONTENT_SENT as int, sent);
    lemma_put_le_u32(b1, FIELD_CONTENT_SENT as int, sent);
    let b3 = put_le_u32(b2, FIELD_TOTAL_CONTENT_SENT as int, total);
    lemma_put_le_u32(b2, FIELD_TOTAL_CONTENT_SENT as int, total);
    assert(b3 == crate::reqbuf::req_buf_copy_view(c, src).req_buf);
    lemma_le_u32_same(b2, b3, FIELD_CONTENT_SENT as int);
    lemma_le_u32_same(c.req_buf, b3, FIELD_CONTENT_OFF as int);
    assert(b3.subrange(co, co + data.len()) =~= data) by {
        assert forall|i: int| 0 <= i < data.len() implies #[trigger] b3.subrange(co, co + data.len())[i]
            == data[i] by {
            assert(b1.subrange(co, co + data.len())[i] == data[i]);
        }
    }
}

} // verus!
