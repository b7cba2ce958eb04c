//! Reading the request structure `struct luw_req`.
//!
//! The structure is a run of 32-bit little-endian fields followed by an
//! array of header fields; string fields hold the offset, from the start of
//! the structure, of a NUL-terminated string.

use vstd::prelude::*;
use vstd::utf8::decode_utf8;
use vstd::utf8::valid_utf8;
use vstd::string::StringSliceAdditionalSpecFns;
use crate::bytes::c_bytes;
use crate::bytes::c_view;
use crate::bytes::copy_range;
use crate::bytes::cstr_at;
use crate::bytes::cstr_bytes;
use crate::bytes::cstr_find_end;
use crate::bytes::cstr_terminated;
use crate::bytes::le_u32;
use crate::bytes::read_le_u32;
use crate::bytes::utf8_string;
use crate::ctx::luw_ctx_t;
use crate::ctx::req_bytes;
use crate::ctx::req_slice;

verus! {

/// Position of the `method_off` field.
pub const FIELD_METHOD_OFF: usize = 0;
/// Position of the `version_off` field.
pub const FIELD_VERSION_OFF: usize = 8;
/// Position of the `path_off` field.
pub const FIELD_PATH_OFF: usize = 16;
/// Position of the `query_off` field.
pub const FIELD_QUERY_OFF: usize = 24;
/// Position of the `remote_off` field.
pub const FIELD_REMOTE_OFF: usize = 32;
/// Position of the `local_addr_off` field.
pub const FIELD_LOCAL_ADDR_OFF: usize = 40;
/// Position of the `local_port_off` field.
pub const FIELD_LOCAL_PORT_OFF: usize = 48;
/// Position of the `server_name_off` field.
pub const FIELD_SERVER_NAME_OFF: usize = 56;
/// Position of the `content_off` field.
pub const FIELD_CONTENT_OFF: usize = 64;
/// Position of the `content_len` field.
pub const FIELD_CONTENT_LEN: usize = 68;
/// Position of the `content_sent` field.
pub const FIELD_CONTENT_SENT: usize = 72;
/// Position of the `total_content_sent` field.
pub const FIELD_TOTAL_CONTENT_SENT: usize = 76;
/// Position of the `request_size` field.
pub const FIELD_REQUEST_SIZE: usize = 80;
/// Position of the `nr_fields` field.
pub const FIELD_NR_FIELDS: usize = 84;
/// Position of the `tls` field.
pub const FIELD_TLS: usize = 88;
/// Position of the header field array.
pub const REQ_FIELDS: usize = 92;
/// Size of one `struct luw_hdr_field`: name_off, name_len, value_off, value_len.
pub const HDR_FIELD_SIZE: usize = 16;

/// The 32-bit field of the request structure `r` at position `at`.
pub open spec fn req_field(r: Seq<u8>, at: int) -> int {
    le_u32(r, at)
}

/// The string whose offset the field at position `at` holds.
pub open spec fn req_string(r: Seq<u8>, at: int) -> Seq<u8> {
    cstr_at(r, req_field(r, at))
}

/// The string field at position `at` can be read: the field lies in `r`, its
/// string is NUL-terminated inside `r` and is valid UTF-8.
pub open spec fn req_string_ok(r: Seq<u8>, at: int) -> bool {
    &&& 0 <= at
    &&& at + 4 <= r.len()
    &&& cstr_terminated(r, req_field(r, at))
    &&& valid_utf8(req_string(r, at))
}

/// Position of header field `i` of the request.
pub open spec fn hdr_field_pos(i: int) -> int {
    REQ_FIELDS + HDR_FIELD_SIZE * i
}

/// Name of request header `i`.
pub open spec fn req_hdr_name(r: Seq<u8>, i: int) -> Seq<u8> {
    req_string(r, hdr_field_pos(i))
}

/// Value of request header `i`.
pub open spec fn req_hdr_value(r: Seq<u8>, i: int) -> Seq<u8> {
    req_string(r, hdr_field_pos(i) + 8)
}

/// ASCII lower case, as `tolower` does in the C locale.
pub open spec fn ascii_lower(c: u8) -> u8 {
    if 65 <= c <= 90 {
        (c + 32) as u8
    } else {
        c
    }
}

/// `a` and `b` are equal when ASCII letters are compared without case.
pub open spec fn eq_ignore_ascii_case(a: Seq<u8>, b: Seq<u8>) -> bool {
    &&& a.len() == b.len()
    &&& forall|i: int| 0 <= i < a.len() ==> ascii_lower(#[trigger] a[i]) == ascii_lower(b[i])
}

/// Index of the first request header, from `i` on, whose name is `t` up to case.
pub open spec fn hdr_lookup(r: Seq<u8>, t: Seq<u8>, i: nat) -> Option<nat>
    decreases req_field(r, FIELD_NR_FIELDS as int) - i,
{
    if i >= req_field(r, FIELD_NR_FIELDS as int) {
        None
    } else if eq_ignore_ascii_case(req_hdr_name(r, i as int), t) {
        Some(i)
    } else {
        hdr_lookup(r, t, i + 1)
    }
}

/// The search for `t` from header `i` on reads only header fields that lie in
/// `r` and names that are NUL-terminated in it, and the value it finds, if
/// any, is NUL-terminated and valid UTF-8.
pub open spec fn hdr_lookup_ok(r: Seq<u8>, t: Seq<u8>, i: nat) -> bool
    decreases req_field(r, FIELD_NR_FIELDS as int) - i,
{
    if i >= req_field(r, FIELD_NR_FIELDS as int) {
        true
    } else {
        &&& hdr_field_pos(i + 1int) <= r.len()
        &&& cstr_terminated(r, req_field(r, hdr_field_pos(i as int)))
        &&& if eq_ignore_ascii_case(req_hdr_name(r, i as int), t) {
            req_string_ok(r, hdr_field_pos(i as int) + 8)
        } else {
            hdr_lookup_ok(r, t, i + 1)
        }
    }
}

/// The C string field at position `at` can be read: the field lies in `r`
/// and its string is NUL-terminated inside `r`.
pub open spec fn req_cstr_ok(r: Seq<u8>, at: int) -> bool {
    &&& 0 <= at
    &&& at + 4 <= r.len()
    &&& cstr_terminated(r, req_field(r, at))
}

/// Header `i` can be read whole: its field lies in `r` and both its strings
/// are NUL-terminated there.
pub open spec fn req_hdr_ok(r: Seq<u8>, i: int) -> bool {
    &&& 0 <= i
    &&& hdr_field_pos(i + 1int) <= r.len()
    &&& req_cstr_ok(r, hdr_field_pos(i))
    &&& req_cstr_ok(r, hdr_field_pos(i) + 8)
}

/// The body bytes that a request structure `src` carries in this call.
pub open spec fn sent_content(src: Seq<u8>) -> Seq<u8> {
    src.subrange(
        req_field(src, FIELD_CONTENT_OFF as int),
        req_field(src, FIELD_CONTENT_OFF as int) + req_field(src, FIELD_CONTENT_SENT as int),
    )
}

/// `src` holds the fields that describe its body, and the body bytes sent in
/// this call.
pub open spec fn sent_content_ok(src: Seq<u8>) -> bool {
    &&& FIELD_TOTAL_CONTENT_SENT + 4 <= src.len()
    &&& req_field(src, FIELD_CONTENT_OFF as int) + req_field(src, FIELD_CONTENT_SENT as int)
        <= src.len()
}

/// Reads the string field at position `at` of the request.
fn req_str(ctx: &luw_ctx_t, at: usize) -> (s: String)
    requires
        req_string_ok(req_bytes(ctx@), at as int),
    ensures
        s@ == decode_utf8(req_string(req_bytes(ctx@), at as int)),
{
    let r = req_slice(ctx);
    let off = read_le_u32(r, at) as usize;
    utf8_string(cstr_bytes(r, off))
}

/// Reads the 32-bit field at position `at` of the request.
fn req_u32(ctx: &luw_ctx_t, at: usize) -> (v: u32)
    requires
        at + 4 <= req_bytes(ctx@).len(),
    ensures
        v == req_field(req_bytes(ctx@), at as int),
{
    read_le_u32(req_slice(ctx), at)
}

/// The HTTP request path, e.g. `/echo/?q=a`.
pub fn uwr_get_http_path(ctx: &luw_ctx_t) -> (s: String)
    requires
        req_string_ok(req_bytes(ctx@), FIELD_PATH_OFF as int),
    ensures
        s@ == decode_utf8(req_string(req_bytes(ctx@), FIELD_PATH_OFF as int)),
{
    req_str(ctx, FIELD_PATH_OFF)
}

/// The HTTP method, e.g. `GET`.
pub fn uwr_get_http_method(ctx: &luw_ctx_t) -> (s: String)
    requires
        req_string_ok(req_bytes(ctx@), FIELD_METHOD_OFF as int),
    ensures
        s@ == decode_utf8(req_string(req_bytes(ctx@), FIELD_METHOD_OFF as int)),
{
    req_str(ctx, FIELD_METHOD_OFF)
}

/// The HTTP version, e.g. `1.1`.
pub fn uwr_get_http_version(ctx: &luw_ctx_t) -> (s: String)
    requires
        req_string_ok(req_bytes(ctx@), FIELD_VERSION_OFF as int),
    ensures
        s@ == decode_utf8(req_string(req_bytes(ctx@), FIELD_VERSION_OFF as int)),
{
    req_str(ctx, FIELD_VERSION_OFF)
}

/// The query string, empty when there is none.
pub fn uwr_get_http_query(ctx: &luw_ctx_t) -> (s: String)
    requires
        req_string_ok(req_bytes(ctx@), FIELD_QUERY_OFF as int),
    ensures
        s@ == decode_utf8(req_string(req_bytes(ctx@), FIELD_QUERY_OFF as int)),
{
    req_str(ctx, FIELD_QUERY_OFF)
}

/// The remote (client, peer) address.
pub fn uwr_get_http_remote(ctx: &luw_ctx_t) -> (s: String)
    requires
        req_string_ok(req_bytes(ctx@), FIELD_REMOTE_OFF as int),
    ensures
        s@ == decode_utf8(req_string(req_bytes(ctx@), FIELD_REMOTE_OFF as int)),
{
    req_str(ctx, FIELD_REMOTE_OFF)
}

/// The local (server) address.
pub fn uwr_get_http_local_addr(ctx: &luw_ctx_t) -> (s: String)
    requires
        req_string_ok(req_bytes(ctx@), FIELD_LOCAL_ADDR_OFF as int),
    ensures
        s@ == decode_utf8(req_string(req_bytes(ctx@), FIELD_LOCAL_ADDR_OFF as int)),
{
    req_str(ctx, FIELD_LOCAL_ADDR_OFF)
}

/// The local (server) port.
pub fn uwr_get_http_local_port(ctx: &luw_ctx_t) -> (s: String)
    requires
        req_string_ok(req_bytes(ctx@), FIELD_LOCAL_PORT_OFF as int),
    ensures
        s@ == decode_utf8(req_string(req_bytes(ctx@), FIELD_LOCAL_PORT_OFF as int)),
{
    req_str(ctx, FIELD_LOCAL_PORT_OFF)
}

/// The server name.
pub fn uwr_get_http_server_name(ctx: &luw_ctx_t) -> (s: String)
    requires
        req_string_ok(req_bytes(ctx@), FIELD_SERVER_NAME_OFF as int),
    ensures
        s@ == decode_utf8(req_string(req_bytes(ctx@), FIELD_SERVER_NAME_OFF as int)),
{
    req_str(ctx, FIELD_SERVER_NAME_OFF)
}

/// The size of the whole request body, i.e. Content-Length.
pub fn uwr_get_http_content_len(ctx: &luw_ctx_t) -> (n: u64)
    requires
        FIELD_CONTENT_LEN + 4 <= req_bytes(ctx@).len(),
    ensures
        n == req_field(req_bytes(ctx@), FIELD_CONTENT_LEN as int),
{
    req_u32(ctx, FIELD_CONTENT_LEN) as u64
}

/// How much body data was sent to the module in this call.
pub fn uwr_get_http_content_sent(ctx: &luw_ctx_t) -> (n: usize)
    requires
        FIELD_CONTENT_SENT + 4 <= req_bytes(ctx@).len(),
    ensures
        n == req_field(req_bytes(ctx@), FIELD_CONTENT_SENT as int),
{
    req_u32(ctx, FIELD_CONTENT_SENT) as usize
}

/// How much body data was sent to the module so far, over all calls.
pub fn uwr_get_http_total_content_sent(ctx: &luw_ctx_t) -> (n: u64)
    requires
        FIELD_TOTAL_CONTENT_SENT + 4 <= req_bytes(ctx@).len(),
    ensures
        n == req_field(req_bytes(ctx@), FIELD_TOTAL_CONTENT_SENT as int),
{
    req_u32(ctx, FIELD_TOTAL_CONTENT_SENT) as u64
}

/// Whether the connection was made over TLS.
pub fn uwr_http_is_tls(ctx: &luw_ctx_t) -> (b: bool)
    requires
        FIELD_TLS + 4 <= req_bytes(ctx@).len(),
    ensures
        b == (req_field(req_bytes(ctx@), FIELD_TLS as int) != 0),
{
    req_u32(ctx, FIELD_TLS) != 0
}

/// The request body from its start to the end of the request buffer.
pub fn uwr_get_http_content(ctx: &luw_ctx_t) -> (c: &[u8])
    requires
        FIELD_CONTENT_OFF + 4 <= req_bytes(ctx@).len(),
        req_field(req_bytes(ctx@), FIELD_CONTENT_OFF as int) <= req_bytes(ctx@).len(),
    ensures
        c@ == req_bytes(ctx@).subrange(
            req_field(req_bytes(ctx@), FIELD_CONTENT_OFF as int),
            req_bytes(ctx@).len() as int,
        ),
{
    let r = req_slice(ctx);
    let off = read_le_u32(r, FIELD_CONTENT_OFF) as usize;
    &r[off..r.len()]
}

/// The request body received so far, as text.
pub fn uwr_get_http_content_str(ctx: &luw_ctx_t) -> (s: String)
    requires
        FIELD_TOTAL_CONTENT_SENT + 4 <= req_bytes(ctx@).len(),
        req_field(req_bytes(ctx@), FIELD_CONTENT_OFF as int) + req_field(
            req_bytes(ctx@),
            FIELD_TOTAL_CONTENT_SENT as int,
        ) <= req_bytes(ctx@).len(),
        valid_utf8(received_content(req_bytes(ctx@))),
    ensures
        s@ == decode_utf8(received_content(req_bytes(ctx@))),
{
    let r = req_slice(ctx);
    let off = read_le_u32(r, FIELD_CONTENT_OFF) as usize;
    let total = read_le_u32(r, FIELD_TOTAL_CONTENT_SENT) as usize;
    let _len = r.len();
    utf8_string(copy_range(r, off, off + total))
}

/// The body bytes received so far, over all calls.
pub open spec fn received_content(r: Seq<u8>) -> Seq<u8> {
    r.subrange(
        req_field(r, FIELD_CONTENT_OFF as int),
        req_field(r, FIELD_CONTENT_OFF as int) + req_field(r, FIELD_TOTAL_CONTENT_SENT as int),
    )
}

/// The number of request headers.
pub fn uwr_http_hdr_count(ctx: &luw_ctx_t) -> (n: u32)
    requires
        FIELD_NR_FIELDS + 4 <= req_bytes(ctx@).len(),
    ensures
        n == req_field(req_bytes(ctx@), FIELD_NR_FIELDS as int),
{
    req_u32(ctx, FIELD_NR_FIELDS)
}

/// Reads the bytes of the C string whose offset the field at position `at`
/// of `r` holds, without its NUL, when it can be read.
fn req_cstr_checked(r: &[u8], at: usize) -> (s: Option<Vec<u8>>)
    ensures
        s is Some <==> req_cstr_ok(r@, at as int),
        s matches Some(x) ==> x@ == req_string(r@, at as int),
{
    let n = r.len();
    if at > n || n - at < 4 {
        return None;
    }
    let off = read_le_u32(r, at) as usize;
    match cstr_find_end(r, off) {
        None => None,
        Some(end) => Some(copy_range(r, off, end)),
    }
}

/// Name and value of request header `idx`, as the bytes of their C strings
/// without the NUL; `None` when the header field does not lie in the request
/// or one of its strings is not NUL-terminated in it.
pub fn uwr_http_hdr_field(ctx: &luw_ctx_t, idx: u32) -> (hv: Option<(Vec<u8>, Vec<u8>)>)
    ensures
        hv is Some <==> req_hdr_ok(req_bytes(ctx@), idx as int),
        hv matches Some(p) ==> p.0@ == req_hdr_name(req_bytes(ctx@), idx as int)
            && p.1@ == req_hdr_value(req_bytes(ctx@), idx as int),
{
    let r = req_slice(ctx);
    let len = r.len();
    let i = idx as usize;
    if len < REQ_FIELDS {
        return None;
    }
    let room = (len - REQ_FIELDS) / HDR_FIELD_SIZE;
    if i >= room {
        assert(REQ_FIELDS + HDR_FIELD_SIZE * (i + 1) > len) by (nonlinear_arith)
            requires
                i >= room,
                room == (len - 92) / 16,
                len >= 92,
                REQ_FIELDS == 92,
                HDR_FIELD_SIZE == 16,
        ;
        return None;
    }
    assert(REQ_FIELDS + HDR_FIELD_SIZE * (i + 1) <= len) by (nonlinear_arith)
        requires
            i < room,
            room == (len - 92) / 16,
            len >= 92,
            REQ_FIELDS == 92,
            HDR_FIELD_SIZE == 16,
    ;
    let pos = REQ_FIELDS + HDR_FIELD_SIZE * i;
    match req_cstr_checked(r, pos) {
        None => None,
        Some(name) => match req_cstr_checked(r, pos + 8) {
            None => None,
            Some(value) => Some((name, value)),
        },
    }
}

/// One step of walking the request headers: after the callback for the
/// previous header answered `go_on` (true before the first), gives the index
/// of the header to hand over next, or `None` when the walk ends, because the
/// callback asked to stop or because no header is left.
pub fn uwr_http_hdr_iter_step(ctx: &luw_ctx_t, idx: u32, go_on: bool) -> (next: Option<u32>)
    requires
        FIELD_NR_FIELDS + 4 <= req_bytes(ctx@).len(),
    ensures
        next == (if go_on && idx < req_field(req_bytes(ctx@), FIELD_NR_FIELDS as int) {
            Some(idx)
        } else {
            None::<u32>
        }),
{
    if !go_on {
        return None;
    }
    let nr = uwr_http_hdr_count(ctx);
    if idx < nr {
        Some(idx)
    } else {
        None
    }
}

/// Compares two byte strings, ignoring the case of ASCII letters.
fn bytes_eq_ignore_ascii_case(a: &[u8], b: &[u8]) -> (eq: bool)
    ensures
        eq == eq_ignore_ascii_case(a@, b@),
{
    if a.len() != b.len() {
        return false;
    }
    let n = a.len();
    let mut i: usize = 0;
    while i < n
        invariant
            n == a@.len(),
            n == b@.len(),
            i <= n,
            forall|j: int| 0 <= j < i ==> ascii_lower(#[trigger] a@[j]) == ascii_lower(b@[j]),
        decreases n - i,
    {
        let x = if 65 <= a[i] && a[i] <= 90 {
            a[i] + 32
        } else {
            a[i]
        };
        let y = if 65 <= b[i] && b[i] <= 90 {
            b[i] + 32
        } else {
            b[i]
        };
        if x != y {
            assert(ascii_lower(a@[i as int]) != ascii_lower(b@[i as int]));
            return false;
        }
        i = i + 1;
    }
    true
}

/// The value of the first request header whose name is `hdr`, compared
/// without regard to the case of ASCII letters; `None` when there is none.
pub fn uwr_http_hdr_get_value(ctx: &luw_ctx_t, hdr: &str) -> (v: Option<String>)
    requires
        FIELD_NR_FIELDS + 4 <= req_bytes(ctx@).len(),
        hdr_lookup_ok(req_bytes(ctx@), c_view(hdr.spec_bytes()), 0),
    ensures
        match hdr_lookup(req_bytes(ctx@), c_view(hdr.spec_bytes()), 0) {
            None => v is None,
            Some(i) => v matches Some(s) && s@ == decode_utf8(
                req_hdr_value(req_bytes(ctx@), i as int),
            ),
        },
{
    let r = req_slice(ctx);
    let rlen = r.len();
    let t = c_bytes(hdr.as_bytes());
    let nr = read_le_u32(r, FIELD_NR_FIELDS);
    let mut i: u32 = 0;
    while i < nr
        invariant
            r@ == req_bytes(ctx@),
            t@ == c_view(hdr.spec_bytes()),
            rlen == r@.len(),
            nr == req_field(r@, FIELD_NR_FIELDS as int),
            i <= nr,
            hdr_lookup(r@, t@, 0) == hdr_lookup(r@, t@, i as nat),
            hdr_lookup_ok(r@, t@, i as nat),
        decreases nr - i,
    {
        let pos = REQ_FIELDS + HDR_FIELD_SIZE * (i as usize);
        let name_off = read_le_u32(r, pos) as usize;
        let name = cstr_bytes(r, name_off);
        assert(pos == hdr_field_pos(i as int));
        assert(name@ == req_hdr_name(r@, i as int));
        if bytes_eq_ignore_ascii_case(name.as_slice(), t.as_slice()) {
            assert(hdr_lookup(r@, t@, i as nat) == Some(i as nat));
            return Some(req_str(ctx, pos + 8));
        }
        i = i + 1;
    }
    None
}

/// The body bytes that the request structure `src` carries in this call.
pub fn uwr_req_sent_content(src: &[u8]) -> (c: &[u8])
    requires
        sent_content_ok(src@),
    ensures
        c@ == sent_content(src@),
{
    let off = read_le_u32(src, FIELD_CONTENT_OFF) as usize;
    let sent = read_le_u32(src, FIELD_CONTENT_SENT) as usize;
    let _len = src.len();
    &src[off..off + sent]
}

} // verus!
