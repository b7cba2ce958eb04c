//! The functions of the library under one path, as callers import them.

pub use crate::ctx::luw_ctx_t;
pub use crate::ctx::uwr_init_ctx;
pub use crate::ctx::ReqLoc;
pub use crate::ctx::UWR_CTX_INITIALIZER;
pub use crate::flags::luw_srb_flags_t;
pub use crate::flags::LUW_SRB_ALLOC;
pub use crate::flags::LUW_SRB_APPEND;
pub use crate::flags::LUW_SRB_FLAGS_ALL;
pub use crate::flags::LUW_SRB_FULL_SIZE;
pub use crate::flags::LUW_SRB_NONE;
pub use crate::flags::LUW_VERSION_MAJOR;
pub use crate::flags::LUW_VERSION_MINOR;
pub use crate::flags::LUW_VERSION_NUMBER;
pub use crate::flags::LUW_VERSION_PATCH;
pub use crate::reqbuf::uwr_free;
pub use crate::reqbuf::uwr_malloc;
pub use crate::reqbuf::uwr_req_buf_append;
pub use crate::reqbuf::uwr_req_buf_copy;
pub use crate::reqbuf::uwr_set_req_buf;
pub use crate::request::uwr_get_http_content;
pub use crate::request::uwr_get_http_content_len;
pub use crate::request::uwr_get_http_content_sent;
pub use crate::request::uwr_get_http_content_str;
pub use crate::request::uwr_get_http_local_addr;
pub use crate::request::uwr_get_http_local_port;
pub use crate::request::uwr_get_http_method;
pub use crate::request::uwr_get_http_path;
pub use crate::request::uwr_get_http_query;
pub use crate::request::uwr_get_http_remote;
pub use crate::request::uwr_get_http_server_name;
pub use crate::request::uwr_get_http_total_content_sent;
pub use crate::request::uwr_get_http_version;
pub use crate::request::uwr_http_hdr_count;
pub use crate::request::uwr_http_hdr_field;
pub use crate::request::uwr_http_hdr_get_value;
pub use crate::request::uwr_http_hdr_iter_step;
pub use crate::request::uwr_http_is_tls;
pub use crate::request::uwr_req_sent_content;
pub use crate::response::uwr_get_response_data_size;
pub use crate::response::uwr_http_add_header;
pub use crate::response::uwr_http_add_header_content_len;
pub use crate::response::uwr_http_add_header_content_type;
pub use crate::response::uwr_http_init_headers;
pub use crate::response::uwr_http_send_headers;
pub use crate::response::uwr_http_send_response;
pub use crate::response::uwr_luw_mem_reset;
pub use crate::response::uwr_mem_fill_buf_from_req;
pub use crate::response::uwr_mem_write_buf;
pub use crate::response::uwr_mem_write_str;
