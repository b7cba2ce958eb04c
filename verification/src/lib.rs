//! A verified model of the guest side of the NGINX Unit WebAssembly
//! interface: the request structure that the host places in shared memory,
//! the response buffer and response headers that the guest builds there,
//! and the request copy that a module keeps across calls.

#![allow(non_camel_case_types)]
#![allow(non_snake_case)]

pub mod bytes;
pub mod ctx;
pub mod flags;
pub mod laws;
pub mod reqbuf;
pub mod request;
pub mod response;
pub mod rusty;


