use vstd::prelude::*;

verus! {

/// Major version of the interface.
pub const LUW_VERSION_MAJOR: i32 = 0;

/// Minor version of the interface.
pub const LUW_VERSION_MINOR: i32 = 2;

/// Patch level of the interface.
pub const LUW_VERSION_PATCH: i32 = 0;

/// Version number in the form 0xMMmmpp00.
pub const LUW_VERSION_NUMBER: i32 = (LUW_VERSION_MAJOR << 24) | (LUW_VERSION_MINOR << 16) | (
LUW_VERSION_PATCH << 8);

} // verus!

verus! {

/// Flags of `uwr_set_req_buf`.
#[derive(Clone, Copy, PartialEq, Eq, Structural, Debug)]
pub enum luw_srb_flags_t {
    /// Only copy the request.
    LUW_SRB_NONE,
    /// Later request data is appended to the copy.
    LUW_SRB_APPEND,
    /// Allocate the buffer for the copy.
    LUW_SRB_ALLOC,
    /// With `LUW_SRB_ALLOC`: allocate room for the whole request, body included.
    LUW_SRB_FULL_SIZE,
    /// All flags together.
    LUW_SRB_FLAGS_ALL,
}

impl luw_srb_flags_t {
    /// The bit pattern of the flag.
    pub fn bits(&self) -> (b: u32)
        ensures
            b == self.spec_bits(),
    {
        match self {
            luw_srb_flags_t::LUW_SRB_NONE => 0x00,
            luw_srb_flags_t::LUW_SRB_APPEND => 0x01,
            luw_srb_flags_t::LUW_SRB_ALLOC => 0x02,
            luw_srb_flags_t::LUW_SRB_FULL_SIZE => 0x04,
            luw_srb_flags_t::LUW_SRB_FLAGS_ALL => 0x07,
        }
    }

    pub open spec fn spec_bits(&self) -> u32 {
        match self {
            luw_srb_flags_t::LUW_SRB_NONE => 0x00,
            luw_srb_flags_t::LUW_SRB_APPEND => 0x01,
            luw_srb_flags_t::LUW_SRB_ALLOC => 0x02,
            luw_srb_flags_t::LUW_SRB_FULL_SIZE => 0x04,
            luw_srb_flags_t::LUW_SRB_FLAGS_ALL => 0x07,
        }
    }
}

/// No specific action: the request is copied into the given buffer.
pub const LUW_SRB_NONE: u32 = 0x00;

/// Append mode: the first request is copied whole, later ones only add their body data.
pub const LUW_SRB_APPEND: u32 = 0x01;

/// Allocate the buffer for the copy.
pub const LUW_SRB_ALLOC: u32 = 0x02;

/// With `LUW_SRB_ALLOC`: allocate room for the entire request that will be sent.
pub const LUW_SRB_FULL_SIZE: u32 = 0x04;

/// All the flags.
pub const LUW_SRB_FLAGS_ALL: u32 = 0x07;

/// The flags are known ones, and `LUW_SRB_FULL_SIZE` comes only with `LUW_SRB_ALLOC`.
pub open spec fn srb_flags_valid(flags: u32) -> bool {
    &&& flags & !LUW_SRB_FLAGS_ALL == 0
    &&& (flags & LUW_SRB_FULL_SIZE != 0 ==> flags & LUW_SRB_ALLOC != 0)
}

} // verus!
