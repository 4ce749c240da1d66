use vstd::prelude::*;

pub mod aml;
pub mod aml_data;
pub mod aml_expr;
pub mod aml_named;
pub mod aml_opcodes;
pub mod aml_parser;
pub mod aml_statement;
pub mod aml_term;
pub mod bitmap;
pub mod boot_alloc;
pub mod boot_info;
pub mod boot_map;
pub mod buddy;
pub mod buddy_math;
pub mod elf;
pub mod frame_allocator;
pub mod frame_bump;
pub mod heap;
pub mod init_frame_allocator;
pub mod kernel_setup;
pub mod layered_bitmap;
pub mod mem_layout;
pub mod page_allocator;
pub mod page_bitmap;
pub mod region;
pub mod scancode;
pub mod slab;
pub mod util;
pub mod word;
pub mod x86;

verus! {
} // verus!
