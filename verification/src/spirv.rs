use vstd::prelude::*;

verus! {

// Constants of the binary format: the header magic word, the opcodes,
// storage classes, decorations and image dimensions that resource
// reflection reads. Unlisted opcodes are skipped by the builder.

pub const MAGIC_NUMBER: u32 = 0x0723_0203;
pub const HEADER_WORDS: usize = 5;

pub const OP_NAME: u32 = 5;
pub const OP_TYPE_VOID: u32 = 19;
pub const OP_TYPE_BOOL: u32 = 20;
pub const OP_TYPE_INT: u32 = 21;
pub const OP_TYPE_FLOAT: u32 = 22;
pub const OP_TYPE_VECTOR: u32 = 23;
pub const OP_TYPE_MATRIX: u32 = 24;
pub const OP_TYPE_IMAGE: u32 = 25;
pub const OP_TYPE_SAMPLER: u32 = 26;
pub const OP_TYPE_SAMPLED_IMAGE: u32 = 27;
pub const OP_TYPE_ARRAY: u32 = 28;
pub const OP_TYPE_RUNTIME_ARRAY: u32 = 29;
pub const OP_TYPE_STRUCT: u32 = 30;
pub const OP_TYPE_OPAQUE: u32 = 31;
pub const OP_TYPE_POINTER: u32 = 32;
pub const OP_CONSTANT: u32 = 43;
pub const OP_VARIABLE: u32 = 59;
pub const OP_DECORATE: u32 = 71;

pub const SC_UNIFORM_CONSTANT: u32 = 0;
pub const SC_UNIFORM: u32 = 2;
pub const SC_PUSH_CONSTANT: u32 = 9;
pub const SC_STORAGE_BUFFER: u32 = 12;

pub const DEC_BLOCK: u32 = 2;
pub const DEC_BUFFER_BLOCK: u32 = 3;
pub const DEC_BINDING: u32 = 33;
pub const DEC_DESCRIPTOR_SET: u32 = 34;
pub const DEC_INPUT_ATTACHMENT_INDEX: u32 = 43;

pub const DIM_SUBPASS_DATA: u32 = 6;

} // verus!
