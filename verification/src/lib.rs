//! SHA-512 arithmetization core: the bit-level model of the padding rule,
//! the bit/word conversions, the XOR-as-polynomial round gadget and the
//! 16-round compression driver, each with a proved contract.

pub mod bits;
pub mod compress;
pub mod gadget;
pub mod padding;
pub mod word;
