//! GIFT-128 block cipher building blocks in the fixsliced representation:
//! the bitsliced S-box, the lane rotations of the linear layer, the
//! conversion between byte blocks and the four-word fixsliced state, and the
//! key schedule that produces the fixsliced round keys.

pub mod gift128;
pub mod key_schedule;
pub mod primitives;
