//! Codec suite for a fighting game's proprietary "BIN" asset archives:
//! LZ-style compressed indexed-color sprites, hitbox cells, palettes,
//! bytecode scripts and the pointer-table container that packs them,
//! together with the XOR/Mersenne-Twister obfuscation layer.

pub mod bits;
pub mod bytes;
pub mod cell;
pub mod compress;
pub mod container;
pub mod decrypt;
pub mod error;
pub mod identify;
pub mod object_data;
pub mod palette;
pub mod script;
pub mod sprite;
pub mod transform;
