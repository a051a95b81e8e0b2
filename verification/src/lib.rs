//! Decoder for a chunked, compressed game-asset texture container.
//!
//! A container wraps a chunk stream in one of three compression schemes,
//! picked by magic-byte sniffing (`dispatch`); the stream is walked chunk
//! by chunk (`container`) through a bounds-aware byte reader (`reader`);
//! image chunks carry packed pixel samples in one of several sub-formats
//! (`pixel`), some stored in 32x32 block-scan order that must be
//! deinterleaved back into raster order (`tile`).

pub mod container;
pub mod dispatch;
pub mod error;
pub mod pixel;
pub mod reader;
pub mod tile;
