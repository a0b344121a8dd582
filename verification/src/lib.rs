//! Decoder for raw frame captures whose pixels are stored as a reversed stream
//! of RGB triples, scrambled in 8×8 tiles, and followed by a 12-byte footer
//! that carries the image dimensions.
//!
//! A capture is decoded in four steps: the footer gives the dimensions, the
//! body is read backwards into packed colours, the colours are cut into
//! tiles that are each unscrambled, and the tiles are written into a raster
//! that is mirrored left to right and cropped to the logical size.

pub mod assemble;
pub mod color;
pub mod decoder;
pub mod error;
pub mod footer;
pub mod naming;
pub mod permutation;
pub mod raster;
pub mod stream;
pub mod tile;
pub mod tiled;

pub use decoder::{decode_image, DecodedImage};
pub use error::DecodeError;
pub use footer::{parse_footer, Footer};
pub use raster::Raster;
pub use tile::{Tile, THEIGHT, TWIDTH};
pub use tiled::TiledImage;
