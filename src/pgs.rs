//! PGS (Blu-ray Presentation Graphic Stream, `.sup`) decoding.
pub mod rle;
pub mod segment;
pub mod window;
pub mod palette;
pub mod object;
pub mod composition;
pub mod display_set;
pub mod parser;
