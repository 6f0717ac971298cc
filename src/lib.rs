//! Decoding and rendering of graphical subtitles: PGS (Blu-ray `.sup`) and
//! VobSub (DVD `.idx` + `.sub`), turned into positioned RGBA bitmaps.
pub mod utils;
pub mod pgs;
pub mod vobsub;
pub mod renderer;

pub use pgs::parser::{PgsParser, SubtitleComposition, SubtitleFrame};
pub use renderer::{RenderResult, SubtitleFormat, SubtitleRenderer};
pub use vobsub::vobsub_parser::{VobSubFrame, VobSubParser};
