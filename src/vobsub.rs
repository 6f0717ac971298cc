//! VobSub (DVD `.idx` + `.sub`) decoding.
pub mod idx_parser;
pub mod rle;
pub mod sub_parser;
pub mod vobsub_parser;
pub mod deband;
