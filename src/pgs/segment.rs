//! PGS segment kinds and composition states.
use vstd::prelude::*;

verus! {

/// The kind of a segment, by its tag byte.
#[derive(Debug, Clone, Copy, PartialEq, Eq)]
pub enum SegmentType {
    /// Tag 0x14.
    PaletteDefinition,
    /// Tag 0x15.
    ObjectDefinition,
    /// Tag 0x16.
    PresentationComposition,
    /// Tag 0x17.
    WindowDefinition,
    /// Tag 0x80.
    End,
}

impl SegmentType {
    /// The segment kind of a tag byte; the byte itself when unknown.
    pub fn try_from_u8(value: u8) -> (r: Result<Self, u8>)
        ensures
            value == 0x14 <==> r == Ok::<SegmentType, u8>(SegmentType::PaletteDefinition),
            value == 0x15 <==> r == Ok::<SegmentType, u8>(SegmentType::ObjectDefinition),
            value == 0x16 <==> r == Ok::<SegmentType, u8>(SegmentType::PresentationComposition),
            value == 0x17 <==> r == Ok::<SegmentType, u8>(SegmentType::WindowDefinition),
            value == 0x80 <==> r == Ok::<SegmentType, u8>(SegmentType::End),
            r.is_err() ==> r == Err::<SegmentType, u8>(value),
    {
        match value {
            0x14 => Ok(SegmentType::PaletteDefinition),
            0x15 => Ok(SegmentType::ObjectDefinition),
            0x16 => Ok(SegmentType::PresentationComposition),
            0x17 => Ok(SegmentType::WindowDefinition),
            0x80 => Ok(SegmentType::End),
            _ => Err(value),
        }
    }
}

/// How a display set relates to the ones before it.
#[derive(Debug, Clone, Copy, PartialEq, Eq)]
pub enum CompositionState {
    /// Byte 0x00: builds on the preceding display sets.
    Normal,
    /// Byte 0x40: a boundary from which the picture can be rebuilt.
    AcquisitionPoint,
    /// Byte 0x80: a new epoch; all earlier state is void.
    EpochStart,
}

/// The state byte of an acquisition point.
pub const ACQUISITION_POINT: u8 = 0x40;

/// The state byte of an epoch start.
pub const EPOCH_START: u8 = 0x80;

impl CompositionState {
    /// The composition state of a state byte; the byte itself when unknown.
    pub fn try_from_u8(value: u8) -> (r: Result<Self, u8>)
        ensures
            value == 0x00 <==> r == Ok::<CompositionState, u8>(CompositionState::Normal),
            value == 0x40 <==> r == Ok::<CompositionState, u8>(CompositionState::AcquisitionPoint),
            value == 0x80 <==> r == Ok::<CompositionState, u8>(CompositionState::EpochStart),
            r.is_err() ==> r == Err::<CompositionState, u8>(value),
    {
        match value {
            0x00 => Ok(CompositionState::Normal),
            0x40 => Ok(CompositionState::AcquisitionPoint),
            0x80 => Ok(CompositionState::EpochStart),
            _ => Err(value),
        }
    }
}

} // verus!
