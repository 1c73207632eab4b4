//! Events that the parser reports for the control strings it collects
//! (OSC, DCS and APC), as the terminal classifies them.
use vstd::prelude::*;

verus! {

/// A sixel image payload carried by a DCS string.
#[derive(Debug, Clone, PartialEq, Eq)]
pub struct SixelEvent {
    pub payload: Vec<u8>,
}

/// A device control string.
#[derive(Debug, Clone, PartialEq, Eq)]
pub enum DcsEvent {
    Generic(Vec<u8>),
    Sixel(SixelEvent),
}

/// An application program command.
#[derive(Debug, Clone, PartialEq, Eq)]
pub enum ApcEvent {
    Generic(Vec<u8>),
    KittyGraphics(Vec<u8>),
}

/// An operating system command: a title change, a clipboard write, or one
/// passed on as it came.
#[derive(Debug, Clone, PartialEq, Eq)]
pub enum OscEvent {
    Raw(Vec<u8>),
    Title { raw: Vec<u8>, title: String },
    Clipboard { raw: Vec<u8>, data: Vec<u8> },
}

/// Any control string event.
#[derive(Debug, Clone, PartialEq, Eq)]
pub enum ControlStringEvent {
    Osc(OscEvent),
    Dcs(DcsEvent),
    Apc(ApcEvent),
}

} // verus!
