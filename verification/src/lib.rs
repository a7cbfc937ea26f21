//! Port-to-process resolution engine.
//!
//! Decodes the kernel-exposed socket tables of three operating systems into
//! one canonical record type, and normalizes (filters, sorts, deduplicates)
//! the result into a single ordered snapshot.

pub mod assemble;
pub mod bytes;
pub mod config;
pub mod docker;
pub mod format;
pub mod linux;
pub mod macos;
pub mod model;
pub mod process;
pub mod state;
pub mod text;
pub mod ui;
pub mod windows;

use vstd::prelude::*;

verus! {

/// The canonical protocol kind of a socket record.
///
/// An explicit flag rather than a string prefix: the listening filter treats
/// every UDP entry as bound, whatever its state.
#[derive(Clone, Copy, Debug, PartialEq, Eq, Structural)]
pub enum Protocol {
    Tcp,
    Udp,
}

impl Protocol {
    /// The display label, "TCP" or "UDP".
    pub fn as_str(&self) -> (r: &'static str)
        ensures
            *self == Protocol::Tcp ==> r@ == "TCP"@,
            *self == Protocol::Udp ==> r@ == "UDP"@,
    {
        match self {
            Protocol::Tcp => "TCP",
            Protocol::Udp => "UDP",
        }
    }
}

} // verus!
