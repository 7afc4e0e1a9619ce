//! Tooling for the serial configuration EEPROMs on Axxon PCIe-to-PCI bridge
//! cards: a PEX8112 bridge paired with OX16PCI954 multi-UART chips, each with
//! an attached serial EEPROM holding its power-on configuration image.

use vstd::prelude::*;

pub mod axxon;
pub mod eectl;
pub mod image;
pub mod local_config;
pub mod pci_window;
pub mod endpoint;
pub mod ox16;
pub mod serial;

verus! {

/// Split a PCI little-endian dword into its four bytes.
pub fn pci_dword_to_bytes(val: u32) -> (r: [u8; 4])
    ensures
        r[0] == (val & 0xff) as u8,
        r[1] == ((val >> 8) & 0xff) as u8,
        r[2] == ((val >> 16) & 0xff) as u8,
        r[3] == ((val >> 24) & 0xff) as u8,
{
    [(val & 0xff) as u8, ((val >> 8) & 0xff) as u8, ((val >> 16) & 0xff) as u8, ((val >> 24)
        & 0xff) as u8]
}

/// Assemble a PCI little-endian dword from its four bytes.
pub fn pci_dword_from_bytes(val: [u8; 4]) -> (r: u32)
    ensures
        r == (val[0] as u32) | ((val[1] as u32) << 8) | ((val[2] as u32) << 16) | ((val[3] as u32)
            << 24),
{
    let b0 = val[0];
    let b1 = val[1];
    let b2 = val[2];
    let b3 = val[3];
    (b0 as u32) | ((b1 as u32) << 8) | ((b2 as u32) << 16) | ((b3 as u32) << 24)
}

} // verus!
