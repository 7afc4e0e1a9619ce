//! Driver stack for the Microchip 93C46-style serial EEPROM behind the
//! OX16PCI954: pin-level hardware capability, Microwire signal timing, and
//! the 93C46 instruction set.
//!
//! Instructions are a `1` start bit, a 2-bit opcode and a 6-bit address;
//! some carry a 16-bit data phase:
//! - `0b11`: ERASE at address
//! - `0b00` at `0b00????`: EWDS (erase/write disable)
//! - `0b00` at `0b01????`: WRAL (write all), with data
//! - `0b00` at `0b10????`: ERAL (erase all)
//! - `0b00` at `0b11????`: EWEN (erase/write enable)
//! - `0b10`: READ, receive data
//! - `0b01`: WRITE, send data

pub mod hardware;
pub mod low_level;
pub mod operations;

