//! Typed read and write views over the PEX8112 serial-EEPROM control word
//! (EECTL), a single 32-bit register reached indirectly through the
//! main-index/main-data configuration-space pair.

use vstd::prelude::*;

verus! {

/// Number of address bytes the serial EEPROM expects after a command opcode.
#[derive(Clone, Copy, PartialEq, Eq, Structural, Debug)]
pub enum AddressWidth {
    One,
    Two,
    Three,
}

impl AddressWidth {
    /// The width in bytes, as an integer.
    pub fn byte_count(&self) -> (r: u8)
        ensures
            r == self.spec_byte_count(),
    {
        match self {
            AddressWidth::One => 1,
            AddressWidth::Two => 2,
            AddressWidth::Three => 3,
        }
    }

    pub open spec fn spec_byte_count(self) -> u8 {
        match self {
            AddressWidth::One => 1,
            AddressWidth::Two => 2,
            AddressWidth::Three => 3,
        }
    }
}

pub const EEPROM_WRITE_DATA_MASK: u32 = 0x0000_00ff;

pub const EEPROM_READ_DATA_MASK: u32 = 0x0000_ff00;

pub const EEPROM_BYTE_WRITE_START: u32 = 0x0001_0000;

pub const EEPROM_BYTE_READ_START: u32 = 0x0002_0000;

pub const EEPROM_CHIP_SELECT: u32 = 0x0004_0000;

pub const EEPROM_BUSY: u32 = 0x0008_0000;

pub const EEPROM_VALID: u32 = 0x0010_0000;

pub const EEPROM_PRESENT: u32 = 0x0020_0000;

pub const EEPROM_CHIP_SELECT_ACTIVE: u32 = 0x0040_0000;

pub const EEPROM_ADDRESS_WIDTH_SHIFT: u32 = 23;

pub const EEPROM_ADDRESS_WIDTH_MASK: u32 = 0x0180_0000;

pub const EEPROM_RELOAD: u32 = 0x8000_0000;

/// The writable fields of EECTL: write data, the two start bits and
/// chip select.  "Off" means all of them are zero.
pub const EEPROM_OFF_MASK: u32 = 0x0007_00ff;

/// Low byte of an EECTL word: the data to be written to the EEPROM.
pub open spec fn ee_write_data_of(v: u32) -> u8 {
    (v & EEPROM_WRITE_DATA_MASK) as u8
}

/// Second byte of an EECTL word: the data last read from the EEPROM.
pub open spec fn ee_read_data_of(v: u32) -> u8 {
    ((v >> 8) & 0xff) as u8
}

pub open spec fn ee_bit(v: u32, mask: u32) -> bool {
    v & mask != 0
}

/// Two-bit address-width code: 0 unknown, otherwise the width in bytes.
pub open spec fn ee_width_code(v: u32) -> u32 {
    (v & EEPROM_ADDRESS_WIDTH_MASK) >> EEPROM_ADDRESS_WIDTH_SHIFT
}

pub open spec fn ee_address_width_of(v: u32) -> Option<AddressWidth> {
    if ee_width_code(v) == 1 {
        Some(AddressWidth::One)
    } else if ee_width_code(v) == 2 {
        Some(AddressWidth::Two)
    } else if ee_width_code(v) == 3 {
        Some(AddressWidth::Three)
    } else {
        None
    }
}

/// All writable fields of the word are zero.
pub open spec fn ee_is_off(v: u32) -> bool {
    v & EEPROM_OFF_MASK == 0
}

/// EECTL as read back from the device: all fields, including the
/// read-only status bits, are visible.
#[derive(Clone, Copy, PartialEq, Eq, Structural, Debug)]
pub struct EeControlRead(pub u32);

impl EeControlRead {
    /// Keep only the flags that are safe to write back.
    pub fn into_write(&self) -> (r: EeControlWrite)
        ensures
            r.0 == self.0 & EEPROM_OFF_MASK,
    {
        EeControlWrite(self.0 & EEPROM_OFF_MASK)
    }

    /// The write-data field as last latched.
    pub fn get_write_data(&self) -> (r: u8)
        ensures
            r == ee_write_data_of(self.0),
    {
        (self.0 & EEPROM_WRITE_DATA_MASK) as u8
    }

    /// The byte most recently read from the EEPROM.
    pub fn data(&self) -> (r: u8)
        ensures
            r == ee_read_data_of(self.0),
    {
        ((self.0 >> 8) & 0xff) as u8
    }

    /// Address width reported by the chip; `None` when not yet known.
    pub fn address_width(&self) -> (r: Option<AddressWidth>)
        ensures
            r == ee_address_width_of(self.0),
    {
        let code = (self.0 & EEPROM_ADDRESS_WIDTH_MASK) >> EEPROM_ADDRESS_WIDTH_SHIFT;
        if code == 1 {
            Some(AddressWidth::One)
        } else if code == 2 {
            Some(AddressWidth::Two)
        } else if code == 3 {
            Some(AddressWidth::Three)
        } else {
            None
        }
    }

    pub fn is_byte_write_start(&self) -> (r: bool)
        ensures
            r == ee_bit(self.0, EEPROM_BYTE_WRITE_START),
    {
        0 != self.0 & EEPROM_BYTE_WRITE_START
    }

    pub fn is_byte_read_start(&self) -> (r: bool)
        ensures
            r == ee_bit(self.0, EEPROM_BYTE_READ_START),
    {
        0 != self.0 & EEPROM_BYTE_READ_START
    }

    pub fn is_chip_select(&self) -> (r: bool)
        ensures
            r == ee_bit(self.0, EEPROM_CHIP_SELECT),
    {
        0 != self.0 & EEPROM_CHIP_SELECT
    }

    pub fn is_busy(&self) -> (r: bool)
        ensures
            r == ee_bit(self.0, EEPROM_BUSY),
    {
        0 != self.0 & EEPROM_BUSY
    }

    pub fn is_valid(&self) -> (r: bool)
        ensures
            r == ee_bit(self.0, EEPROM_VALID),
    {
        0 != self.0 & EEPROM_VALID
    }

    pub fn is_present(&self) -> (r: bool)
        ensures
            r == ee_bit(self.0, EEPROM_PRESENT),
    {
        0 != self.0 & EEPROM_PRESENT
    }

    pub fn is_chip_select_active(&self) -> (r: bool)
        ensures
            r == ee_bit(self.0, EEPROM_CHIP_SELECT_ACTIVE),
    {
        0 != self.0 & EEPROM_CHIP_SELECT_ACTIVE
    }

    pub fn is_initialized(&self) -> (r: bool)
        ensures
            r == ee_bit(self.0, EEPROM_RELOAD),
    {
        0 != self.0 & EEPROM_RELOAD
    }

    /// All writable fields are zero.
    pub fn is_off(&self) -> (r: bool)
        ensures
            r == ee_is_off(self.0),
    {
        0 == self.0 & EEPROM_OFF_MASK
    }
}

/// EECTL as composed for writing: only the writable fields matter.
#[derive(Clone, Copy, PartialEq, Eq, Structural, Debug)]
pub struct EeControlWrite(pub u32);

impl EeControlWrite {
    /// The all-zeroes word: deselects the chip and clears every start bit.
    pub fn off() -> (r: Self)
        ensures
            r.0 == 0,
            ee_is_off(r.0),
    {
        proof {
            assert(0u32 & EEPROM_OFF_MASK == 0) by (bit_vector);
        }
        EeControlWrite(0)
    }

    /// A word that sends one byte to the EEPROM: data, byte-write-start
    /// and chip-select set, everything else clear.
    pub fn write_data(data: u8) -> (r: Self)
        ensures
            r.0 == (data as u32) | EEPROM_BYTE_WRITE_START | EEPROM_CHIP_SELECT,
            ee_write_data_of(r.0) == data,
            ee_bit(r.0, EEPROM_BYTE_WRITE_START),
            !ee_bit(r.0, EEPROM_BYTE_READ_START),
            ee_bit(r.0, EEPROM_CHIP_SELECT),
            !ee_bit(r.0, EEPROM_RELOAD),
    {
        let r = EeControlWrite((data as u32) | EEPROM_BYTE_WRITE_START | EEPROM_CHIP_SELECT);
        proof {
            let d = data;
            assert(((d as u32) | 0x0001_0000 | 0x0004_0000) & 0x0000_00ff == d as u32
                && ((d as u32) | 0x0001_0000 | 0x0004_0000) & 0x0001_0000 != 0 && ((d as u32)
                | 0x0001_0000 | 0x0004_0000) & 0x0002_0000 == 0 && ((d as u32) | 0x0001_0000
                | 0x0004_0000) & 0x0004_0000 != 0 && ((d as u32) | 0x0001_0000 | 0x0004_0000)
                & 0x8000_0000 == 0) by (bit_vector);
        }
        r
    }

    /// A word that clocks one byte out of the EEPROM: byte-read-start and
    /// chip-select set, everything else clear.
    pub fn read_data() -> (r: Self)
        ensures
            r.0 == EEPROM_BYTE_READ_START | EEPROM_CHIP_SELECT,
            ee_write_data_of(r.0) == 0,
            !ee_bit(r.0, EEPROM_BYTE_WRITE_START),
            ee_bit(r.0, EEPROM_BYTE_READ_START),
            ee_bit(r.0, EEPROM_CHIP_SELECT),
            !ee_bit(r.0, EEPROM_RELOAD),
    {
        let r = EeControlWrite(EEPROM_BYTE_READ_START | EEPROM_CHIP_SELECT);
        proof {
            assert((0x0002_0000u32 | 0x0004_0000) & 0x0000_00ff == 0 && (0x0002_0000u32
                | 0x0004_0000) & 0x0001_0000 == 0 && (0x0002_0000u32 | 0x0004_0000) & 0x0002_0000
                != 0 && (0x0002_0000u32 | 0x0004_0000) & 0x0004_0000 != 0 && (0x0002_0000u32
                | 0x0004_0000) & 0x8000_0000 == 0) by (bit_vector);
        }
        r
    }

    /// The write-data field.
    pub fn data(&self) -> (r: u8)
        ensures
            r == ee_write_data_of(self.0),
    {
        (self.0 & EEPROM_WRITE_DATA_MASK) as u8
    }

    pub fn set_data(&mut self, data: u8)
        ensures
            final(self).0 == (old(self).0 & !EEPROM_WRITE_DATA_MASK) | (data as u32),
            ee_write_data_of(final(self).0) == data,
    {
        let v = (self.0 & !EEPROM_WRITE_DATA_MASK) | (data as u32);
        proof {
            let w = old(self).0;
            let d = data;
            assert(((w & !0x0000_00ffu32) | (d as u32)) & 0x0000_00ff == d as u32) by (bit_vector);
        }
        self.0 = v;
    }

    pub fn is_byte_write_start(&self) -> (r: bool)
        ensures
            r == ee_bit(self.0, EEPROM_BYTE_WRITE_START),
    {
        0 != self.0 & EEPROM_BYTE_WRITE_START
    }

    pub fn set_byte_write_start(&mut self)
        ensures
            final(self).0 == old(self).0 | EEPROM_BYTE_WRITE_START,
    {
        self.0 = self.0 | EEPROM_BYTE_WRITE_START;
    }

    pub fn clear_byte_write_start(&mut self)
        ensures
            final(self).0 == old(self).0 & !EEPROM_BYTE_WRITE_START,
    {
        self.0 = self.0 & !EEPROM_BYTE_WRITE_START;
    }

    pub fn is_byte_read_start(&self) -> (r: bool)
        ensures
            r == ee_bit(self.0, EEPROM_BYTE_READ_START),
    {
        0 != self.0 & EEPROM_BYTE_READ_START
    }

    pub fn set_byte_read_start(&mut self)
        ensures
            final(self).0 == old(self).0 | EEPROM_BYTE_READ_START,
    {
        self.0 = self.0 | EEPROM_BYTE_READ_START;
    }

    pub fn clear_byte_read_start(&mut self)
        ensures
            final(self).0 == old(self).0 & !EEPROM_BYTE_READ_START,
    {
        self.0 = self.0 & !EEPROM_BYTE_READ_START;
    }

    pub fn is_chip_select(&self) -> (r: bool)
        ensures
            r == ee_bit(self.0, EEPROM_CHIP_SELECT),
    {
        0 != self.0 & EEPROM_CHIP_SELECT
    }

    pub fn set_chip_select(&mut self)
        ensures
            final(self).0 == old(self).0 | EEPROM_CHIP_SELECT,
    {
        self.0 = self.0 | EEPROM_CHIP_SELECT;
    }

    pub fn clear_chip_select(&mut self)
        ensures
            final(self).0 == old(self).0 & !EEPROM_CHIP_SELECT,
    {
        self.0 = self.0 & !EEPROM_CHIP_SELECT;
    }

    pub fn is_reload(&self) -> (r: bool)
        ensures
            r == ee_bit(self.0, EEPROM_RELOAD),
    {
        0 != self.0 & EEPROM_RELOAD
    }

    pub fn set_reload(&mut self)
        ensures
            final(self).0 == old(self).0 | EEPROM_RELOAD,
    {
        self.0 = self.0 | EEPROM_RELOAD;
    }

    pub fn clear_reload(&mut self)
        ensures
            final(self).0 == old(self).0 & !EEPROM_RELOAD,
    {
        self.0 = self.0 & !EEPROM_RELOAD;
    }
}

} // verus!
