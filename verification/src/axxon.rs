//! The PEX8112 side: the indirect EEPROM driver that reaches a serial
//! flash chip through the main-index/main-data configuration-space pair
//! and the EECTL control word, with byte-level SPI-like transactions,
//! idle-waiting, address-width auto-detection and the image flows.

use vstd::prelude::*;

use crate::eectl::{
    ee_address_width_of, ee_bit, ee_is_off, ee_read_data_of, AddressWidth, EeControlRead,
    EeControlWrite, EEPROM_BUSY, EEPROM_BYTE_READ_START, EEPROM_BYTE_WRITE_START,
    EEPROM_CHIP_SELECT, EEPROM_PRESENT, EEPROM_VALID,
};
use crate::endpoint::{Class, DeviceID, VendorId};
use crate::image::{
    spec_decode_image, spec_image_wf, signature_bytes, ImageError, EEPROM_SIGNATURE_OFFSET,
};
use crate::pci_window::{
    cfg_extends, lemma_cfg_extends_app, lemma_cfg_extends_refl, ConfigOp, PciConfigSpace,
    PciConfigSpaceReadOnly,
};

verus! {

broadcast use crate::pci_window::lemma_cfg_extends_trans_auto;

/// Configuration-space offset of the main index register.
pub const MAIN_CONTROL_REGISTER_INDEX: usize = 0x84;

/// Configuration-space offset of the main data register.
pub const MAIN_CONTROL_REGISTER_DATA: usize = 0x88;

/// Main-register address of the device initialization word.
pub const DEVICE_INITIALIZATION: u32 = 0x00;

/// Main-register address of the EECTL word.
pub const SERIAL_EEPROM_CONTROL: u32 = 0x04;

/// SPI opcode: write data.
pub const WRITE_EE_OPCODE: u8 = 0x02;

/// SPI opcode: read data.
pub const READ_EE_OPCODE: u8 = 0x03;

/// SPI opcode: write disable.
pub const WRDI_EE_OPCODE: u8 = 0x04;

/// SPI opcode: read status register.
pub const READ_STATUS_EE_OPCODE: u8 = 0x05;

/// SPI opcode: write enable.
pub const WREN_EE_OPCODE: u8 = 0x06;

/// The driver touches config-space dwords up to the main data register.
pub const MIN_CFG_LEN: usize = 0x8c;

/// How many idle polls the driver may spend before giving up.
pub const IDLE_POLL_LIMIT: u32 = 0x10000;

/// Errors of the PEX8112 EEPROM driver.
#[derive(Clone, Copy, PartialEq, Eq, Structural, Debug)]
pub enum FlashError {
    /// EECTL stayed busy for the whole poll budget.
    Timeout,
    /// EECTL reports no EEPROM attached.
    NotPresent,
    /// EECTL reports the EEPROM content invalid.
    Invalid,
    /// EECTL reports no known address width.
    WidthUnknown,
    /// The device initialization word has PCI Express disabled.
    PciExpressDisabled,
    /// The device initialization word has PCI disabled.
    PciDisabled,
    /// The device initialization word holds a non-default speed.
    BadSpeed,
    /// The five bytes at the signature offset are not `axxon`.
    BadSignature,
    /// The image at the front of the flash is malformed.
    Image(ImageError),
    /// A byte read back after writing differs from what was written.
    VerifyFailed { address: usize, expected: u8, actual: u8 },
    /// The passive width probe read data in the very first byte, where
    /// any chip with at least one address byte still emits all ones.
    WidthProbeLeadingData,
    /// The passive width probe found no data byte within its budget; the
    /// flash may be all ones and only a destructive probe can decide.
    WidthProbeAllOnes,
    /// No candidate width explains the byte the passive probe found.
    WidthNotFound,
    /// The destructive probe wrote a zero byte and read back neither the
    /// zero nor an erased byte.
    WidthWriteMismatch(u8),
    /// The destructive probe ran out of candidate widths.
    WidthNotFoundWithWrite,
}

/// The last two operations select EECTL and read it, returning `v`.
pub open spec fn ends_with_eectl_read(ops: Seq<ConfigOp>, v: u32) -> bool {
    ops.len() >= 2 && ops[ops.len() - 2] == (ConfigOp::WriteDword {
        offset: MAIN_CONTROL_REGISTER_INDEX,
        value: SERIAL_EEPROM_CONTROL,
    }) && ops.last() == (ConfigOp::ReadDword { offset: MAIN_CONTROL_REGISTER_DATA, value: v })
}

/// The last two operations select EECTL and write `v` to it.
pub open spec fn ends_with_eectl_write(ops: Seq<ConfigOp>, v: u32) -> bool {
    ops.len() >= 2 && ops[ops.len() - 2] == (ConfigOp::WriteDword {
        offset: MAIN_CONTROL_REGISTER_INDEX,
        value: SERIAL_EEPROM_CONTROL,
    }) && ops.last() == (ConfigOp::WriteDword { offset: MAIN_CONTROL_REGISTER_DATA, value: v })
}

/// The session has been switched off: the last EECTL interaction either
/// observed the off state with the busy bit clear, or wrote the all-zero
/// off word.
pub open spec fn eectl_switched_off(ops: Seq<ConfigOp>) -> bool {
    (exists|v: u32|
        #![auto]
        ends_with_eectl_read(ops, v) && ee_is_off(v) && !ee_bit(v, EEPROM_BUSY))
        || ends_with_eectl_write(ops, 0)
}

/// The operation pair of one EECTL read returning `v`.
pub open spec fn eectl_read_pair(v: u32) -> Seq<ConfigOp> {
    seq![
        ConfigOp::WriteDword { offset: MAIN_CONTROL_REGISTER_INDEX, value: SERIAL_EEPROM_CONTROL },
        ConfigOp::ReadDword { offset: MAIN_CONTROL_REGISTER_DATA, value: v },
    ]
}

/// The operation pair of one device-initialization read returning `v`.
pub open spec fn devinit_read_pair(v: u32) -> Seq<ConfigOp> {
    seq![
        ConfigOp::WriteDword { offset: MAIN_CONTROL_REGISTER_INDEX, value: DEVICE_INITIALIZATION },
        ConfigOp::ReadDword { offset: MAIN_CONTROL_REGISTER_DATA, value: v },
    ]
}

/// The operation pair of one EECTL write of `v`.
pub open spec fn eectl_write_pair(v: u32) -> Seq<ConfigOp> {
    seq![
        ConfigOp::WriteDword { offset: MAIN_CONTROL_REGISTER_INDEX, value: SERIAL_EEPROM_CONTROL },
        ConfigOp::WriteDword { offset: MAIN_CONTROL_REGISTER_DATA, value: v },
    ]
}

/// A run of EECTL reads that all still showed the busy bit.
pub open spec fn is_busy_polls(t: Seq<ConfigOp>) -> bool
    decreases t.len(),
{
    t.len() == 0 || (t.len() >= 2 && (exists|v: u32|
        #![auto]
        t.subrange(0, 2) == eectl_read_pair(v) && ee_bit(v, EEPROM_BUSY)) && is_busy_polls(
        t.skip(2),
    ))
}

/// One completed idle wait: busy polls, then the read that returned the
/// idle view `v`.
pub open spec fn is_waitidle_chunk(t: Seq<ConfigOp>, v: u32) -> bool {
    !ee_bit(v, EEPROM_BUSY) && (exists|t0: Seq<ConfigOp>|
        #![auto]
        t == t0 + eectl_read_pair(v) && is_busy_polls(t0))
}

/// One `ee_off`: an idle wait, then the all-zero write unless the idle
/// view was already off.
pub open spec fn is_off_chunk(t: Seq<ConfigOp>) -> bool {
    (exists|v: u32| #![auto] is_waitidle_chunk(t, v) && ee_is_off(v)) || (exists|
        t1: Seq<ConfigOp>,
        v: u32,
    |
        #![auto]
        t == t1 + eectl_write_pair(0) && is_waitidle_chunk(t1, v) && !ee_is_off(v))
}

/// One `ee_sendbyte` of `b`: an idle wait, then the write that clocks the
/// byte out with chip select held.
pub open spec fn is_sendbyte_chunk(t: Seq<ConfigOp>, b: u8) -> bool {
    exists|t1: Seq<ConfigOp>, v: u32|
        #![auto]
        t == t1 + eectl_write_pair((b as u32) | EEPROM_BYTE_WRITE_START | EEPROM_CHIP_SELECT)
            && is_waitidle_chunk(t1, v)
}

/// One `ee_readbyte` returning `b`: an idle wait, the write that clocks a
/// byte in with chip select held, and the idle wait whose final view
/// carried `b` in the read-data field.
pub open spec fn is_readbyte_chunk(t: Seq<ConfigOp>, b: u8) -> bool {
    exists|t1: Seq<ConfigOp>, v1: u32, t2: Seq<ConfigOp>, v2: u32|
        #![auto]
        t == t1 + eectl_write_pair(EEPROM_BYTE_READ_START | EEPROM_CHIP_SELECT) + t2
            && is_waitidle_chunk(t1, v1) && is_waitidle_chunk(t2, v2) && ee_read_data_of(v2) == b
}

/// The address bytes of a command, most significant first, as many as
/// the width asks for.
pub open spec fn is_addr_chunk(t: Seq<ConfigOp>, width: AddressWidth, address: usize) -> bool {
    match width {
        AddressWidth::One => is_sendbyte_chunk(t, (address & 0xff) as u8),
        AddressWidth::Two => exists|a: Seq<ConfigOp>, b: Seq<ConfigOp>|
            #![auto]
            t == a + b && is_sendbyte_chunk(a, ((address >> 8) & 0xff) as u8)
                && is_sendbyte_chunk(b, (address & 0xff) as u8),
        AddressWidth::Three => exists|a: Seq<ConfigOp>, b: Seq<ConfigOp>, c: Seq<ConfigOp>|
            #![auto]
            t == a + b + c && is_sendbyte_chunk(a, ((address >> 16) & 0xff) as u8)
                && is_sendbyte_chunk(b, ((address >> 8) & 0xff) as u8) && is_sendbyte_chunk(
                c,
                (address & 0xff) as u8,
            ),
    }
}

/// Opening a READ command: end any pending transaction, send the opcode,
/// send the address bytes; chip select stays asserted.
pub open spec fn is_open_read_chunk(t: Seq<ConfigOp>, width: AddressWidth, address: usize) -> bool {
    exists|t1: Seq<ConfigOp>, t2: Seq<ConfigOp>, t3: Seq<ConfigOp>|
        #![auto]
        t == t1 + t2 + t3 && is_off_chunk(t1) && is_sendbyte_chunk(t2, READ_EE_OPCODE)
            && is_addr_chunk(t3, width, address)
}

/// Opening a WRITE command: end any pending transaction, write enable,
/// end that command, send the opcode and the address bytes; chip select
/// stays asserted.
pub open spec fn is_open_write_chunk(t: Seq<ConfigOp>, width: AddressWidth, address: usize) -> bool {
    exists|t1: Seq<ConfigOp>, t2: Seq<ConfigOp>, t3: Seq<ConfigOp>, t4: Seq<ConfigOp>, t5: Seq<ConfigOp>|
        #![auto]
        t == t1 + t2 + t3 + t4 + t5 && is_off_chunk(t1) && is_sendbyte_chunk(t2, WREN_EE_OPCODE)
            && is_off_chunk(t3) && is_sendbyte_chunk(t4, WRITE_EE_OPCODE) && is_addr_chunk(
            t5,
            width,
            address,
        )
}

/// One whole single-byte READ command at `address` returning `b`.
pub open spec fn is_read_byte_command(
    t: Seq<ConfigOp>,
    width: AddressWidth,
    address: usize,
    b: u8,
) -> bool {
    exists|t1: Seq<ConfigOp>, t2: Seq<ConfigOp>, t3: Seq<ConfigOp>|
        #![auto]
        t == t1 + t2 + t3 && is_open_read_chunk(t1, width, address) && is_readbyte_chunk(t2, b)
            && is_off_chunk(t3)
}

/// One whole single-byte WRITE command of `b` at `address`.
pub open spec fn is_write_byte_command(
    t: Seq<ConfigOp>,
    width: AddressWidth,
    address: usize,
    b: u8,
) -> bool {
    exists|t1: Seq<ConfigOp>, t2: Seq<ConfigOp>, t3: Seq<ConfigOp>|
        #![auto]
        t == t1 + t2 + t3 && is_open_write_chunk(t1, width, address) && is_sendbyte_chunk(t2, b)
            && is_off_chunk(t3)
}

/// The first `n` of `bytes`, each read back to back inside one open
/// command, in order.
pub open spec fn is_readbytes_seq(t: Seq<ConfigOp>, bytes: Seq<u8>, n: int) -> bool
    decreases n,
{
    if n <= 0 {
        t == Seq::<ConfigOp>::empty()
    } else {
        exists|a: Seq<ConfigOp>, b: Seq<ConfigOp>|
            #![auto]
            t == a + b && is_readbytes_seq(a, bytes, n - 1) && is_readbyte_chunk(b, bytes[n - 1])
    }
}

/// The first `n` of `bytes`, each sent back to back inside one open
/// command, in order.
pub open spec fn is_sendbytes_seq(t: Seq<ConfigOp>, bytes: Seq<u8>, n: int) -> bool
    decreases n,
{
    if n <= 0 {
        t == Seq::<ConfigOp>::empty()
    } else {
        exists|a: Seq<ConfigOp>, b: Seq<ConfigOp>|
            #![auto]
            t == a + b && is_sendbytes_seq(a, bytes, n - 1) && is_sendbyte_chunk(b, bytes[n - 1])
    }
}

proof fn lemma_readbytes_seq_snoc(t: Seq<ConfigOp>, u: Seq<ConfigOp>, bytes: Seq<u8>, n: int)
    requires
        0 <= n < bytes.len(),
        is_readbytes_seq(t, bytes, n),
        is_readbyte_chunk(u, bytes[n]),
    ensures
        is_readbytes_seq(t + u, bytes, n + 1),
{
}

proof fn lemma_sendbytes_seq_snoc(t: Seq<ConfigOp>, u: Seq<ConfigOp>, bytes: Seq<u8>, n: int)
    requires
        0 <= n < bytes.len(),
        is_sendbytes_seq(t, bytes, n),
        is_sendbyte_chunk(u, bytes[n]),
    ensures
        is_sendbytes_seq(t + u, bytes, n + 1),
{
}

/// A run of reads depends only on the bytes it covers.
proof fn lemma_readbytes_seq_agree(t: Seq<ConfigOp>, b1: Seq<u8>, b2: Seq<u8>, n: int)
    requires
        is_readbytes_seq(t, b1, n),
        forall|j: int| 0 <= j < n ==> b1[j] == b2[j],
    ensures
        is_readbytes_seq(t, b2, n),
    decreases n,
{
    if n > 0 {
        let (a, b) = choose|a: Seq<ConfigOp>, b: Seq<ConfigOp>|
            #![auto]
            t == a + b && is_readbytes_seq(a, b1, n - 1) && is_readbyte_chunk(b, b1[n - 1]);
        lemma_readbytes_seq_agree(a, b1, b2, n - 1);
        assert(is_readbytes_seq(t, b2, n));
    }
}

/// One whole status read: RDSR sent, one data byte read, switched off.
pub open spec fn is_readstatus_command(t: Seq<ConfigOp>, b: u8) -> bool {
    exists|t1: Seq<ConfigOp>, t2: Seq<ConfigOp>, t3: Seq<ConfigOp>, t4: Seq<ConfigOp>|
        #![auto]
        t == t1 + t2 + t3 + t4 && is_off_chunk(t1) && is_sendbyte_chunk(t2, READ_STATUS_EE_OPCODE)
            && is_readbyte_chunk(t3, b) && is_off_chunk(t4)
}

/// One whole block read: the READ command opened at `address`, every
/// byte of `bytes` read in order, and the switch off.
pub open spec fn is_read_block_session(
    t: Seq<ConfigOp>,
    width: AddressWidth,
    address: usize,
    bytes: Seq<u8>,
) -> bool {
    exists|t1: Seq<ConfigOp>, t2: Seq<ConfigOp>, t3: Seq<ConfigOp>|
        #![auto]
        t == t1 + t2 + t3 && is_open_read_chunk(t1, width, address) && is_readbytes_seq(
            t2,
            bytes,
            bytes.len() as int,
        ) && is_off_chunk(t3)
}

/// One whole image extraction: the READ command opened at address zero,
/// every byte of the result read in order, and the switch off.
pub open spec fn is_extract_image_session(
    t: Seq<ConfigOp>,
    width: AddressWidth,
    bytes: Seq<u8>,
) -> bool {
    exists|t1: Seq<ConfigOp>, t2: Seq<ConfigOp>, t3: Seq<ConfigOp>|
        #![auto]
        t == t1 + t2 + t3 && is_open_read_chunk(t1, width, 0) && is_readbytes_seq(
            t2,
            bytes,
            bytes.len() as int,
        ) && is_off_chunk(t3)
}

/// One whole image write: the image and its `0xFF` padding sent at
/// address zero, the verify pass reading the image bytes back, and the
/// signature written at its offset, each part switched off.
pub open spec fn is_write_image_session(
    t: Seq<ConfigOp>,
    width: AddressWidth,
    img: Seq<u8>,
) -> bool {
    exists|
        t1: Seq<ConfigOp>,
        t2: Seq<ConfigOp>,
        t3: Seq<ConfigOp>,
        t4: Seq<ConfigOp>,
        t5: Seq<ConfigOp>,
        t6: Seq<ConfigOp>,
        t7: Seq<ConfigOp>,
        t8: Seq<ConfigOp>,
        t9: Seq<ConfigOp>,
    |
        #![auto]
        t == t1 + t2 + t3 + t4 + t5 + t6 + t7 + t8 + t9 && is_open_write_chunk(t1, width, 0)
            && is_sendbytes_seq(
            t2,
            img + Seq::new((EEPROM_SIGNATURE_OFFSET - img.len()) as nat, |i: int| 0xffu8),
            EEPROM_SIGNATURE_OFFSET as int,
        ) && is_off_chunk(t3) && is_open_read_chunk(t4, width, 0) && is_readbytes_seq(
            t5,
            img,
            img.len() as int,
        ) && is_off_chunk(t6) && is_open_write_chunk(t7, width, EEPROM_SIGNATURE_OFFSET)
            && is_sendbytes_seq(t8, crate::image::spec_signature(), 5) && is_off_chunk(t9)
}

/// The opening of the width probe: end any transaction, then send the
/// READ opcode with no address bytes.
pub open spec fn is_probe_open_chunk(t: Seq<ConfigOp>) -> bool {
    exists|a: Seq<ConfigOp>, b: Seq<ConfigOp>|
        #![auto]
        t == a + b && is_off_chunk(a) && is_sendbyte_chunk(b, READ_EE_OPCODE)
}

/// `n` all-ones bytes read back to back.
pub open spec fn is_ff_reads(t: Seq<ConfigOp>, n: int) -> bool {
    is_readbytes_seq(t, Seq::new(n as nat, |i: int| 0xffu8), n)
}

/// The probe's scan: `addr` all-ones bytes while the chip was still
/// shifting its address in, then the first data byte.
pub open spec fn is_probe_scan(t: Seq<ConfigOp>, addr: int, data: u8) -> bool {
    exists|a: Seq<ConfigOp>, b: Seq<ConfigOp>|
        #![auto]
        t == a + b && is_ff_reads(a, addr) && is_readbyte_chunk(b, data)
}

/// One confirmation trial: a READ re-opened at `address` under `width`,
/// and one data byte read back.
pub open spec fn is_probe_trial(
    t: Seq<ConfigOp>,
    width: AddressWidth,
    address: usize,
    b: u8,
) -> bool {
    exists|a: Seq<ConfigOp>, c: Seq<ConfigOp>|
        #![auto]
        t == a + c && is_open_read_chunk(a, width, address) && is_readbyte_chunk(c, b)
}

/// A confirmation trial that read back something other than `data`.
pub open spec fn is_failed_probe_trial(
    t: Seq<ConfigOp>,
    width: AddressWidth,
    address: usize,
    data: u8,
) -> bool {
    exists|c: u8| #![auto] c != data && is_probe_trial(t, width, address, c)
}

/// The trials that conclude the probe with `w` after `data` was found at
/// post-opcode read index `addr`: the shorter candidate widths failed
/// (each re-read something other than `data`), the trial of `w` at
/// `addr - w` re-read `data`, and the bus was switched off.  The
/// one-byte conclusion from the very second read (data at index 1)
/// needs no trial; the one-byte trial runs only when `addr` is small
/// enough for a one-byte address to explain it.
pub open spec fn is_probe_conclusion(
    t: Seq<ConfigOp>,
    w: AddressWidth,
    addr: int,
    data: u8,
) -> bool {
    match w {
        AddressWidth::One => (addr == 1 && is_off_chunk(t)) || (2 <= addr < 0x101 && (exists|
            a: Seq<ConfigOp>,
            b: Seq<ConfigOp>,
        |
            #![auto]
            t == a + b && is_probe_trial(a, AddressWidth::One, (addr - 1) as usize, data)
                && is_off_chunk(b))),
        AddressWidth::Two => 2 <= addr < 0x200 && (exists|
            f: Seq<ConfigOp>,
            a: Seq<ConfigOp>,
            b: Seq<ConfigOp>,
        |
            #![auto]
            t == f + a + b && (if addr < 0x101 {
                is_failed_probe_trial(f, AddressWidth::One, (addr - 1) as usize, data)
            } else {
                f == Seq::<ConfigOp>::empty()
            }) && is_probe_trial(a, AddressWidth::Two, (addr - 2) as usize, data) && is_off_chunk(
                b,
            )),
        AddressWidth::Three => 3 <= addr < 0x200 && (exists|
            f1: Seq<ConfigOp>,
            f2: Seq<ConfigOp>,
            a: Seq<ConfigOp>,
            b: Seq<ConfigOp>,
        |
            #![auto]
            t == f1 + f2 + a + b && (if addr < 0x101 {
                is_failed_probe_trial(f1, AddressWidth::One, (addr - 1) as usize, data)
            } else {
                f1 == Seq::<ConfigOp>::empty()
            }) && is_failed_probe_trial(f2, AddressWidth::Two, (addr - 2) as usize, data)
                && is_probe_trial(a, AddressWidth::Three, (addr - 3) as usize, data)
                && is_off_chunk(b)),
    }
}

/// The whole passive probe concluding `w`: the opcode-only open, the
/// scan that found `data` at index `addr`, and the concluding trials.
pub open spec fn is_passive_probe_session(t: Seq<ConfigOp>, w: AddressWidth) -> bool {
    exists|t1: Seq<ConfigOp>, t2: Seq<ConfigOp>, t3: Seq<ConfigOp>, addr: int, data: u8|
        #![auto]
        t == t1 + t2 + t3 && data != 0xff && is_probe_open_chunk(t1) && is_probe_scan(
            t2,
            addr,
            data,
        ) && is_probe_conclusion(t3, w, addr, data)
}

/// The fall-through of the probe: every applicable trial re-read
/// something other than `data`, and the bus was switched off.
pub open spec fn is_probe_fallthrough(t: Seq<ConfigOp>, addr: int, data: u8) -> bool {
    exists|f1: Seq<ConfigOp>, f2: Seq<ConfigOp>, f3: Seq<ConfigOp>, b: Seq<ConfigOp>|
        #![auto]
        t == f1 + f2 + f3 + b && (if addr < 0x101 {
            is_failed_probe_trial(f1, AddressWidth::One, (addr - 1) as usize, data)
        } else {
            f1 == Seq::<ConfigOp>::empty()
        }) && is_failed_probe_trial(f2, AddressWidth::Two, (addr - 2) as usize, data) && (if addr
            >= 3 {
            is_failed_probe_trial(f3, AddressWidth::Three, (addr - 3) as usize, data)
        } else {
            f3 == Seq::<ConfigOp>::empty()
        }) && is_off_chunk(b)
}

/// All-ones reads stay all-ones reads when another one is appended.
proof fn lemma_ff_reads_snoc(t: Seq<ConfigOp>, u: Seq<ConfigOp>, n: int)
    requires
        n >= 0,
        is_ff_reads(t, n),
        is_readbyte_chunk(u, 0xff),
    ensures
        is_ff_reads(t + u, n + 1),
{
    let b1 = Seq::new(n as nat, |i: int| 0xffu8);
    let b2 = Seq::new((n + 1) as nat, |i: int| 0xffu8);
    lemma_readbytes_seq_agree(t, b1, b2, n);
    lemma_readbytes_seq_snoc(t, u, b2, n);
}

/// The appended part of a history that extends another.
pub open spec fn cfg_appended(h: Seq<ConfigOp>, h0: Seq<ConfigOp>) -> Seq<ConfigOp> {
    h.skip(h0.len() as int)
}

/// An extension splits into the old history and the appended part.
pub proof fn lemma_cfg_appended(h: Seq<ConfigOp>, h0: Seq<ConfigOp>)
    requires
        cfg_extends(h, h0),
    ensures
        h == h0 + cfg_appended(h, h0),
{
    assert(h =~= h0 + h.skip(h0.len() as int));
}

/// Write an indirect main register: index, then data.
fn main_write<S: PciConfigSpace>(space: &mut S, offset: u32, data: u32)
    requires
        old(space).cfg_len() >= MIN_CFG_LEN,
    ensures
        final(space).cfg_len() == old(space).cfg_len(),
        final(space).ops() == old(space).ops() + seq![
            ConfigOp::WriteDword { offset: MAIN_CONTROL_REGISTER_INDEX, value: offset },
            ConfigOp::WriteDword { offset: MAIN_CONTROL_REGISTER_DATA, value: data },
        ],
        cfg_extends(final(space).ops(), old(space).ops()),
{
    space.write_dword(MAIN_CONTROL_REGISTER_INDEX, offset);
    space.write_dword(MAIN_CONTROL_REGISTER_DATA, data);
    proof {
        assert(space.ops() =~= old(space).ops() + seq![
            ConfigOp::WriteDword { offset: MAIN_CONTROL_REGISTER_INDEX, value: offset },
            ConfigOp::WriteDword { offset: MAIN_CONTROL_REGISTER_DATA, value: data },
        ]);
        lemma_cfg_extends_app(old(space).ops(), space.ops().skip(old(space).ops().len() as int));
        assert(old(space).ops() =~= space.ops().subrange(0, old(space).ops().len() as int));
    }
}

/// Read an indirect main register: index, then data.  The index must be
/// rewritten before every read; neither register is persistent across
/// unrelated operations.
fn main_read<S: PciConfigSpace>(space: &mut S, offset: u32) -> (r: u32)
    requires
        old(space).cfg_len() >= MIN_CFG_LEN,
    ensures
        final(space).cfg_len() == old(space).cfg_len(),
        final(space).ops() == old(space).ops() + seq![
            ConfigOp::WriteDword { offset: MAIN_CONTROL_REGISTER_INDEX, value: offset },
            ConfigOp::ReadDword { offset: MAIN_CONTROL_REGISTER_DATA, value: r },
        ],
        cfg_extends(final(space).ops(), old(space).ops()),
{
    space.write_dword(MAIN_CONTROL_REGISTER_INDEX, offset);
    let r = space.read_dword(MAIN_CONTROL_REGISTER_DATA);
    proof {
        assert(space.ops() =~= old(space).ops() + seq![
            ConfigOp::WriteDword { offset: MAIN_CONTROL_REGISTER_INDEX, value: offset },
            ConfigOp::ReadDword { offset: MAIN_CONTROL_REGISTER_DATA, value: r },
        ]);
        assert(old(space).ops() =~= space.ops().subrange(0, old(space).ops().len() as int));
    }
    r
}

/// Read EECTL.
fn eectl_read<S: PciConfigSpace>(space: &mut S) -> (r: EeControlRead)
    requires
        old(space).cfg_len() >= MIN_CFG_LEN,
    ensures
        final(space).cfg_len() == old(space).cfg_len(),
        cfg_extends(final(space).ops(), old(space).ops()),
        final(space).ops() == old(space).ops() + eectl_read_pair(r.0),
        ends_with_eectl_read(final(space).ops(), r.0),
{
    let v = main_read(space, SERIAL_EEPROM_CONTROL);
    proof {
        let ops = space.ops();
        assert(ops[ops.len() - 2] == (ConfigOp::WriteDword {
            offset: MAIN_CONTROL_REGISTER_INDEX,
            value: SERIAL_EEPROM_CONTROL,
        }));
    }
    EeControlRead(v)
}

/// Write EECTL.
fn eectl_write<S: PciConfigSpace>(space: &mut S, data: EeControlWrite)
    requires
        old(space).cfg_len() >= MIN_CFG_LEN,
    ensures
        final(space).cfg_len() == old(space).cfg_len(),
        cfg_extends(final(space).ops(), old(space).ops()),
        final(space).ops() == old(space).ops() + eectl_write_pair(data.0),
        ends_with_eectl_write(final(space).ops(), data.0),
{
    main_write(space, SERIAL_EEPROM_CONTROL, data.0);
    proof {
        let ops = space.ops();
        assert(ops[ops.len() - 2] == (ConfigOp::WriteDword {
            offset: MAIN_CONTROL_REGISTER_INDEX,
            value: SERIAL_EEPROM_CONTROL,
        }));
    }
}

/// Busy polls stay busy polls when another busy read is appended.
proof fn lemma_busy_polls_snoc(t: Seq<ConfigOp>, v: u32)
    requires
        is_busy_polls(t),
        ee_bit(v, EEPROM_BUSY),
    ensures
        is_busy_polls(t + eectl_read_pair(v)),
    decreases t.len(),
{
    let u = t + eectl_read_pair(v);
    if t.len() == 0 {
        assert(u.subrange(0, 2) =~= eectl_read_pair(v));
        assert(u.skip(2) =~= Seq::<ConfigOp>::empty());
        assert(is_busy_polls(Seq::<ConfigOp>::empty()));
        assert(is_busy_polls(u));
    } else {
        let v0 = choose|v0: u32|
            #![auto]
            t.subrange(0, 2) == eectl_read_pair(v0) && ee_bit(v0, EEPROM_BUSY);
        lemma_busy_polls_snoc(t.skip(2), v);
        assert(u.subrange(0, 2) =~= t.subrange(0, 2));
        assert(u.skip(2) =~= t.skip(2) + eectl_read_pair(v));
        assert(u.subrange(0, 2) == eectl_read_pair(v0) && ee_bit(v0, EEPROM_BUSY));
        assert(is_busy_polls(u));
    }
}

/// Poll EECTL until the busy bit clears; the returned view is the idle
/// one.  Gives up after the poll budget.
fn ee_waitidle<S: PciConfigSpace>(space: &mut S) -> (r: Result<EeControlRead, FlashError>)
    requires
        old(space).cfg_len() >= MIN_CFG_LEN,
    ensures
        final(space).cfg_len() == old(space).cfg_len(),
        cfg_extends(final(space).ops(), old(space).ops()),
        r is Ok ==> !ee_bit(r->Ok_0.0, EEPROM_BUSY) && ends_with_eectl_read(
            final(space).ops(),
            r->Ok_0.0,
        ) && is_waitidle_chunk(
            cfg_appended(final(space).ops(), old(space).ops()),
            r->Ok_0.0,
        ) && cfg_appended(final(space).ops(), old(space).ops()).len() <= 2 * IDLE_POLL_LIMIT,
        r is Err ==> r->Err_0 == FlashError::Timeout && is_busy_polls(
            cfg_appended(final(space).ops(), old(space).ops()),
        ) && cfg_appended(final(space).ops(), old(space).ops()).len() == 2 * IDLE_POLL_LIMIT,
{
    let ghost h0 = space.ops();
    proof {
        lemma_cfg_extends_refl(h0);
    }
    let ghost mut polls = Seq::<ConfigOp>::empty();
    let mut i: u32 = 0;
    while i < IDLE_POLL_LIMIT
        invariant
            i <= IDLE_POLL_LIMIT,
            space.cfg_len() == old(space).cfg_len(),
            old(space).cfg_len() >= MIN_CFG_LEN,
            h0 == old(space).ops(),
            space.ops() == h0 + polls,
            is_busy_polls(polls),
            polls.len() == 2 * i,
            cfg_extends(space.ops(), h0),
        decreases IDLE_POLL_LIMIT - i,
    {
        let eectl = eectl_read(space);
        if !eectl.is_busy() {
            proof {
                assert(space.ops() =~= h0 + (polls + eectl_read_pair(eectl.0)));
                assert(cfg_appended(space.ops(), h0) =~= polls + eectl_read_pair(eectl.0));
                assert(is_waitidle_chunk(cfg_appended(space.ops(), h0), eectl.0));
            }
            return Ok(eectl);
        }
        proof {
            lemma_busy_polls_snoc(polls, eectl.0);
            assert(space.ops() =~= h0 + (polls + eectl_read_pair(eectl.0)));
            polls = polls + eectl_read_pair(eectl.0);
        }
        i = i + 1;
    }
    proof {
        assert(cfg_appended(space.ops(), h0) =~= polls);
    }
    Err(FlashError::Timeout)
}

/// Wait for idle and, unless the writable bits are already all clear,
/// write the off word: ends the current transaction and deselects the
/// chip.
fn ee_off<S: PciConfigSpace>(space: &mut S) -> (r: Result<(), FlashError>)
    requires
        old(space).cfg_len() >= MIN_CFG_LEN,
    ensures
        final(space).cfg_len() == old(space).cfg_len(),
        cfg_extends(final(space).ops(), old(space).ops()),
        r is Ok ==> eectl_switched_off(final(space).ops()) && is_off_chunk(
            cfg_appended(final(space).ops(), old(space).ops()),
        ),
        r is Err ==> r->Err_0 == FlashError::Timeout,
{
    let ghost h0 = space.ops();
    let eectl = match ee_waitidle(space) {
        Ok(e) => e,
        Err(e) => {
            return Err(e);
        },
    };
    let ghost wait = cfg_appended(space.ops(), h0);
    proof {
        lemma_cfg_appended(space.ops(), h0);
    }
    if !eectl.is_off() {
        eectl_write(space, EeControlWrite::off());
        proof {
            assert(space.ops() =~= h0 + (wait + eectl_write_pair(0)));
            assert(cfg_appended(space.ops(), h0) =~= wait + eectl_write_pair(0));
        }
    }
    Ok(())
}

/// Wait for idle, then clock one byte out to the chip with chip select
/// held.
fn ee_sendbyte<S: PciConfigSpace>(space: &mut S, data: u8) -> (r: Result<(), FlashError>)
    requires
        old(space).cfg_len() >= MIN_CFG_LEN,
    ensures
        final(space).cfg_len() == old(space).cfg_len(),
        cfg_extends(final(space).ops(), old(space).ops()),
        r is Ok ==> ends_with_eectl_write(
            final(space).ops(),
            (data as u32) | EEPROM_BYTE_WRITE_START | EEPROM_CHIP_SELECT,
        ) && is_sendbyte_chunk(cfg_appended(final(space).ops(), old(space).ops()), data),
        r is Err ==> r->Err_0 == FlashError::Timeout,
{
    let ghost h0 = space.ops();
    match ee_waitidle(space) {
        Ok(_) => (),
        Err(e) => {
            return Err(e);
        },
    }
    let ghost wait = cfg_appended(space.ops(), h0);
    proof {
        lemma_cfg_appended(space.ops(), h0);
    }
    eectl_write(space, EeControlWrite::write_data(data));
    proof {
        assert(space.ops() =~= h0 + (wait + eectl_write_pair(
            (data as u32) | EEPROM_BYTE_WRITE_START | EEPROM_CHIP_SELECT,
        )));
        assert(cfg_appended(space.ops(), h0) =~= wait + eectl_write_pair(
            (data as u32) | EEPROM_BYTE_WRITE_START | EEPROM_CHIP_SELECT,
        ));
    }
    Ok(())
}

/// Wait for idle, clock one byte in from the chip with chip select held,
/// wait for idle again and extract the read data field.
fn ee_readbyte<S: PciConfigSpace>(space: &mut S) -> (r: Result<u8, FlashError>)
    requires
        old(space).cfg_len() >= MIN_CFG_LEN,
    ensures
        final(space).cfg_len() == old(space).cfg_len(),
        cfg_extends(final(space).ops(), old(space).ops()),
        r is Ok ==> (exists|v: u32|
            #![auto]
            ends_with_eectl_read(final(space).ops(), v) && !ee_bit(v, EEPROM_BUSY)
                && ee_read_data_of(v) == r->Ok_0) && is_readbyte_chunk(
            cfg_appended(final(space).ops(), old(space).ops()),
            r->Ok_0,
        ),
        r is Err ==> r->Err_0 == FlashError::Timeout,
{
    let ghost h0 = space.ops();
    match ee_waitidle(space) {
        Ok(_) => (),
        Err(e) => {
            return Err(e);
        },
    }
    let ghost wait1 = cfg_appended(space.ops(), h0);
    proof {
        lemma_cfg_appended(space.ops(), h0);
    }
    eectl_write(space, EeControlWrite::read_data());
    let ghost h1 = space.ops();
    let idle = match ee_waitidle(space) {
        Ok(e) => e,
        Err(e) => {
            return Err(e);
        },
    };
    proof {
        let wait2 = cfg_appended(space.ops(), h1);
        lemma_cfg_appended(space.ops(), h1);
        assert(space.ops() =~= h0 + (wait1 + eectl_write_pair(
            EEPROM_BYTE_READ_START | EEPROM_CHIP_SELECT,
        ) + wait2));
        assert(cfg_appended(space.ops(), h0) =~= wait1 + eectl_write_pair(
            EEPROM_BYTE_READ_START | EEPROM_CHIP_SELECT,
        ) + wait2);
        assert(is_readbyte_chunk(cfg_appended(space.ops(), h0), ee_read_data_of(idle.0)));
    }
    Ok(idle.data())
}

/// Send the address bytes of a command, most significant first, as many
/// as the width asks for.
fn send_address_width<S: PciConfigSpace>(
    space: &mut S,
    width: AddressWidth,
    address: usize,
) -> (r: Result<(), FlashError>)
    requires
        old(space).cfg_len() >= MIN_CFG_LEN,
    ensures
        final(space).cfg_len() == old(space).cfg_len(),
        cfg_extends(final(space).ops(), old(space).ops()),
        r is Ok ==> is_addr_chunk(
            cfg_appended(final(space).ops(), old(space).ops()),
            width,
            address,
        ),
        r is Err ==> r->Err_0 == FlashError::Timeout,
{
    let ghost h0 = space.ops();
    match width {
        AddressWidth::One => {
            match ee_sendbyte(space, (address & 0xff) as u8) {
                Ok(()) => (),
                Err(e) => {
                    return Err(e);
                },
            }
        },
        AddressWidth::Two => {
            match ee_sendbyte(space, ((address >> 8) & 0xff) as u8) {
                Ok(()) => (),
                Err(e) => {
                    return Err(e);
                },
            }
            let ghost h1 = space.ops();
            let ghost a = cfg_appended(h1, h0);
            proof {
                lemma_cfg_appended(h1, h0);
            }
            match ee_sendbyte(space, (address & 0xff) as u8) {
                Ok(()) => (),
                Err(e) => {
                    return Err(e);
                },
            }
            proof {
                let b = cfg_appended(space.ops(), h1);
                lemma_cfg_appended(space.ops(), h1);
                assert(space.ops() =~= h0 + (a + b));
                assert(cfg_appended(space.ops(), h0) =~= a + b);
                assert(is_addr_chunk(cfg_appended(space.ops(), h0), width, address));
            }
        },
        AddressWidth::Three => {
            match ee_sendbyte(space, ((address >> 16) & 0xff) as u8) {
                Ok(()) => (),
                Err(e) => {
                    return Err(e);
                },
            }
            let ghost h1 = space.ops();
            let ghost a = cfg_appended(h1, h0);
            proof {
                lemma_cfg_appended(h1, h0);
            }
            match ee_sendbyte(space, ((address >> 8) & 0xff) as u8) {
                Ok(()) => (),
                Err(e) => {
                    return Err(e);
                },
            }
            let ghost h2 = space.ops();
            let ghost b = cfg_appended(h2, h1);
            proof {
                lemma_cfg_appended(h2, h1);
            }
            match ee_sendbyte(space, (address & 0xff) as u8) {
                Ok(()) => (),
                Err(e) => {
                    return Err(e);
                },
            }
            proof {
                let c = cfg_appended(space.ops(), h2);
                lemma_cfg_appended(space.ops(), h2);
                assert(space.ops() =~= h0 + (a + b + c));
                assert(cfg_appended(space.ops(), h0) =~= a + b + c);
                assert(is_addr_chunk(cfg_appended(space.ops(), h0), width, address));
            }
        },
    }
    Ok(())
}

/// Open a READ command at `address`: end any pending transaction, send
/// the opcode and the address bytes.  Chip select stays asserted so the
/// caller can stream data bytes.
fn begin_read<S: PciConfigSpace>(space: &mut S, width: AddressWidth, address: usize) -> (r: Result<
    (),
    FlashError,
>)
    requires
        old(space).cfg_len() >= MIN_CFG_LEN,
    ensures
        final(space).cfg_len() == old(space).cfg_len(),
        cfg_extends(final(space).ops(), old(space).ops()),
        r is Ok ==> is_open_read_chunk(
            cfg_appended(final(space).ops(), old(space).ops()),
            width,
            address,
        ),
        r is Err ==> r->Err_0 == FlashError::Timeout,
{
    let ghost h0 = space.ops();
    match ee_off(space) {
        Ok(()) => (),
        Err(e) => {
            return Err(e);
        },
    }
    let ghost h1 = space.ops();
    let ghost t1 = cfg_appended(h1, h0);
    proof {
        lemma_cfg_appended(h1, h0);
    }
    match ee_sendbyte(space, READ_EE_OPCODE) {
        Ok(()) => (),
        Err(e) => {
            return Err(e);
        },
    }
    let ghost h2 = space.ops();
    let ghost t2 = cfg_appended(h2, h1);
    proof {
        lemma_cfg_appended(h2, h1);
    }
    let r = send_address_width(space, width, address);
    proof {
        if r is Ok {
            let t3 = cfg_appended(space.ops(), h2);
            lemma_cfg_appended(space.ops(), h2);
            assert(space.ops() =~= h0 + (t1 + t2 + t3));
            assert(cfg_appended(space.ops(), h0) =~= t1 + t2 + t3);
            assert(is_open_read_chunk(cfg_appended(space.ops(), h0), width, address));
        }
    }
    r
}

/// Open a WRITE command at `address`: end any pending transaction, write
/// enable, end that command, send the opcode and the address bytes.
/// Chip select stays asserted so the caller can stream data bytes.
fn begin_write<S: PciConfigSpace>(space: &mut S, width: AddressWidth, address: usize) -> (r:
    Result<(), FlashError>)
    requires
        old(space).cfg_len() >= MIN_CFG_LEN,
    ensures
        final(space).cfg_len() == old(space).cfg_len(),
        cfg_extends(final(space).ops(), old(space).ops()),
        r is Ok ==> is_open_write_chunk(
            cfg_appended(final(space).ops(), old(space).ops()),
            width,
            address,
        ),
        r is Err ==> r->Err_0 == FlashError::Timeout,
{
    let ghost h0 = space.ops();
    match ee_off(space) {
        Ok(()) => (),
        Err(e) => {
            return Err(e);
        },
    }
    let ghost h1 = space.ops();
    let ghost t1 = cfg_appended(h1, h0);
    proof {
        lemma_cfg_appended(h1, h0);
    }
    match ee_sendbyte(space, WREN_EE_OPCODE) {
        Ok(()) => (),
        Err(e) => {
            return Err(e);
        },
    }
    let ghost h2 = space.ops();
    let ghost t2 = cfg_appended(h2, h1);
    proof {
        lemma_cfg_appended(h2, h1);
    }
    match ee_off(space) {
        Ok(()) => (),
        Err(e) => {
            return Err(e);
        },
    }
    let ghost h3 = space.ops();
    let ghost t3 = cfg_appended(h3, h2);
    proof {
        lemma_cfg_appended(h3, h2);
    }
    match ee_sendbyte(space, WRITE_EE_OPCODE) {
        Ok(()) => (),
        Err(e) => {
            return Err(e);
        },
    }
    let ghost h4 = space.ops();
    let ghost t4 = cfg_appended(h4, h3);
    proof {
        lemma_cfg_appended(h4, h3);
    }
    let r = send_address_width(space, width, address);
    proof {
        if r is Ok {
            let t5 = cfg_appended(space.ops(), h4);
            lemma_cfg_appended(space.ops(), h4);
            assert(space.ops() =~= h0 + (t1 + t2 + t3 + t4 + t5));
            assert(cfg_appended(space.ops(), h0) =~= t1 + t2 + t3 + t4 + t5);
            assert(is_open_write_chunk(cfg_appended(space.ops(), h0), width, address));
        }
    }
    r
}

/// Read one byte at `address` with the given width: a whole command,
/// switched off at the end.
fn read_byte_at<S: PciConfigSpace>(space: &mut S, width: AddressWidth, address: usize) -> (r:
    Result<u8, FlashError>)
    requires
        old(space).cfg_len() >= MIN_CFG_LEN,
    ensures
        final(space).cfg_len() == old(space).cfg_len(),
        cfg_extends(final(space).ops(), old(space).ops()),
        r is Ok ==> eectl_switched_off(final(space).ops()) && is_read_byte_command(
            cfg_appended(final(space).ops(), old(space).ops()),
            width,
            address,
            r->Ok_0,
        ),
        r is Err ==> r->Err_0 == FlashError::Timeout,
{
    let ghost h0 = space.ops();
    match begin_read(space, width, address) {
        Ok(()) => (),
        Err(e) => {
            return Err(e);
        },
    }
    let ghost h1 = space.ops();
    let ghost t1 = cfg_appended(h1, h0);
    proof {
        lemma_cfg_appended(h1, h0);
    }
    let b = match ee_readbyte(space) {
        Ok(b) => b,
        Err(e) => {
            let _ = ee_off(space);
            return Err(e);
        },
    };
    let ghost h2 = space.ops();
    let ghost t2 = cfg_appended(h2, h1);
    proof {
        lemma_cfg_appended(h2, h1);
    }
    match ee_off(space) {
        Ok(()) => (),
        Err(e) => {
            return Err(e);
        },
    }
    proof {
        let t3 = cfg_appended(space.ops(), h2);
        lemma_cfg_appended(space.ops(), h2);
        assert(space.ops() =~= h0 + (t1 + t2 + t3));
        assert(cfg_appended(space.ops(), h0) =~= t1 + t2 + t3);
        assert(is_read_byte_command(cfg_appended(space.ops(), h0), width, address, b));
    }
    Ok(b)
}

/// Write one byte at `address` with the given width: a whole command,
/// switched off at the end.
fn write_byte_at<S: PciConfigSpace>(
    space: &mut S,
    width: AddressWidth,
    address: usize,
    data: u8,
) -> (r: Result<(), FlashError>)
    requires
        old(space).cfg_len() >= MIN_CFG_LEN,
    ensures
        final(space).cfg_len() == old(space).cfg_len(),
        cfg_extends(final(space).ops(), old(space).ops()),
        r is Ok ==> eectl_switched_off(final(space).ops()) && is_write_byte_command(
            cfg_appended(final(space).ops(), old(space).ops()),
            width,
            address,
            data,
        ),
        r is Err ==> r->Err_0 == FlashError::Timeout,
{
    let ghost h0 = space.ops();
    match begin_write(space, width, address) {
        Ok(()) => (),
        Err(e) => {
            return Err(e);
        },
    }
    let ghost h1 = space.ops();
    let ghost t1 = cfg_appended(h1, h0);
    proof {
        lemma_cfg_appended(h1, h0);
    }
    match ee_sendbyte(space, data) {
        Ok(()) => (),
        Err(e) => {
            let _ = ee_off(space);
            return Err(e);
        },
    }
    let ghost h2 = space.ops();
    let ghost t2 = cfg_appended(h2, h1);
    proof {
        lemma_cfg_appended(h2, h1);
    }
    match ee_off(space) {
        Ok(()) => (),
        Err(e) => {
            return Err(e);
        },
    }
    proof {
        let t3 = cfg_appended(space.ops(), h2);
        lemma_cfg_appended(space.ops(), h2);
        assert(space.ops() =~= h0 + (t1 + t2 + t3));
        assert(cfg_appended(space.ops(), h0) =~= t1 + t2 + t3);
        assert(is_write_byte_command(cfg_appended(space.ops(), h0), width, address, data));
    }
    Ok(())
}

/// An opened PEX8112 flash: the configuration-space window and the
/// detected address width.
pub struct Flash<S: PciConfigSpace> {
    pub space: S,
    pub address_width: AddressWidth,
}

impl<S: PciConfigSpace> Flash<S> {
    /// The window is large enough for the main index/data pair.
    pub open spec fn wf(&self) -> bool {
        self.space.cfg_len() >= MIN_CFG_LEN
    }

    /// Read the status register: RDSR, one data byte, off.
    pub fn readstatus(&mut self) -> (r: Result<u8, FlashError>)
        requires
            old(self).wf(),
        ensures
            final(self).wf(),
            final(self).address_width == old(self).address_width,
            cfg_extends(final(self).space.ops(), old(self).space.ops()),
            r is Ok ==> eectl_switched_off(final(self).space.ops()) && is_readstatus_command(
                cfg_appended(final(self).space.ops(), old(self).space.ops()),
                r->Ok_0,
            ),
            r is Err ==> r->Err_0 == FlashError::Timeout,
    {
        let ghost h0 = self.space.ops();
        match ee_off(&mut self.space) {
            Ok(()) => (),
            Err(e) => {
                return Err(e);
            },
        }
        let ghost h1 = self.space.ops();
        let ghost t1 = cfg_appended(h1, h0);
        proof {
            lemma_cfg_appended(h1, h0);
        }
        match ee_sendbyte(&mut self.space, READ_STATUS_EE_OPCODE) {
            Ok(()) => (),
            Err(e) => {
                return Err(e);
            },
        }
        let ghost h2 = self.space.ops();
        let ghost t2 = cfg_appended(h2, h1);
        proof {
            lemma_cfg_appended(h2, h1);
        }
        let result = match ee_readbyte(&mut self.space) {
            Ok(b) => b,
            Err(e) => {
                return Err(e);
            },
        };
        let ghost h3 = self.space.ops();
        let ghost t3 = cfg_appended(h3, h2);
        proof {
            lemma_cfg_appended(h3, h2);
        }
        match ee_off(&mut self.space) {
            Ok(()) => (),
            Err(e) => {
                return Err(e);
            },
        }
        proof {
            let t4 = cfg_appended(self.space.ops(), h3);
            lemma_cfg_appended(self.space.ops(), h3);
            assert(self.space.ops() =~= h0 + (t1 + t2 + t3 + t4));
            assert(cfg_appended(self.space.ops(), h0) =~= t1 + t2 + t3 + t4);
            assert(is_readstatus_command(cfg_appended(self.space.ops(), h0), result));
        }
        Ok(result)
    }

    /// Begin streaming reads at `address`: end any pending transaction,
    /// send the READ opcode and the address bytes; chip select stays
    /// asserted so the reader's bytes stream from `address` on.
    pub fn reader(self, address: usize) -> (r: Result<FlashReader<S>, (Flash<S>, FlashError)>)
        requires
            self.wf(),
        ensures
            r is Ok ==> r->Ok_0.flash.wf() && r->Ok_0.flash.address_width == self.address_width
                && is_open_read_chunk(
                cfg_appended(r->Ok_0.flash.space.ops(), self.space.ops()),
                self.address_width,
                address,
            ) && cfg_extends(r->Ok_0.flash.space.ops(), self.space.ops()),
            r is Err ==> r->Err_0.0.wf() && r->Err_0.1 == FlashError::Timeout && cfg_extends(
                r->Err_0.0.space.ops(),
                self.space.ops(),
            ),
    {
        let mut flash = self;
        match begin_read(&mut flash.space, flash.address_width, address) {
            Ok(()) => Ok(FlashReader { flash }),
            Err(e) => Err((flash, e)),
        }
    }

    /// Begin streaming writes at `address`: end any pending transaction,
    /// write enable, end that command, send the WRITE opcode and the
    /// address bytes; chip select stays asserted for the data bytes.
    pub fn writer(self, address: usize) -> (r: Result<FlashWriter<S>, (Flash<S>, FlashError)>)
        requires
            self.wf(),
        ensures
            r is Ok ==> r->Ok_0.flash.wf() && r->Ok_0.flash.address_width == self.address_width
                && is_open_write_chunk(
                cfg_appended(r->Ok_0.flash.space.ops(), self.space.ops()),
                self.address_width,
                address,
            ) && cfg_extends(r->Ok_0.flash.space.ops(), self.space.ops()),
            r is Err ==> r->Err_0.0.wf() && r->Err_0.1 == FlashError::Timeout && cfg_extends(
                r->Err_0.0.space.ops(),
                self.space.ops(),
            ),
    {
        let mut flash = self;
        match begin_write(&mut flash.space, flash.address_width, address) {
            Ok(()) => Ok(FlashWriter { flash }),
            Err(e) => Err((flash, e)),
        }
    }

    /// Read one byte at `address`: a whole command, switched off at the
    /// end.
    pub fn read_byte(&mut self, address: usize) -> (r: Result<u8, FlashError>)
        requires
            old(self).wf(),
        ensures
            final(self).wf(),
            final(self).address_width == old(self).address_width,
            cfg_extends(final(self).space.ops(), old(self).space.ops()),
            r is Ok ==> eectl_switched_off(final(self).space.ops()) && is_read_byte_command(
                cfg_appended(final(self).space.ops(), old(self).space.ops()),
                old(self).address_width,
                address,
                r->Ok_0,
            ),
            r is Err ==> r->Err_0 == FlashError::Timeout,
    {
        read_byte_at(&mut self.space, self.address_width, address)
    }

    /// Write one byte at `address`: a whole command, switched off at the
    /// end.
    pub fn write_byte(&mut self, address: usize, data: u8) -> (r: Result<(), FlashError>)
        requires
            old(self).wf(),
        ensures
            final(self).wf(),
            final(self).address_width == old(self).address_width,
            cfg_extends(final(self).space.ops(), old(self).space.ops()),
            r is Ok ==> eectl_switched_off(final(self).space.ops()) && is_write_byte_command(
                cfg_appended(final(self).space.ops(), old(self).space.ops()),
                old(self).address_width,
                address,
                data,
            ),
            r is Err ==> r->Err_0 == FlashError::Timeout,
    {
        write_byte_at(&mut self.space, self.address_width, address, data)
    }

    /// Read the five bytes at the signature offset.
    pub fn read_signature(&mut self) -> (r: Result<Vec<u8>, FlashError>)
        requires
            old(self).wf(),
        ensures
            final(self).wf(),
            final(self).space.cfg_len() == old(self).space.cfg_len(),
            final(self).address_width == old(self).address_width,
            cfg_extends(final(self).space.ops(), old(self).space.ops()),
            r is Ok ==> r->Ok_0@.len() == 5 && eectl_switched_off(final(self).space.ops())
                && is_read_block_session(
                cfg_appended(final(self).space.ops(), old(self).space.ops()),
                old(self).address_width,
                EEPROM_SIGNATURE_OFFSET,
                r->Ok_0@,
            ),
            r is Err ==> r->Err_0 == FlashError::Timeout,
    {
        let ghost h0 = self.space.ops();
        match begin_read(&mut self.space, self.address_width, EEPROM_SIGNATURE_OFFSET) {
            Ok(()) => (),
            Err(e) => {
                return Err(e);
            },
        }
        let ghost h1 = self.space.ops();
        let ghost t_open = cfg_appended(h1, h0);
        proof {
            lemma_cfg_appended(h1, h0);
        }
        let mut acc: Ghost<(Seq<ConfigOp>, Seq<u8>)> = Ghost((Seq::empty(), Seq::empty()));
        proof {
            assert(self.space.ops() =~= h1 + acc@.0);
        }
        let mut signature: Vec<u8> = Vec::new();
        let mut i: usize = 0;
        while i < 5
            invariant
                i <= 5,
                signature@.len() == i,
                self.wf(),
                self.space.cfg_len() == old(self).space.cfg_len(),
                self.address_width == old(self).address_width,
                cfg_extends(self.space.ops(), old(self).space.ops()),
                self.space.ops() == h1 + acc@.0,
                is_readbytes_seq(acc@.0, acc@.1, acc@.1.len() as int),
                acc@.1 == signature@,
            decreases 5 - i,
        {
            let b = match tracked_readbyte(&mut self.space, &mut acc, Ghost(h1)) {
                Ok(b) => b,
                Err(e) => {
                    return Err(e);
                },
            };
            signature.push(b);
            i = i + 1;
        }
        let ghost h2 = self.space.ops();
        match ee_off(&mut self.space) {
            Ok(()) => (),
            Err(e) => {
                return Err(e);
            },
        }
        proof {
            let t_off = cfg_appended(self.space.ops(), h2);
            lemma_cfg_appended(self.space.ops(), h2);
            assert(self.space.ops() =~= h0 + (t_open + acc@.0 + t_off));
            assert(cfg_appended(self.space.ops(), h0) =~= t_open + acc@.0 + t_off);
            assert(is_read_block_session(
                cfg_appended(self.space.ops(), h0),
                old(self).address_width,
                EEPROM_SIGNATURE_OFFSET,
                signature@,
            ));
        }
        Ok(signature)
    }

    /// Read the signature and require it to be exactly `axxon`: success
    /// if and only if the five bytes read at the signature offset equal
    /// `spec_signature()`.
    pub fn verify_signature(&mut self) -> (r: Result<(), FlashError>)
        requires
            old(self).wf(),
        ensures
            final(self).wf(),
            final(self).space.cfg_len() == old(self).space.cfg_len(),
            final(self).address_width == old(self).address_width,
            cfg_extends(final(self).space.ops(), old(self).space.ops()),
            r is Ok ==> eectl_switched_off(final(self).space.ops()) && is_read_block_session(
                cfg_appended(final(self).space.ops(), old(self).space.ops()),
                old(self).address_width,
                EEPROM_SIGNATURE_OFFSET,
                crate::image::spec_signature(),
            ),
            r is Err ==> r->Err_0 == FlashError::Timeout || r->Err_0 == FlashError::BadSignature,
            r == Err::<(), FlashError>(FlashError::BadSignature) ==> eectl_switched_off(
                final(self).space.ops(),
            ) && (exists|bytes: Seq<u8>|
                #![auto]
                bytes.len() == 5 && bytes != crate::image::spec_signature()
                    && is_read_block_session(
                    cfg_appended(final(self).space.ops(), old(self).space.ops()),
                    old(self).address_width,
                    EEPROM_SIGNATURE_OFFSET,
                    bytes,
                )),
    {
        let signature = match self.read_signature() {
            Ok(s) => s,
            Err(e) => {
                return Err(e);
            },
        };
        let expected = signature_bytes();
        if bytes_equal(&signature, &expected) {
            proof {
                assert(signature@ == crate::image::spec_signature());
            }
            Ok(())
        } else {
            proof {
                assert(signature@ != crate::image::spec_signature());
            }
            Err(FlashError::BadSignature)
        }
    }
}

/// Element-wise equality of two byte vectors.
fn bytes_equal(a: &Vec<u8>, b: &Vec<u8>) -> (r: bool)
    ensures
        r == (a@ =~= b@),
{
    if a.len() != b.len() {
        return false;
    }
    let mut i: usize = 0;
    while i < a.len()
        invariant
            i <= a@.len(),
            a@.len() == b@.len(),
            forall|j: int| 0 <= j < i ==> a@[j] == b@[j],
        decreases a@.len() - i,
    {
        if a[i] != b[i] {
            return false;
        }
        i = i + 1;
    }
    true
}

/// Streaming reads inside one open READ command; chip select stays
/// asserted between bytes, so the chip advances through its addresses.
pub struct FlashReader<S: PciConfigSpace> {
    pub flash: Flash<S>,
}

impl<S: PciConfigSpace> FlashReader<S> {
    /// The next data byte: the read-data field of the idle EECTL view
    /// after one byte-read has been clocked.
    pub fn read_byte(&mut self) -> (r: Result<u8, FlashError>)
        requires
            old(self).flash.wf(),
        ensures
            final(self).flash.wf(),
            final(self).flash.address_width == old(self).flash.address_width,
            cfg_extends(final(self).flash.space.ops(), old(self).flash.space.ops()),
            r is Ok ==> is_readbyte_chunk(
                cfg_appended(final(self).flash.space.ops(), old(self).flash.space.ops()),
                r->Ok_0,
            ),
            r is Err ==> r->Err_0 == FlashError::Timeout,
    {
        ee_readbyte(&mut self.flash.space)
    }

    /// The next `count` data bytes, read back to back.
    pub fn read(&mut self, count: usize) -> (r: Result<Vec<u8>, FlashError>)
        requires
            old(self).flash.wf(),
        ensures
            final(self).flash.wf(),
            final(self).flash.address_width == old(self).flash.address_width,
            cfg_extends(final(self).flash.space.ops(), old(self).flash.space.ops()),
            r is Ok ==> r->Ok_0@.len() == count && is_readbytes_seq(
                cfg_appended(final(self).flash.space.ops(), old(self).flash.space.ops()),
                r->Ok_0@,
                count as int,
            ),
            r is Err ==> r->Err_0 == FlashError::Timeout,
    {
        let ghost h0 = self.flash.space.ops();
        let mut acc: Ghost<(Seq<ConfigOp>, Seq<u8>)> = Ghost((Seq::empty(), Seq::empty()));
        proof {
            lemma_cfg_extends_refl(h0);
            assert(self.flash.space.ops() =~= h0 + acc@.0);
        }
        let mut buf: Vec<u8> = Vec::new();
        let mut i: usize = 0;
        while i < count
            invariant
                i <= count,
                buf@.len() == i,
                self.flash.wf(),
                self.flash.space.cfg_len() == old(self).flash.space.cfg_len(),
                self.flash.address_width == old(self).flash.address_width,
                h0 == old(self).flash.space.ops(),
                cfg_extends(self.flash.space.ops(), h0),
                self.flash.space.ops() == h0 + acc@.0,
                is_readbytes_seq(acc@.0, acc@.1, acc@.1.len() as int),
                acc@.1 == buf@,
            decreases count - i,
        {
            let b = match tracked_readbyte(&mut self.flash.space, &mut acc, Ghost(h0)) {
                Ok(b) => b,
                Err(e) => {
                    return Err(e);
                },
            };
            buf.push(b);
            i = i + 1;
        }
        proof {
            assert(cfg_appended(self.flash.space.ops(), h0) =~= acc@.0);
        }
        Ok(buf)
    }

    /// Close the command and give the flash back, switched off.
    pub fn finish(self) -> (r: (Flash<S>, Result<(), FlashError>))
        requires
            self.flash.wf(),
        ensures
            r.0.wf(),
            r.0.address_width == self.flash.address_width,
            r.1 is Ok ==> eectl_switched_off(r.0.space.ops()),
    {
        let mut flash = self.flash;
        let res = ee_off(&mut flash.space);
        (flash, res)
    }
}

/// Streaming writes inside one open WRITE command; chip select stays
/// asserted between bytes.
pub struct FlashWriter<S: PciConfigSpace> {
    pub flash: Flash<S>,
}

impl<S: PciConfigSpace> FlashWriter<S> {
    /// Send the next data byte: one byte-write is clocked out with chip
    /// select held.
    pub fn write_byte(&mut self, data: u8) -> (r: Result<(), FlashError>)
        requires
            old(self).flash.wf(),
        ensures
            final(self).flash.wf(),
            final(self).flash.address_width == old(self).flash.address_width,
            cfg_extends(final(self).flash.space.ops(), old(self).flash.space.ops()),
            r is Ok ==> ends_with_eectl_write(
                final(self).flash.space.ops(),
                (data as u32) | EEPROM_BYTE_WRITE_START | EEPROM_CHIP_SELECT,
            ),
            r is Err ==> r->Err_0 == FlashError::Timeout,
    {
        ee_sendbyte(&mut self.flash.space, data)
    }

    /// Send a run of data bytes, back to back.
    pub fn write(&mut self, data: &[u8]) -> (r: Result<(), FlashError>)
        requires
            old(self).flash.wf(),
        ensures
            final(self).flash.wf(),
            final(self).flash.address_width == old(self).flash.address_width,
            cfg_extends(final(self).flash.space.ops(), old(self).flash.space.ops()),
            r is Ok ==> is_sendbytes_seq(
                cfg_appended(final(self).flash.space.ops(), old(self).flash.space.ops()),
                data@,
                data@.len() as int,
            ),
            r is Err ==> r->Err_0 == FlashError::Timeout,
    {
        let ghost h0 = self.flash.space.ops();
        let ghost mut t_sent = Seq::<ConfigOp>::empty();
        proof {
            lemma_cfg_extends_refl(h0);
            assert(self.flash.space.ops() =~= h0 + t_sent);
        }
        let mut i: usize = 0;
        while i < data.len()
            invariant
                i <= data@.len(),
                self.flash.wf(),
                self.flash.space.cfg_len() == old(self).flash.space.cfg_len(),
                self.flash.address_width == old(self).flash.address_width,
                h0 == old(self).flash.space.ops(),
                cfg_extends(self.flash.space.ops(), h0),
                self.flash.space.ops() == h0 + t_sent,
                is_sendbytes_seq(t_sent, data@, i as int),
            decreases data@.len() - i,
        {
            let ghost pre = self.flash.space.ops();
            match ee_sendbyte(&mut self.flash.space, data[i]) {
                Ok(()) => (),
                Err(e) => {
                    return Err(e);
                },
            }
            proof {
                let u = cfg_appended(self.flash.space.ops(), pre);
                lemma_cfg_appended(self.flash.space.ops(), pre);
                lemma_sendbytes_seq_snoc(t_sent, u, data@, i as int);
                assert(self.flash.space.ops() =~= h0 + (t_sent + u));
                t_sent = t_sent + u;
            }
            i = i + 1;
        }
        proof {
            assert(cfg_appended(self.flash.space.ops(), h0) =~= t_sent);
        }
        Ok(())
    }

    /// Close the command and give the flash back, switched off.
    pub fn finish(self) -> (r: (Flash<S>, Result<(), FlashError>))
        requires
            self.flash.wf(),
        ensures
            r.0.wf(),
            r.0.address_width == self.flash.address_width,
            r.1 is Ok ==> eectl_switched_off(r.0.space.ops()),
    {
        let mut flash = self.flash;
        let res = ee_off(&mut flash.space);
        (flash, res)
    }
}

/// Clock one byte in and account for it: the appended operations and
/// the bytes read so far, relative to the history `h1` where the open
/// READ command ended.
fn tracked_readbyte<S: PciConfigSpace>(
    space: &mut S,
    acc: &mut Ghost<(Seq<ConfigOp>, Seq<u8>)>,
    Ghost(h1): Ghost<Seq<ConfigOp>>,
) -> (r: Result<u8, FlashError>)
    requires
        old(space).cfg_len() >= MIN_CFG_LEN,
        old(space).ops() == h1 + old(acc)@.0,
        is_readbytes_seq(old(acc)@.0, old(acc)@.1, old(acc)@.1.len() as int),
    ensures
        final(space).cfg_len() == old(space).cfg_len(),
        cfg_extends(final(space).ops(), old(space).ops()),
        r is Ok ==> final(space).ops() == h1 + final(acc)@.0 && is_readbytes_seq(
            final(acc)@.0,
            final(acc)@.1,
            final(acc)@.1.len() as int,
        ) && final(acc)@.1 == old(acc)@.1.push(r->Ok_0),
        r is Err ==> r->Err_0 == FlashError::Timeout && *final(acc) == *old(acc),
{
    let ghost pre = space.ops();
    let b = match ee_readbyte(space) {
        Ok(b) => b,
        Err(e) => {
            return Err(e);
        },
    };
    let ghost u = cfg_appended(space.ops(), pre);
    let ghost t_reads = acc@.0;
    let ghost bytes = acc@.1;
    proof {
        lemma_cfg_appended(space.ops(), pre);
        lemma_readbytes_seq_agree(t_reads, bytes, bytes.push(b), bytes.len() as int);
        lemma_readbytes_seq_snoc(t_reads, u, bytes.push(b), bytes.len() as int);
        assert(space.ops() =~= h1 + (t_reads + u));
    }
    *acc = Ghost((t_reads + u, bytes.push(b)));
    Ok(b)
}

/// Read the image at flash address zero: magic, flags, the register
/// bytes, the shared-memory bytes, all in one open READ command.  On
/// success the returned buffer is a complete image (it satisfies the
/// image grammar exactly), the appended operations are one extraction
/// session whose read bytes are exactly the buffer, and the session ends
/// switched off.
pub fn extract_image<S: PciConfigSpace>(flash: &mut Flash<S>) -> (r: Result<Vec<u8>, FlashError>)
    requires
        old(flash).wf(),
    ensures
        final(flash).wf(),
        final(flash).address_width == old(flash).address_width,
        cfg_extends(final(flash).space.ops(), old(flash).space.ops()),
        r is Ok ==> spec_image_wf(r->Ok_0@) && eectl_switched_off(final(flash).space.ops())
            && is_extract_image_session(
            cfg_appended(final(flash).space.ops(), old(flash).space.ops()),
            old(flash).address_width,
            r->Ok_0@,
        ),
        ({
            // an error is a timeout or names the byte that broke the
            // grammar; no other kind comes out
            match r {
                Err(FlashError::Timeout) => true,
                Err(FlashError::Image(ImageError::BadMagic(m))) => m != 0x5a,
                Err(FlashError::Image(ImageError::BadFlags(f))) => f & 0xfc != 0,
                Err(FlashError::Image(ImageError::BadRegCount(c))) => c % 6 != 0,
                Err(FlashError::Image(ImageError::BadMemCount(c))) => c % 4 != 0,
                Err(_) => false,
                Ok(_) => true,
            }
        }),
{
    let ghost h0 = flash.space.ops();
    match begin_read(&mut flash.space, flash.address_width, 0) {
        Ok(()) => (),
        Err(e) => {
            return Err(e);
        },
    }
    let ghost h1 = flash.space.ops();
    let ghost t_open = cfg_appended(h1, h0);
    proof {
        lemma_cfg_appended(h1, h0);
    }
    let mut acc: Ghost<(Seq<ConfigOp>, Seq<u8>)> = Ghost((Seq::empty(), Seq::empty()));
    proof {
        assert(flash.space.ops() =~= h1 + acc@.0);
    }
    let mut buf: Vec<u8> = Vec::new();
    let magic = match tracked_readbyte(&mut flash.space, &mut acc, Ghost(h1)) {
        Ok(b) => b,
        Err(e) => {
            let _ = ee_off(&mut flash.space);
            return Err(e);
        },
    };
    buf.push(magic);
    if magic != 0x5a {
        let _ = ee_off(&mut flash.space);
        return Err(FlashError::Image(ImageError::BadMagic(magic)));
    }
    let flags = match tracked_readbyte(&mut flash.space, &mut acc, Ghost(h1)) {
        Ok(b) => b,
        Err(e) => {
            let _ = ee_off(&mut flash.space);
            return Err(e);
        },
    };
    buf.push(flags);
    if flags & 0xfc != 0 {
        let _ = ee_off(&mut flash.space);
        return Err(FlashError::Image(ImageError::BadFlags(flags)));
    }
    let reg_lo = match tracked_readbyte(&mut flash.space, &mut acc, Ghost(h1)) {
        Ok(b) => b,
        Err(e) => {
            let _ = ee_off(&mut flash.space);
            return Err(e);
        },
    };
    buf.push(reg_lo);
    let reg_hi = match tracked_readbyte(&mut flash.space, &mut acc, Ghost(h1)) {
        Ok(b) => b,
        Err(e) => {
            let _ = ee_off(&mut flash.space);
            return Err(e);
        },
    };
    buf.push(reg_hi);
    let reg_count: usize = (reg_lo as usize) + (reg_hi as usize) * 0x100;
    if reg_count % 6 != 0 {
        let _ = ee_off(&mut flash.space);
        return Err(FlashError::Image(ImageError::BadRegCount(reg_count as u16)));
    }
    let mut i: usize = 0;
    while i < reg_count
        invariant
            i <= reg_count,
            reg_count == reg_lo + reg_hi * 0x100,
            reg_count % 6 == 0,
            buf@.len() == 4 + i,
            buf@[0] == 0x5a,
            buf@[1] == flags,
            flags & 0xfc == 0,
            buf@[2] == reg_lo,
            buf@[3] == reg_hi,
            flash.wf(),
            flash.space.cfg_len() == old(flash).space.cfg_len(),
            flash.address_width == old(flash).address_width,
            cfg_extends(flash.space.ops(), old(flash).space.ops()),
            flash.space.ops() == h1 + acc@.0,
            is_readbytes_seq(acc@.0, acc@.1, acc@.1.len() as int),
            acc@.1 == buf@,
        decreases reg_count - i,
    {
        let b = match tracked_readbyte(&mut flash.space, &mut acc, Ghost(h1)) {
            Ok(b) => b,
            Err(e) => {
                let _ = ee_off(&mut flash.space);
                return Err(e);
            },
        };
        buf.push(b);
        i = i + 1;
    }
    let mem_lo = match tracked_readbyte(&mut flash.space, &mut acc, Ghost(h1)) {
        Ok(b) => b,
        Err(e) => {
            let _ = ee_off(&mut flash.space);
            return Err(e);
        },
    };
    buf.push(mem_lo);
    let mem_hi = match tracked_readbyte(&mut flash.space, &mut acc, Ghost(h1)) {
        Ok(b) => b,
        Err(e) => {
            let _ = ee_off(&mut flash.space);
            return Err(e);
        },
    };
    buf.push(mem_hi);
    let mem_count: usize = (mem_lo as usize) + (mem_hi as usize) * 0x100;
    if mem_count % 4 != 0 {
        let _ = ee_off(&mut flash.space);
        return Err(FlashError::Image(ImageError::BadMemCount(mem_count as u16)));
    }
    let mut j: usize = 0;
    while j < mem_count
        invariant
            j <= mem_count,
            reg_count == reg_lo + reg_hi * 0x100,
            reg_count % 6 == 0,
            mem_count == mem_lo + mem_hi * 0x100,
            mem_count % 4 == 0,
            buf@.len() == 4 + reg_count + 2 + j,
            buf@[0] == 0x5a,
            buf@[1] == flags,
            flags & 0xfc == 0,
            buf@[2] == reg_lo,
            buf@[3] == reg_hi,
            buf@[4 + reg_count] == mem_lo,
            buf@[5 + reg_count] == mem_hi,
            flash.wf(),
            flash.space.cfg_len() == old(flash).space.cfg_len(),
            flash.address_width == old(flash).address_width,
            cfg_extends(flash.space.ops(), old(flash).space.ops()),
            flash.space.ops() == h1 + acc@.0,
            is_readbytes_seq(acc@.0, acc@.1, acc@.1.len() as int),
            acc@.1 == buf@,
        decreases mem_count - j,
    {
        let b = match tracked_readbyte(&mut flash.space, &mut acc, Ghost(h1)) {
            Ok(b) => b,
            Err(e) => {
                let _ = ee_off(&mut flash.space);
                return Err(e);
            },
        };
        buf.push(b);
        j = j + 1;
    }
    let ghost h2 = flash.space.ops();
    match ee_off(&mut flash.space) {
        Ok(()) => (),
        Err(e) => {
            return Err(e);
        },
    }
    proof {
        let t_off = cfg_appended(flash.space.ops(), h2);
        lemma_cfg_appended(flash.space.ops(), h2);
        assert(flash.space.ops() =~= h0 + (t_open + acc@.0 + t_off));
        assert(cfg_appended(flash.space.ops(), h0) =~= t_open + acc@.0 + t_off);
        assert(is_extract_image_session(
            cfg_appended(flash.space.ops(), h0),
            old(flash).address_width,
            buf@,
        ));
        let f = buf@;
        assert(f.len() == 4 + reg_count + 2 + mem_count);
        assert(f[2] + f[3] * 0x100 == reg_count);
        assert(f[4 + reg_count] + f[5 + reg_count] * 0x100 == mem_count);
        assert(f.subrange(0, 4 + reg_count + 2 + mem_count) =~= f);
        assert(spec_decode_image(f) == Ok::<Seq<u8>, ImageError>(f));
    }
    Ok(buf)
}

/// Write `image` at flash address zero with `0xFF` padding up to the
/// signature offset, read the image bytes back and fail on the first
/// mismatch, then write the `axxon` signature.  On success the appended
/// operations are one whole write session — the image and padding sent,
/// the verify pass reading back exactly the image, the signature written
/// — and the session ends switched off.
#[verifier::rlimit(60)]
pub fn write_image<S: PciConfigSpace>(flash: &mut Flash<S>, image: &[u8]) -> (r: Result<
    (),
    FlashError,
>)
    requires
        old(flash).wf(),
        image@.len() <= EEPROM_SIGNATURE_OFFSET,
    ensures
        final(flash).wf(),
        final(flash).address_width == old(flash).address_width,
        cfg_extends(final(flash).space.ops(), old(flash).space.ops()),
        r is Ok ==> eectl_switched_off(final(flash).space.ops()) && is_write_image_session(
            cfg_appended(final(flash).space.ops(), old(flash).space.ops()),
            old(flash).address_width,
            image@,
        ),
{
    let ghost h0 = flash.space.ops();
    let ghost combined = image@ + Seq::new(
        (EEPROM_SIGNATURE_OFFSET - image@.len()) as nat,
        |i: int| 0xffu8,
    );
    // the image and its padding, in one open WRITE command
    match begin_write(&mut flash.space, flash.address_width, 0) {
        Ok(()) => (),
        Err(e) => {
            return Err(e);
        },
    }
    let ghost h1 = flash.space.ops();
    let ghost t1 = cfg_appended(h1, h0);
    proof {
        lemma_cfg_appended(h1, h0);
    }
    let ghost mut t_sent = Seq::<ConfigOp>::empty();
    let mut i: usize = 0;
    while i < image.len()
        invariant
            i <= image@.len() <= EEPROM_SIGNATURE_OFFSET,
            combined == image@ + Seq::new(
                (EEPROM_SIGNATURE_OFFSET - image@.len()) as nat,
                |i: int| 0xffu8,
            ),
            flash.wf(),
            flash.space.cfg_len() == old(flash).space.cfg_len(),
            flash.address_width == old(flash).address_width,
            cfg_extends(flash.space.ops(), old(flash).space.ops()),
            flash.space.ops() == h1 + t_sent,
            is_sendbytes_seq(t_sent, combined, i as int),
        decreases image@.len() - i,
    {
        let ghost pre = flash.space.ops();
        match ee_sendbyte(&mut flash.space, image[i]) {
            Ok(()) => (),
            Err(e) => {
                let _ = ee_off(&mut flash.space);
                return Err(e);
            },
        }
        proof {
            let u = cfg_appended(flash.space.ops(), pre);
            lemma_cfg_appended(flash.space.ops(), pre);
            assert(combined[i as int] == image@[i as int]);
            lemma_sendbytes_seq_snoc(t_sent, u, combined, i as int);
            assert(flash.space.ops() =~= h1 + (t_sent + u));
            t_sent = t_sent + u;
        }
        i = i + 1;
    }
    let mut pad: usize = image.len();
    while pad < EEPROM_SIGNATURE_OFFSET
        invariant
            image@.len() <= pad <= EEPROM_SIGNATURE_OFFSET,
            combined == image@ + Seq::new(
                (EEPROM_SIGNATURE_OFFSET - image@.len()) as nat,
                |i: int| 0xffu8,
            ),
            flash.wf(),
            flash.space.cfg_len() == old(flash).space.cfg_len(),
            flash.address_width == old(flash).address_width,
            cfg_extends(flash.space.ops(), old(flash).space.ops()),
            flash.space.ops() == h1 + t_sent,
            is_sendbytes_seq(t_sent, combined, pad as int),
        decreases EEPROM_SIGNATURE_OFFSET - pad,
    {
        let ghost pre = flash.space.ops();
        match ee_sendbyte(&mut flash.space, 0xff) {
            Ok(()) => (),
            Err(e) => {
                let _ = ee_off(&mut flash.space);
                return Err(e);
            },
        }
        proof {
            let u = cfg_appended(flash.space.ops(), pre);
            lemma_cfg_appended(flash.space.ops(), pre);
            assert(combined[pad as int] == 0xffu8);
            lemma_sendbytes_seq_snoc(t_sent, u, combined, pad as int);
            assert(flash.space.ops() =~= h1 + (t_sent + u));
            t_sent = t_sent + u;
        }
        pad = pad + 1;
    }
    let ghost h2 = flash.space.ops();
    match ee_off(&mut flash.space) {
        Ok(()) => (),
        Err(e) => {
            return Err(e);
        },
    }
    let ghost h3 = flash.space.ops();
    let ghost t3 = cfg_appended(h3, h2);
    proof {
        lemma_cfg_appended(h3, h2);
    }
    // verify what was written
    match begin_read(&mut flash.space, flash.address_width, 0) {
        Ok(()) => (),
        Err(e) => {
            return Err(e);
        },
    }
    let ghost h4 = flash.space.ops();
    let ghost t4 = cfg_appended(h4, h3);
    proof {
        lemma_cfg_appended(h4, h3);
    }
    let ghost mut t_verify = Seq::<ConfigOp>::empty();
    let mut address: usize = 0;
    while address < image.len()
        invariant
            address <= image@.len(),
            flash.wf(),
            flash.space.cfg_len() == old(flash).space.cfg_len(),
            flash.address_width == old(flash).address_width,
            cfg_extends(flash.space.ops(), old(flash).space.ops()),
            flash.space.ops() == h4 + t_verify,
            is_readbytes_seq(t_verify, image@, address as int),
        decreases image@.len() - address,
    {
        let ghost pre = flash.space.ops();
        let d = match ee_readbyte(&mut flash.space) {
            Ok(b) => b,
            Err(e) => {
                let _ = ee_off(&mut flash.space);
                return Err(e);
            },
        };
        if d != image[address] {
            let _ = ee_off(&mut flash.space);
            return Err(FlashError::VerifyFailed { address, expected: image[address], actual: d });
        }
        proof {
            let u = cfg_appended(flash.space.ops(), pre);
            lemma_cfg_appended(flash.space.ops(), pre);
            lemma_readbytes_seq_snoc(t_verify, u, image@, address as int);
            assert(flash.space.ops() =~= h4 + (t_verify + u));
            t_verify = t_verify + u;
        }
        address = address + 1;
    }
    let ghost h5 = flash.space.ops();
    match ee_off(&mut flash.space) {
        Ok(()) => (),
        Err(e) => {
            return Err(e);
        },
    }
    let ghost h6 = flash.space.ops();
    let ghost t6 = cfg_appended(h6, h5);
    proof {
        lemma_cfg_appended(h6, h5);
    }
    // the signature
    match begin_write(&mut flash.space, flash.address_width, EEPROM_SIGNATURE_OFFSET) {
        Ok(()) => (),
        Err(e) => {
            return Err(e);
        },
    }
    let ghost h7 = flash.space.ops();
    let ghost t7 = cfg_appended(h7, h6);
    proof {
        lemma_cfg_appended(h7, h6);
    }
    let signature = signature_bytes();
    let ghost mut t_sig = Seq::<ConfigOp>::empty();
    let mut s: usize = 0;
    while s < signature.len()
        invariant
            s <= signature@.len(),
            signature@ == crate::image::spec_signature(),
            flash.wf(),
            flash.space.cfg_len() == old(flash).space.cfg_len(),
            flash.address_width == old(flash).address_width,
            cfg_extends(flash.space.ops(), old(flash).space.ops()),
            flash.space.ops() == h7 + t_sig,
            is_sendbytes_seq(t_sig, crate::image::spec_signature(), s as int),
        decreases signature@.len() - s,
    {
        let ghost pre = flash.space.ops();
        match ee_sendbyte(&mut flash.space, signature[s]) {
            Ok(()) => (),
            Err(e) => {
                let _ = ee_off(&mut flash.space);
                return Err(e);
            },
        }
        proof {
            let u = cfg_appended(flash.space.ops(), pre);
            lemma_cfg_appended(flash.space.ops(), pre);
            lemma_sendbytes_seq_snoc(t_sig, u, crate::image::spec_signature(), s as int);
            assert(flash.space.ops() =~= h7 + (t_sig + u));
            t_sig = t_sig + u;
        }
        s = s + 1;
    }
    let ghost h8 = flash.space.ops();
    match ee_off(&mut flash.space) {
        Ok(()) => (),
        Err(e) => {
            return Err(e);
        },
    }
    proof {
        let t9 = cfg_appended(flash.space.ops(), h8);
        lemma_cfg_appended(flash.space.ops(), h8);
        assert(flash.space.ops() =~= h0 + (t1 + t_sent + t3 + t4 + t_verify + t6 + t7 + t_sig
            + t9));
        assert(cfg_appended(flash.space.ops(), h0) =~= t1 + t_sent + t3 + t4 + t_verify + t6 + t7
            + t_sig + t9);
        assert(is_write_image_session(
            cfg_appended(flash.space.ops(), h0),
            old(flash).address_width,
            image@,
        ));
    }
    Ok(())
}

/// Open the probe: end any pending transaction and send the READ
/// opcode with no address bytes, so the chip starts waiting for them.
fn probe_open<S: PciConfigSpace>(space: &mut S) -> (r: Result<(), FlashError>)
    requires
        old(space).cfg_len() >= MIN_CFG_LEN,
    ensures
        final(space).cfg_len() == old(space).cfg_len(),
        cfg_extends(final(space).ops(), old(space).ops()),
        r is Ok ==> is_probe_open_chunk(cfg_appended(final(space).ops(), old(space).ops())),
        r is Err ==> r->Err_0 == FlashError::Timeout,
{
    let ghost h0 = space.ops();
    match ee_off(space) {
        Ok(()) => (),
        Err(e) => {
            return Err(e);
        },
    }
    let ghost h1 = space.ops();
    let ghost t1 = cfg_appended(h1, h0);
    proof {
        lemma_cfg_appended(h1, h0);
    }
    match ee_sendbyte(space, READ_EE_OPCODE) {
        Ok(()) => (),
        Err(e) => {
            return Err(e);
        },
    }
    proof {
        let u = cfg_appended(space.ops(), h1);
        lemma_cfg_appended(space.ops(), h1);
        assert(space.ops() =~= h0 + (t1 + u));
        assert(cfg_appended(space.ops(), h0) =~= t1 + u);
        assert(is_probe_open_chunk(cfg_appended(space.ops(), h0)));
    }
    Ok(())
}

/// One confirmation trial of the probe: re-open a READ at `address`
/// under `width` and read one byte back.
fn probe_trial_read<S: PciConfigSpace>(
    space: &mut S,
    width: AddressWidth,
    address: usize,
) -> (r: Result<u8, FlashError>)
    requires
        old(space).cfg_len() >= MIN_CFG_LEN,
    ensures
        final(space).cfg_len() == old(space).cfg_len(),
        cfg_extends(final(space).ops(), old(space).ops()),
        r is Ok ==> is_probe_trial(
            cfg_appended(final(space).ops(), old(space).ops()),
            width,
            address,
            r->Ok_0,
        ),
        r is Err ==> r->Err_0 == FlashError::Timeout,
{
    let ghost h0 = space.ops();
    match begin_read(space, width, address) {
        Ok(()) => (),
        Err(e) => {
            return Err(e);
        },
    }
    let ghost h1 = space.ops();
    let ghost t1 = cfg_appended(h1, h0);
    proof {
        lemma_cfg_appended(h1, h0);
    }
    let c = match ee_readbyte(space) {
        Ok(b) => b,
        Err(e) => {
            return Err(e);
        },
    };
    proof {
        let u = cfg_appended(space.ops(), h1);
        lemma_cfg_appended(space.ops(), h1);
        assert(space.ops() =~= h0 + (t1 + u));
        assert(cfg_appended(space.ops(), h0) =~= t1 + u);
        assert(is_probe_trial(cfg_appended(space.ops(), h0), width, address, c));
    }
    Ok(c)
}

/// Detect the address width without writing, by exploiting that the
/// chip emits `0xFF` data bytes while it is still shifting address
/// bytes in: open a READ with no address, count the bytes until a
/// non-`0xFF` byte appears, and confirm each candidate width by
/// re-reading that byte at the address it would have under the
/// candidate.
///
/// On success the appended operations are one whole passive probe
/// session: the opcode-only open, the scan that found the data byte,
/// the failed shorter-width trials, and the confirming trial of the
/// returned width, switched off at the end.
#[verifier::rlimit(100)]
pub fn detect_address_width<S: PciConfigSpace>(space: &mut S) -> (r: Result<
    AddressWidth,
    FlashError,
>)
    requires
        old(space).cfg_len() >= MIN_CFG_LEN,
    ensures
        final(space).cfg_len() == old(space).cfg_len(),
        cfg_extends(final(space).ops(), old(space).ops()),
        r is Ok ==> eectl_switched_off(final(space).ops()) && is_passive_probe_session(
            cfg_appended(final(space).ops(), old(space).ops()),
            r->Ok_0,
        ),
        ({
            // each failure names its evidence: data in the first byte, a
            // whole device of ones, or a scan whose trials all mismatched
            match r {
                Err(FlashError::Timeout) => true,
                Err(FlashError::WidthProbeLeadingData) => exists|
                    t1: Seq<ConfigOp>,
                    t2: Seq<ConfigOp>,
                    c: u8,
                |
                    #![auto]
                    cfg_appended(final(space).ops(), old(space).ops()) == t1 + t2 && c != 0xff
                        && is_probe_open_chunk(t1) && is_readbyte_chunk(t2, c),
                Err(FlashError::WidthProbeAllOnes) => exists|t1: Seq<ConfigOp>, t2: Seq<ConfigOp>|
                    #![auto]
                    cfg_appended(final(space).ops(), old(space).ops()) == t1 + t2
                        && is_probe_open_chunk(t1) && is_ff_reads(t2, 0x200),
                Err(FlashError::WidthNotFound) => exists|
                    t1: Seq<ConfigOp>,
                    t2: Seq<ConfigOp>,
                    t3: Seq<ConfigOp>,
                    addr: int,
                    data: u8,
                |
                    #![auto]
                    cfg_appended(final(space).ops(), old(space).ops()) == t1 + t2 + t3 && data
                        != 0xff && 2 <= addr < 0x200 && is_probe_open_chunk(t1) && is_probe_scan(
                        t2,
                        addr,
                        data,
                    ) && is_probe_fallthrough(t3, addr, data),
                Err(_) => false,
                Ok(_) => true,
            }
        }),
{
    let ghost h0 = space.ops();
    match probe_open(space) {
        Ok(()) => (),
        Err(e) => {
            return Err(e);
        },
    }
    let ghost h_open = space.ops();
    let ghost t_open = cfg_appended(h_open, h0);
    proof {
        lemma_cfg_appended(h_open, h0);
    }
    // with at least one address byte pending, the first byte must be 0xFF
    let b0 = match ee_readbyte(space) {
        Ok(b) => b,
        Err(e) => {
            return Err(e);
        },
    };
    let ghost u0 = cfg_appended(space.ops(), h_open);
    proof {
        lemma_cfg_appended(space.ops(), h_open);
    }
    if b0 != 0xff {
        proof {
            assert(space.ops() =~= h0 + (t_open + u0));
            assert(cfg_appended(space.ops(), h0) =~= t_open + u0);
        }
        return Err(FlashError::WidthProbeLeadingData);
    }
    let ghost h_b0 = space.ops();
    let b1 = match ee_readbyte(space) {
        Ok(b) => b,
        Err(e) => {
            return Err(e);
        },
    };
    let ghost u1 = cfg_appended(space.ops(), h_b0);
    proof {
        lemma_cfg_appended(space.ops(), h_b0);
        assert(Seq::<ConfigOp>::empty() + u0 =~= u0);
        lemma_ff_reads_snoc(Seq::<ConfigOp>::empty(), u0, 0);
    }
    if b1 != 0xff {
        // data already at the second read: exactly one address byte
        let ghost h_b1 = space.ops();
        match ee_off(space) {
            Ok(()) => (),
            Err(e) => {
                return Err(e);
            },
        }
        proof {
            let t_off = cfg_appended(space.ops(), h_b1);
            lemma_cfg_appended(space.ops(), h_b1);
            assert(is_probe_scan(u0 + u1, 1, b1));
            assert(is_probe_conclusion(t_off, AddressWidth::One, 1, b1));
            assert(space.ops() =~= h0 + (t_open + (u0 + u1) + t_off));
            assert(cfg_appended(space.ops(), h0) =~= t_open + (u0 + u1) + t_off);
            assert(is_passive_probe_session(cfg_appended(space.ops(), h0), AddressWidth::One));
        }
        return Ok(AddressWidth::One);
    }
    // with all address bytes zero, the next byte would sit at `addr`
    let ghost mut t_ff = u0 + u1;
    let ghost mut t_scan = Seq::<ConfigOp>::empty();
    proof {
        lemma_ff_reads_snoc(u0, u1, 1);
    }
    let mut addr: usize = 2;
    let mut data: u8 = 0;
    loop
        invariant_except_break
            is_ff_reads(t_ff, addr as int),
            space.ops() == h_open + t_ff,
        invariant
            2 <= addr < 0x200,
            space.cfg_len() == old(space).cfg_len(),
            old(space).cfg_len() >= MIN_CFG_LEN,
            h0 == old(space).ops(),
            h_open == h0 + t_open,
            is_probe_open_chunk(t_open),
            cfg_extends(h_open, h0),
            cfg_extends(space.ops(), h0),
        ensures
            2 <= addr < 0x200,
            data != 0xff,
            space.cfg_len() == old(space).cfg_len(),
            old(space).cfg_len() >= MIN_CFG_LEN,
            h0 == old(space).ops(),
            h_open == h0 + t_open,
            is_probe_open_chunk(t_open),
            cfg_extends(space.ops(), h0),
            space.ops() == h_open + t_scan,
            is_probe_scan(t_scan, addr as int, data),
        decreases 0x200 - addr,
    {
        let ghost pre = space.ops();
        data = match ee_readbyte(space) {
            Ok(b) => b,
            Err(e) => {
                return Err(e);
            },
        };
        let ghost u = cfg_appended(space.ops(), pre);
        proof {
            lemma_cfg_appended(space.ops(), pre);
        }
        if data != 0xff {
            proof {
                t_scan = t_ff + u;
                assert(space.ops() =~= h_open + (t_ff + u));
                assert(is_probe_scan(t_scan, addr as int, data));
            }
            break;
        }
        proof {
            lemma_ff_reads_snoc(t_ff, u, addr as int);
            assert(space.ops() =~= h_open + (t_ff + u));
            t_ff = t_ff + u;
        }
        addr = addr + 1;
        if addr >= 0x200 {
            proof {
                assert(space.ops() =~= h0 + (t_open + t_ff));
                assert(cfg_appended(space.ops(), h0) =~= t_open + t_ff);
            }
            return Err(FlashError::WidthProbeAllOnes);
        }
    }
    let ghost h_scan = space.ops();
    let r = probe_conclude(space, addr, data);
    proof {
        let t3 = cfg_appended(space.ops(), h_scan);
        lemma_cfg_appended(space.ops(), h_scan);
        assert(space.ops() =~= h0 + (t_open + t_scan + t3));
        assert(cfg_appended(space.ops(), h0) =~= t_open + t_scan + t3);
        if r is Ok {
            assert(is_passive_probe_session(cfg_appended(space.ops(), h0), r->Ok_0));
        }
    }
    r
}

/// The probe's concluding trials after `data` was found at post-opcode
/// read index `addr`: try each candidate width in order, keeping the
/// first whose re-read at `addr - width` returns `data` again.
#[verifier::rlimit(100)]
fn probe_conclude<S: PciConfigSpace>(space: &mut S, addr: usize, data: u8) -> (r: Result<
    AddressWidth,
    FlashError,
>)
    requires
        old(space).cfg_len() >= MIN_CFG_LEN,
        2 <= addr < 0x200,
        data != 0xff,
    ensures
        final(space).cfg_len() == old(space).cfg_len(),
        cfg_extends(final(space).ops(), old(space).ops()),
        r is Ok ==> eectl_switched_off(final(space).ops()) && is_probe_conclusion(
            cfg_appended(final(space).ops(), old(space).ops()),
            r->Ok_0,
            addr as int,
            data,
        ),
        ({
            match r {
                Err(FlashError::Timeout) => true,
                Err(FlashError::WidthNotFound) => is_probe_fallthrough(
                    cfg_appended(final(space).ops(), old(space).ops()),
                    addr as int,
                    data,
                ),
                Err(_) => false,
                Ok(_) => true,
            }
        }),
{
    let ghost h_scan = space.ops();
    let ghost mut f1 = Seq::<ConfigOp>::empty();
    if addr < 0x101 {
        // candidate: one address byte; the first byte was address wait;
        // a longer width would still yield 0xFF here, and data is not
        let check = match probe_trial_read(space, AddressWidth::One, addr - 1) {
            Ok(b) => b,
            Err(e) => {
                return Err(e);
            },
        };
        let ghost trial = cfg_appended(space.ops(), h_scan);
        proof {
            lemma_cfg_appended(space.ops(), h_scan);
        }
        if data == check {
            let ghost h_tr = space.ops();
            match ee_off(space) {
                Ok(()) => (),
                Err(e) => {
                    return Err(e);
                },
            }
            proof {
                let t_off = cfg_appended(space.ops(), h_tr);
                lemma_cfg_appended(space.ops(), h_tr);
                assert(is_probe_conclusion(trial + t_off, AddressWidth::One, addr as int, data));
                assert(space.ops() =~= h_scan + (trial + t_off));
                assert(cfg_appended(space.ops(), h_scan) =~= trial + t_off);
            }
            return Ok(AddressWidth::One);
        }
        proof {
            f1 = trial;
            assert(is_failed_probe_trial(f1, AddressWidth::One, (addr - 1) as usize, data));
        }
    } else {
        proof {
            assert(h_scan + f1 =~= h_scan);
        }
    }
    let ghost h_f1 = space.ops();
    proof {
        assert(h_f1 =~= h_scan + f1);
    }
    // candidate: two address bytes
    let check2 = match probe_trial_read(space, AddressWidth::Two, addr - 2) {
        Ok(b) => b,
        Err(e) => {
            return Err(e);
        },
    };
    let ghost trial2 = cfg_appended(space.ops(), h_f1);
    proof {
        lemma_cfg_appended(space.ops(), h_f1);
    }
    if data == check2 {
        let ghost h_tr = space.ops();
        match ee_off(space) {
            Ok(()) => (),
            Err(e) => {
                return Err(e);
            },
        }
        proof {
            let t_off = cfg_appended(space.ops(), h_tr);
            lemma_cfg_appended(space.ops(), h_tr);
            assert(is_probe_conclusion(
                f1 + trial2 + t_off,
                AddressWidth::Two,
                addr as int,
                data,
            ));
            assert(space.ops() =~= h_scan + (f1 + trial2 + t_off));
            assert(cfg_appended(space.ops(), h_scan) =~= f1 + trial2 + t_off);
        }
        return Ok(AddressWidth::Two);
    }
    let ghost f2 = trial2;
    proof {
        assert(is_failed_probe_trial(f2, AddressWidth::Two, (addr - 2) as usize, data));
        assert(space.ops() =~= h_scan + f1 + f2);
    }
    let ghost h_f2 = space.ops();
    let ghost mut f3 = Seq::<ConfigOp>::empty();
    if addr >= 3 {
        // candidate: three address bytes
        let check3 = match probe_trial_read(space, AddressWidth::Three, addr - 3) {
            Ok(b) => b,
            Err(e) => {
                return Err(e);
            },
        };
        let ghost trial3 = cfg_appended(space.ops(), h_f2);
        proof {
            lemma_cfg_appended(space.ops(), h_f2);
        }
        if data == check3 {
            let ghost h_tr = space.ops();
            match ee_off(space) {
                Ok(()) => (),
                Err(e) => {
                    return Err(e);
                },
            }
            proof {
                let t_off = cfg_appended(space.ops(), h_tr);
                lemma_cfg_appended(space.ops(), h_tr);
                assert(is_probe_conclusion(
                    f1 + f2 + trial3 + t_off,
                    AddressWidth::Three,
                    addr as int,
                    data,
                ));
                assert(space.ops() =~= h_scan + (f1 + f2 + trial3 + t_off));
                assert(cfg_appended(space.ops(), h_scan) =~= f1 + f2 + trial3 + t_off);
            }
            return Ok(AddressWidth::Three);
        }
        proof {
            f3 = trial3;
            assert(is_failed_probe_trial(f3, AddressWidth::Three, (addr - 3) as usize, data));
            assert(space.ops() =~= h_scan + f1 + f2 + f3);
        }
    } else {
        proof {
            assert(h_scan + f1 + f2 + f3 =~= h_scan + f1 + f2);
        }
    }
    let ghost h_f3 = space.ops();
    proof {
        assert(h_f3 =~= h_scan + f1 + f2 + f3);
    }
    match ee_off(space) {
        Ok(()) => (),
        Err(e) => {
            return Err(e);
        },
    }
    proof {
        let t_off = cfg_appended(space.ops(), h_f3);
        lemma_cfg_appended(space.ops(), h_f3);
        assert(is_probe_fallthrough(f1 + f2 + f3 + t_off, addr as int, data));
        assert(space.ops() =~= h_scan + (f1 + f2 + f3 + t_off));
        assert(cfg_appended(space.ops(), h_scan) =~= f1 + f2 + f3 + t_off);
    }
    Err(FlashError::WidthNotFound)
}

/// One destructive trial that landed: the zero byte written at address
/// zero under `w`, read back as zero, and the erased byte written back.
pub open spec fn is_active_trial_success(t: Seq<ConfigOp>, w: AddressWidth) -> bool {
    exists|a: Seq<ConfigOp>, b: Seq<ConfigOp>, c: Seq<ConfigOp>|
        #![auto]
        t == a + b + c && is_write_byte_command(a, w, 0, 0x00) && is_read_byte_command(
            b,
            w,
            0,
            0x00,
        ) && is_write_byte_command(c, w, 0, 0xff)
}

/// One destructive trial that did not land: the write under a too-short
/// width left the erased byte in place.
pub open spec fn is_active_trial_missed(t: Seq<ConfigOp>, w: AddressWidth) -> bool {
    exists|a: Seq<ConfigOp>, b: Seq<ConfigOp>|
        #![auto]
        t == a + b && is_write_byte_command(a, w, 0, 0x00) && is_read_byte_command(b, w, 0, 0xff)
}

/// The destructive probe concluding `w`: the missed trials of the
/// shorter widths, then the landing trial of `w`.
pub open spec fn is_active_probe_session(t: Seq<ConfigOp>, w: AddressWidth) -> bool {
    match w {
        AddressWidth::One => is_active_trial_success(t, AddressWidth::One),
        AddressWidth::Two => exists|m: Seq<ConfigOp>, a: Seq<ConfigOp>|
            #![auto]
            t == m + a && is_active_trial_missed(m, AddressWidth::One) && is_active_trial_success(
                a,
                AddressWidth::Two,
            ),
        AddressWidth::Three => exists|m1: Seq<ConfigOp>, m2: Seq<ConfigOp>, a: Seq<ConfigOp>|
            #![auto]
            t == m1 + m2 + a && is_active_trial_missed(m1, AddressWidth::One)
                && is_active_trial_missed(m2, AddressWidth::Two) && is_active_trial_success(
                a,
                AddressWidth::Three,
            ),
    }
}

/// The all-ones precheck before destructive probing: a fresh READ with
/// no address, then `0x100` all-ones bytes.
pub open spec fn is_ones_precheck(t: Seq<ConfigOp>) -> bool {
    exists|a: Seq<ConfigOp>, b: Seq<ConfigOp>|
        #![auto]
        t == a + b && is_probe_open_chunk(a) && is_ff_reads(b, 0x100)
}

/// One destructive width trial: write a zero byte at address zero under
/// the candidate width, read it back, and restore the erased byte if the
/// write landed.
#[verifier::rlimit(100)]
fn try_width_writing<S: PciConfigSpace>(space: &mut S, width: AddressWidth) -> (r: Result<
    Option<AddressWidth>,
    FlashError,
>)
    requires
        old(space).cfg_len() >= MIN_CFG_LEN,
    ensures
        final(space).cfg_len() == old(space).cfg_len(),
        cfg_extends(final(space).ops(), old(space).ops()),
        r is Ok ==> eectl_switched_off(final(space).ops()) && (match r->Ok_0 {
            Some(w) => w == width && is_active_trial_success(
                cfg_appended(final(space).ops(), old(space).ops()),
                width,
            ),
            None => is_active_trial_missed(
                cfg_appended(final(space).ops(), old(space).ops()),
                width,
            ),
        }),
        ({
            match r {
                Err(FlashError::Timeout) => true,
                Err(FlashError::WidthWriteMismatch(d)) => d != 0x00 && d != 0xff,
                Err(_) => false,
                Ok(_) => true,
            }
        }),
{
    let ghost h0 = space.ops();
    match write_byte_at(space, width, 0, 0x00) {
        Ok(()) => (),
        Err(e) => {
            return Err(e);
        },
    }
    let ghost h1 = space.ops();
    let ghost t1 = cfg_appended(h1, h0);
    proof {
        lemma_cfg_appended(h1, h0);
    }
    let data = match read_byte_at(space, width, 0) {
        Ok(b) => b,
        Err(e) => {
            return Err(e);
        },
    };
    let ghost h2 = space.ops();
    let ghost t2 = cfg_appended(h2, h1);
    proof {
        lemma_cfg_appended(h2, h1);
    }
    if data != 0xff {
        // restore the erased state
        match write_byte_at(space, width, 0, 0xff) {
            Ok(()) => (),
            Err(e) => {
                return Err(e);
            },
        }
        if data != 0x00 {
            return Err(FlashError::WidthWriteMismatch(data));
        }
        proof {
            let t3 = cfg_appended(space.ops(), h2);
            lemma_cfg_appended(space.ops(), h2);
            assert(space.ops() =~= h0 + (t1 + t2 + t3));
            assert(cfg_appended(space.ops(), h0) =~= t1 + t2 + t3);
            assert(is_active_trial_success(cfg_appended(space.ops(), h0), width));
        }
        return Ok(Some(width));
    }
    // the write did not land: the width is longer than this candidate
    proof {
        assert(space.ops() =~= h0 + (t1 + t2));
        assert(cfg_appended(space.ops(), h0) =~= t1 + t2);
        assert(is_active_trial_missed(cfg_appended(space.ops(), h0), width));
    }
    Ok(None)
}

/// One whole destructive probe: the all-ones precheck, then the trials.
pub open spec fn is_destructive_session(t: Seq<ConfigOp>, w: AddressWidth) -> bool {
    exists|tc: Seq<ConfigOp>, ta: Seq<ConfigOp>|
        #![auto]
        t == tc + ta && is_ones_precheck(tc) && is_active_probe_session(ta, w)
}

/// A destructive probe that ran out of candidates: the precheck, then
/// three missed trials.
pub open spec fn is_destructive_fallthrough(t: Seq<ConfigOp>) -> bool {
    exists|tc: Seq<ConfigOp>, m1: Seq<ConfigOp>, m2: Seq<ConfigOp>, m3: Seq<ConfigOp>|
        #![auto]
        t == tc + m1 + m2 + m3 && is_ones_precheck(tc) && is_active_trial_missed(
            m1,
            AddressWidth::One,
        ) && is_active_trial_missed(m2, AddressWidth::Two) && is_active_trial_missed(
            m3,
            AddressWidth::Three,
        )
}

/// The all-ones precheck of the destructive probe: a fresh READ with no
/// address, then `0x100` bytes that must all read as ones (so the
/// erased state can be restored); anything else gets `if_data` back.
#[verifier::rlimit(100)]
fn ones_precheck<S: PciConfigSpace>(space: &mut S, if_data: FlashError) -> (r: Result<
    (),
    FlashError,
>)
    requires
        old(space).cfg_len() >= MIN_CFG_LEN,
    ensures
        final(space).cfg_len() == old(space).cfg_len(),
        cfg_extends(final(space).ops(), old(space).ops()),
        r is Ok ==> is_ones_precheck(cfg_appended(final(space).ops(), old(space).ops())),
        r is Err ==> r->Err_0 == FlashError::Timeout || r->Err_0 == if_data,
{
    let ghost h0 = space.ops();
    match probe_open(space) {
        Ok(()) => (),
        Err(e) => {
            return Err(e);
        },
    }
    let ghost h_pre = space.ops();
    let ghost t_pre_open = cfg_appended(h_pre, h0);
    proof {
        lemma_cfg_appended(h_pre, h0);
    }
    let ghost mut t_ff = Seq::<ConfigOp>::empty();
    let mut i: usize = 0;
    proof {
        assert(is_ff_reads(t_ff, 0));
        assert(space.ops() =~= h_pre + t_ff);
    }
    while i < 0x100
        invariant
            i <= 0x100,
            space.cfg_len() == old(space).cfg_len(),
            old(space).cfg_len() >= MIN_CFG_LEN,
            h0 == old(space).ops(),
            cfg_extends(space.ops(), h0),
            space.ops() == h_pre + t_ff,
            is_ff_reads(t_ff, i as int),
        decreases 0x100 - i,
    {
        let ghost pre = space.ops();
        let b = match ee_readbyte(space) {
            Ok(b) => b,
            Err(e) => {
                return Err(e);
            },
        };
        if b != 0xff {
            // data exists that the passive probe could not place; writing
            // more will not help
            return Err(if_data);
        }
        proof {
            let u = cfg_appended(space.ops(), pre);
            lemma_cfg_appended(space.ops(), pre);
            lemma_ff_reads_snoc(t_ff, u, i as int);
            assert(space.ops() =~= h_pre + (t_ff + u));
            t_ff = t_ff + u;
        }
        i = i + 1;
    }
    proof {
        assert(space.ops() =~= h0 + (t_pre_open + t_ff));
        assert(cfg_appended(space.ops(), h0) =~= t_pre_open + t_ff);
        assert(is_ones_precheck(cfg_appended(space.ops(), h0)));
    }
    Ok(())
}

proof fn lemma_destructive_session_intro(
    t: Seq<ConfigOp>,
    tc: Seq<ConfigOp>,
    ta: Seq<ConfigOp>,
    w: AddressWidth,
)
    requires
        t == tc + ta,
        is_ones_precheck(tc),
        is_active_probe_session(ta, w),
    ensures
        is_destructive_session(t, w),
{
}

proof fn lemma_destructive_fallthrough_intro(
    t: Seq<ConfigOp>,
    tc: Seq<ConfigOp>,
    m1: Seq<ConfigOp>,
    m2: Seq<ConfigOp>,
    m3: Seq<ConfigOp>,
)
    requires
        t == tc + m1 + m2 + m3,
        is_ones_precheck(tc),
        is_active_trial_missed(m1, AddressWidth::One),
        is_active_trial_missed(m2, AddressWidth::Two),
        is_active_trial_missed(m3, AddressWidth::Three),
    ensures
        is_destructive_fallthrough(t),
{
}

/// The destructive fallback of the width probe: the all-ones precheck,
/// then the trials of each candidate width in order.
#[verifier::rlimit(100)]
fn active_probe<S: PciConfigSpace>(space: &mut S, if_data: FlashError) -> (r: Result<
    AddressWidth,
    FlashError,
>)
    requires
        old(space).cfg_len() >= MIN_CFG_LEN,
        !(if_data is WidthWriteMismatch),
        if_data != FlashError::WidthNotFoundWithWrite,
    ensures
        final(space).cfg_len() == old(space).cfg_len(),
        cfg_extends(final(space).ops(), old(space).ops()),
        r is Ok ==> eectl_switched_off(final(space).ops()) && is_destructive_session(
            cfg_appended(final(space).ops(), old(space).ops()),
            r->Ok_0,
        ),
        ({
            match r {
                Err(FlashError::WidthWriteMismatch(d)) => d != 0x00 && d != 0xff,
                Err(FlashError::WidthNotFoundWithWrite) => is_destructive_fallthrough(
                    cfg_appended(final(space).ops(), old(space).ops()),
                ),
                Err(e) => e == FlashError::Timeout || e == if_data,
                Ok(_) => true,
            }
        }),
{
    let ghost h0 = space.ops();
    match ones_precheck(space, if_data) {
        Ok(()) => (),
        Err(e) => {
            return Err(e);
        },
    }
    let ghost h_checked = space.ops();
    let ghost t_check = cfg_appended(h_checked, h0);
    proof {
        lemma_cfg_appended(h_checked, h0);
    }
    let r = run_width_trials(space);
    proof {
        let ta = cfg_appended(space.ops(), h_checked);
        lemma_cfg_appended(space.ops(), h_checked);
        assert(space.ops() =~= h0 + (t_check + ta));
        assert(cfg_appended(space.ops(), h0) =~= t_check + ta);
        if r is Ok {
            lemma_destructive_session_intro(
                cfg_appended(space.ops(), h0),
                t_check,
                ta,
                r->Ok_0,
            );
        }
        if r == Err::<AddressWidth, FlashError>(FlashError::WidthNotFoundWithWrite) {
            let (m1, m2, m3) = choose|m1: Seq<ConfigOp>, m2: Seq<ConfigOp>, m3: Seq<ConfigOp>|
                #![auto]
                ta == m1 + m2 + m3 && is_active_trial_missed(m1, AddressWidth::One)
                    && is_active_trial_missed(m2, AddressWidth::Two) && is_active_trial_missed(
                    m3,
                    AddressWidth::Three,
                );
            assert(cfg_appended(space.ops(), h0) =~= t_check + m1 + m2 + m3);
            lemma_destructive_fallthrough_intro(
                cfg_appended(space.ops(), h0),
                t_check,
                m1,
                m2,
                m3,
            );
        }
    }
    r
}

proof fn lemma_active_two_intro(t: Seq<ConfigOp>, m1: Seq<ConfigOp>, t2: Seq<ConfigOp>)
    requires
        t == m1 + t2,
        is_active_trial_missed(m1, AddressWidth::One),
        is_active_trial_success(t2, AddressWidth::Two),
    ensures
        is_active_probe_session(t, AddressWidth::Two),
{
}

proof fn lemma_active_three_intro(
    t: Seq<ConfigOp>,
    m1: Seq<ConfigOp>,
    m2: Seq<ConfigOp>,
    t3: Seq<ConfigOp>,
)
    requires
        t == m1 + m2 + t3,
        is_active_trial_missed(m1, AddressWidth::One),
        is_active_trial_missed(m2, AddressWidth::Two),
        is_active_trial_success(t3, AddressWidth::Three),
    ensures
        is_active_probe_session(t, AddressWidth::Three),
{
}

/// The destructive trials in candidate order: keep the first width whose
/// zero-write at address zero lands.
#[verifier::rlimit(100)]
#[verifier::spinoff_prover]
fn run_width_trials<S: PciConfigSpace>(space: &mut S) -> (r: Result<AddressWidth, FlashError>)
    requires
        old(space).cfg_len() >= MIN_CFG_LEN,
    ensures
        final(space).cfg_len() == old(space).cfg_len(),
        cfg_extends(final(space).ops(), old(space).ops()),
        r is Ok ==> eectl_switched_off(final(space).ops()) && is_active_probe_session(
            cfg_appended(final(space).ops(), old(space).ops()),
            r->Ok_0,
        ),
        ({
            match r {
                Err(FlashError::Timeout) => true,
                Err(FlashError::WidthWriteMismatch(d)) => d != 0x00 && d != 0xff,
                Err(FlashError::WidthNotFoundWithWrite) => exists|
                    m1: Seq<ConfigOp>,
                    m2: Seq<ConfigOp>,
                    m3: Seq<ConfigOp>,
                |
                    #![auto]
                    cfg_appended(final(space).ops(), old(space).ops()) == m1 + m2 + m3
                        && is_active_trial_missed(m1, AddressWidth::One) && is_active_trial_missed(
                        m2,
                        AddressWidth::Two,
                    ) && is_active_trial_missed(m3, AddressWidth::Three),
                Err(_) => false,
                Ok(_) => true,
            }
        }),
{
    let ghost h0 = space.ops();
    match try_width_writing(space, AddressWidth::One) {
        Ok(Some(w)) => {
            proof {
                assert(is_active_probe_session(cfg_appended(space.ops(), h0), w));
            }
            return Ok(w);
        },
        Ok(None) => (),
        Err(e) => {
            return Err(e);
        },
    }
    let ghost h_m1 = space.ops();
    let ghost m1 = cfg_appended(h_m1, h0);
    proof {
        lemma_cfg_appended(h_m1, h0);
    }
    match try_width_writing(space, AddressWidth::Two) {
        Ok(Some(w)) => {
            proof {
                let t2 = cfg_appended(space.ops(), h_m1);
                lemma_cfg_appended(space.ops(), h_m1);
                assert(space.ops() =~= h0 + (m1 + t2));
                assert(cfg_appended(space.ops(), h0) =~= m1 + t2);
                lemma_active_two_intro(cfg_appended(space.ops(), h0), m1, t2);
            }
            return Ok(w);
        },
        Ok(None) => (),
        Err(e) => {
            return Err(e);
        },
    }
    let ghost h_m2 = space.ops();
    let ghost m2 = cfg_appended(h_m2, h_m1);
    proof {
        lemma_cfg_appended(h_m2, h_m1);
    }
    match try_width_writing(space, AddressWidth::Three) {
        Ok(Some(w)) => {
            proof {
                let t3 = cfg_appended(space.ops(), h_m2);
                lemma_cfg_appended(space.ops(), h_m2);
                assert(space.ops() =~= h0 + (m1 + m2 + t3));
                assert(cfg_appended(space.ops(), h0) =~= m1 + m2 + t3);
                lemma_active_three_intro(cfg_appended(space.ops(), h0), m1, m2, t3);
            }
            return Ok(w);
        },
        Ok(None) => (),
        Err(e) => {
            return Err(e);
        },
    }
    proof {
        let m3 = cfg_appended(space.ops(), h_m2);
        lemma_cfg_appended(space.ops(), h_m2);
        assert(space.ops() =~= h0 + (m1 + m2 + m3));
        assert(cfg_appended(space.ops(), h0) =~= m1 + m2 + m3);
    }
    Err(FlashError::WidthNotFoundWithWrite)
}

/// Detect the address width, falling back to destructive probing when
/// the passive probe fails because the flash reads as all ones: after a
/// precheck that the first `0x100` bytes really are all ones (so the
/// erased state can be restored), write a zero byte at address zero
/// under each candidate width and keep the first width whose write
/// lands, restoring the erased byte.
pub fn detect_address_width_allow_writing<S: PciConfigSpace>(space: &mut S) -> (r: Result<
    AddressWidth,
    FlashError,
>)
    requires
        old(space).cfg_len() >= MIN_CFG_LEN,
    ensures
        final(space).cfg_len() == old(space).cfg_len(),
        cfg_extends(final(space).ops(), old(space).ops()),
        r is Ok ==> eectl_switched_off(final(space).ops()) && (is_passive_probe_session(
            cfg_appended(final(space).ops(), old(space).ops()),
            r->Ok_0,
        ) || (exists|tp: Seq<ConfigOp>, td: Seq<ConfigOp>|
            #![auto]
            cfg_appended(final(space).ops(), old(space).ops()) == tp + td
                && is_destructive_session(td, r->Ok_0))),
        ({
            match r {
                Err(FlashError::WidthWriteMismatch(d)) => d != 0x00 && d != 0xff,
                Err(FlashError::WidthNotFoundWithWrite) => exists|
                    tp: Seq<ConfigOp>,
                    td: Seq<ConfigOp>,
                |
                    #![auto]
                    cfg_appended(final(space).ops(), old(space).ops()) == tp + td
                        && is_destructive_fallthrough(td),
                Err(_) => true,
                Ok(_) => true,
            }
        }),
{
    let ghost h0 = space.ops();
    let orig_err = match detect_address_width(space) {
        Ok(r) => {
            return Ok(r);
        },
        Err(e) => e,
    };
    let ghost h_passive = space.ops();
    let ghost tp = cfg_appended(h_passive, h0);
    proof {
        lemma_cfg_appended(h_passive, h0);
    }
    let r = active_probe(space, orig_err);
    proof {
        let td = cfg_appended(space.ops(), h_passive);
        lemma_cfg_appended(space.ops(), h_passive);
        assert(space.ops() =~= h0 + (tp + td));
        assert(cfg_appended(space.ops(), h0) =~= tp + td);
    }
    r
}

/// Open the flash strictly: the EEPROM must be present and valid with a
/// known address width, the device initialization word must have PCI
/// Express and PCI enabled at the default speed, and the signature must
/// read `axxon`.  Success and each error kind are tied to the recorded
/// reads: the opening EECTL view, the DEVINIT word, and the signature
/// bytes; on failure the window comes back in the error.
#[verifier::rlimit(100)]
pub fn open_flash<S: PciConfigSpace>(space: S) -> (r: Result<Flash<S>, (S, FlashError)>)
    requires
        space.cfg_len() >= MIN_CFG_LEN,
    ensures
        r is Ok ==> ({
            let f = r->Ok_0;
            &&& f.wf()
            &&& f.space.cfg_len() == space.cfg_len()
            &&& eectl_switched_off(f.space.ops())
            &&& exists|v: u32, dv: u32, ts: Seq<ConfigOp>|
                #![auto]
                f.space.ops() == space.ops() + eectl_read_pair(v) + devinit_read_pair(dv) + ts
                    && ee_bit(v, EEPROM_PRESENT) && ee_bit(v, EEPROM_VALID)
                    && ee_address_width_of(v) == Some(f.address_width) && dv & 0x10 != 0 && dv
                    & 0x20 != 0 && dv & 0x0f == 0x03 && is_read_block_session(
                    ts,
                    f.address_width,
                    EEPROM_SIGNATURE_OFFSET,
                    crate::image::spec_signature(),
                )
        }),
        r is Err ==> ({
            let s = r->Err_0.0;
            &&& s.cfg_len() == space.cfg_len()
            &&& cfg_extends(s.ops(), space.ops())
            &&& match r->Err_0.1 {
                FlashError::NotPresent => exists|v: u32|
                    #![auto]
                    s.ops() == space.ops() + eectl_read_pair(v) && !ee_bit(v, EEPROM_PRESENT),
                FlashError::Invalid => exists|v: u32|
                    #![auto]
                    s.ops() == space.ops() + eectl_read_pair(v) && ee_bit(v, EEPROM_PRESENT)
                        && !ee_bit(v, EEPROM_VALID),
                FlashError::WidthUnknown => exists|v: u32|
                    #![auto]
                    s.ops() == space.ops() + eectl_read_pair(v) && ee_bit(v, EEPROM_PRESENT)
                        && ee_bit(v, EEPROM_VALID) && ee_address_width_of(v) is None,
                FlashError::PciExpressDisabled => exists|v: u32, dv: u32|
                    #![auto]
                    s.ops() == space.ops() + eectl_read_pair(v) + devinit_read_pair(dv) && dv
                        & 0x10 == 0,
                FlashError::PciDisabled => exists|v: u32, dv: u32|
                    #![auto]
                    s.ops() == space.ops() + eectl_read_pair(v) + devinit_read_pair(dv) && dv
                        & 0x10 != 0 && dv & 0x20 == 0,
                FlashError::BadSpeed => exists|v: u32, dv: u32|
                    #![auto]
                    s.ops() == space.ops() + eectl_read_pair(v) + devinit_read_pair(dv) && dv
                        & 0x0f != 0x03,
                FlashError::BadSignature => exists|v: u32, dv: u32, ts: Seq<ConfigOp>, bytes: Seq<u8>|
                    #![auto]
                    s.ops() == space.ops() + eectl_read_pair(v) + devinit_read_pair(dv) + ts
                        && bytes.len() == 5 && bytes != crate::image::spec_signature()
                        && is_read_block_session(
                        ts,
                        ee_address_width_of(v)->Some_0,
                        EEPROM_SIGNATURE_OFFSET,
                        bytes,
                    ),
                FlashError::Timeout => true,
                _ => false,
            }
        }),
{
    let mut space = space;
    let ghost h0 = space.ops();
    let eectl = eectl_read(&mut space);
    if !eectl.is_present() {
        return Err((space, FlashError::NotPresent));
    }
    if !eectl.is_valid() {
        return Err((space, FlashError::Invalid));
    }
    let address_width = match eectl.address_width() {
        None => {
            return Err((space, FlashError::WidthUnknown));
        },
        Some(aw) => aw,
    };
    let device_flags = main_read(&mut space, DEVICE_INITIALIZATION);
    proof {
        assert(space.ops() =~= h0 + eectl_read_pair(eectl.0) + devinit_read_pair(device_flags));
    }
    if 0 == device_flags & 0x10 {
        return Err((space, FlashError::PciExpressDisabled));
    }
    if 0 == device_flags & 0x20 {
        return Err((space, FlashError::PciDisabled));
    }
    if device_flags & 0x0f != 0b0011 {
        return Err((space, FlashError::BadSpeed));
    }
    let ghost h1 = space.ops();
    let mut flash = Flash { space, address_width };
    match flash.verify_signature() {
        Ok(()) => (),
        Err(e) => {
            proof {
                if e == FlashError::BadSignature {
                    let bytes = choose|bytes: Seq<u8>|
                        #![auto]
                        bytes.len() == 5 && bytes != crate::image::spec_signature()
                            && is_read_block_session(
                            cfg_appended(flash.space.ops(), h1),
                            address_width,
                            EEPROM_SIGNATURE_OFFSET,
                            bytes,
                        );
                    lemma_cfg_appended(flash.space.ops(), h1);
                    assert(flash.space.ops() =~= h0 + eectl_read_pair(eectl.0)
                        + devinit_read_pair(device_flags) + cfg_appended(flash.space.ops(), h1));
                }
            }
            proof {
                if e == FlashError::BadSignature {
                    let bytes2 = choose|bytes: Seq<u8>|
                        #![auto]
                        bytes.len() == 5 && bytes != crate::image::spec_signature()
                            && is_read_block_session(
                            cfg_appended(flash.space.ops(), h1),
                            address_width,
                            EEPROM_SIGNATURE_OFFSET,
                            bytes,
                        );
                    let ts = cfg_appended(flash.space.ops(), h1);
                    assert(flash.space.ops() == h0 + eectl_read_pair(eectl.0) + devinit_read_pair(
                        device_flags,
                    ) + ts && bytes2.len() == 5 && bytes2 != crate::image::spec_signature()
                        && is_read_block_session(
                        ts,
                        ee_address_width_of(eectl.0)->Some_0,
                        EEPROM_SIGNATURE_OFFSET,
                        bytes2,
                    ));
                }
            }
            let out = flash.space;
            return Err((out, e));
        },
    }
    proof {
        let ts = cfg_appended(flash.space.ops(), h1);
        lemma_cfg_appended(flash.space.ops(), h1);
        assert(flash.space.ops() =~= h0 + eectl_read_pair(eectl.0) + devinit_read_pair(
            device_flags,
        ) + ts);
        assert(flash.space.ops() == h0 + eectl_read_pair(eectl.0) + devinit_read_pair(
            device_flags,
        ) + ts && ee_bit(eectl.0, EEPROM_PRESENT) && ee_bit(eectl.0, EEPROM_VALID)
            && ee_address_width_of(eectl.0) == Some(address_width) && device_flags & 0x10 != 0
            && device_flags & 0x20 != 0 && device_flags & 0x0f == 0x03 && is_read_block_session(
            ts,
            address_width,
            EEPROM_SIGNATURE_OFFSET,
            crate::image::spec_signature(),
        ));
    }
    Ok(flash)
}

/// Open the flash for recovery: only the EEPROM's presence is enforced;
/// an invalid content or unusual device initialization is tolerated, and
/// an unknown address width is probed passively.  The result's width is
/// the EECTL-reported one when known, else the probed one; on failure
/// the window comes back in the error.
#[verifier::rlimit(100)]
pub fn open_flash_recovery<S: PciConfigSpace>(space: S) -> (r: Result<Flash<S>, (S, FlashError)>)
    requires
        space.cfg_len() >= MIN_CFG_LEN,
    ensures
        r is Ok ==> ({
            let f = r->Ok_0;
            &&& f.wf()
            &&& f.space.cfg_len() == space.cfg_len()
            &&& exists|v: u32, rest: Seq<ConfigOp>, dv: u32|
                #![auto]
                f.space.ops() == space.ops() + eectl_read_pair(v) + rest + devinit_read_pair(dv)
                    && ee_bit(v, EEPROM_PRESENT) && (match ee_address_width_of(v) {
                    Some(w) => f.address_width == w && rest == Seq::<ConfigOp>::empty(),
                    None => is_passive_probe_session(rest, f.address_width),
                })
        }),
        r is Err ==> ({
            let s = r->Err_0.0;
            &&& s.cfg_len() == space.cfg_len()
            &&& cfg_extends(s.ops(), space.ops())
            &&& match r->Err_0.1 {
                FlashError::NotPresent => exists|v: u32|
                    #![auto]
                    s.ops() == space.ops() + eectl_read_pair(v) && !ee_bit(v, EEPROM_PRESENT),
                FlashError::Timeout => true,
                FlashError::WidthProbeLeadingData => true,
                FlashError::WidthProbeAllOnes => true,
                FlashError::WidthNotFound => true,
                _ => false,
            }
        }),
{
    let mut space = space;
    let ghost h0 = space.ops();
    let eectl = eectl_read(&mut space);
    if !eectl.is_present() {
        return Err((space, FlashError::NotPresent));
    }
    // an invalid EEPROM is tolerated in recovery
    let ghost h1 = space.ops();
    let address_width = match eectl.address_width() {
        Some(aw) => aw,
        None => {
            match detect_address_width(&mut space) {
                Ok(aw) => aw,
                Err(e) => {
                    return Err((space, e));
                },
            }
        },
    };
    let ghost rest = cfg_appended(space.ops(), h1);
    proof {
        lemma_cfg_appended(space.ops(), h1);
        if ee_address_width_of(eectl.0) is Some {
            assert(rest =~= Seq::<ConfigOp>::empty());
        }
    }
    // the initialization word is read but not enforced in recovery
    let device_flags = main_read(&mut space, DEVICE_INITIALIZATION);
    proof {
        assert(space.ops() =~= h0 + eectl_read_pair(eectl.0) + rest + devinit_read_pair(
            device_flags,
        ));
    }
    Ok(Flash { space, address_width })
}

/// Whether the id triple names a PEX8112 PCIe-to-PCI bridge: Broadcom's
/// vendor id, the 8112 device, and the normal-decode PCI-to-PCI bridge
/// class.
pub open spec fn spec_is_pex8112_bridge(vendor: VendorId, device: DeviceID, class: Class) -> bool {
    vendor.0 == 0x10b5 && device.0 == 0x8112 && class.class_code.0 == 0x06
        && class.subclass_code.0 == 0x04 && class.programming_interface.0 == 0x00
}

pub fn is_pex8112_bridge(vendor: VendorId, device: DeviceID, class: Class) -> (r: bool)
    ensures
        r == spec_is_pex8112_bridge(vendor, device, class),
{
    vendor.0 == 0x10b5 && device.0 == 0x8112 && class.class_code.0 == 0x06
        && class.subclass_code.0 == 0x04 && class.programming_interface.0 == 0x00
}

} // verus!
