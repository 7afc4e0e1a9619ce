//! The OX16PCI954 side: identifying the chip, the bit layout of its
//! EEPROM pins inside resource 3, the zone-encoded program codec, and the
//! flash/readback flows over the Microwire driver.

use vstd::prelude::*;

use crate::endpoint::{DeviceID, VendorId};
use crate::serial::hardware::{extends, Hardware, OutPins, PinEvent};
use crate::serial::low_level::SerialError;
use crate::serial::operations::{
    appended, erase_all, finish_programming, is_eral_chunk, is_ewds_chunk, is_ewen_chunk,
    is_read_all_chunk, is_read_chunk, is_write_chunk, lemma_appended, lemma_extends_trans, read,
    read_all, start_programming,
};

verus! {

/// Whether the vendor/device pair names one of the OX16PCI954 functions:
/// function 0 (disabled or UART) or function 1 (disabled, 8-bit bus,
/// 32-bit bus, or parallel port).
pub open spec fn spec_is_ox16_pci954(vendor: VendorId, device: DeviceID) -> bool {
    vendor.0 == 0x1415 && (device.0 == 0x9500 || device.0 == 0x9501 || device.0 == 0x9510
        || device.0 == 0x9511 || device.0 == 0x9512 || device.0 == 0x9513)
}

pub fn is_ox16_pci954(vendor: VendorId, device: DeviceID) -> (r: bool)
    ensures
        r == spec_is_ox16_pci954(vendor, device),
{
    vendor.0 == 0x1415 && (device.0 == 0x9500 || device.0 == 0x9501 || device.0 == 0x9510
        || device.0 == 0x9511 || device.0 == 0x9512 || device.0 == 0x9513)
}

/// The EEPROM pins live in one byte of resource 3: bit 0 carries the
/// clock, bit 1 the chip select, bit 2 the data towards the chip.
pub open spec fn spec_pack_out_pins(pins: OutPins) -> u8 {
    (if pins.clock {
        0x01u8
    } else {
        0u8
    }) | (if pins.chip_select {
        0x02u8
    } else {
        0u8
    }) | (if pins.data {
        0x04u8
    } else {
        0u8
    })
}

/// Pack the output pins into the resource-3 EEPROM byte; the other bits
/// are left zero.
pub fn pack_out_pins(pins: OutPins) -> (r: u8)
    ensures
        r == spec_pack_out_pins(pins),
{
    let clk: u8 = if pins.clock { 0x01 } else { 0x00 };
    let cs: u8 = if pins.chip_select { 0x02 } else { 0x00 };
    let data: u8 = if pins.data { 0x04 } else { 0x00 };
    clk | cs | data
}

/// Bit 3 of the resource-3 EEPROM byte is the data coming back from the
/// chip.
pub open spec fn spec_input_pin_of_byte(b: u8) -> bool {
    b & 0x08 != 0
}

pub fn input_pin_of_byte(b: u8) -> (r: bool)
    ensures
        r == spec_input_pin_of_byte(b),
{
    0 != (b & 0x08)
}

/// The reference program: header with zones 1 and 3 enabled, the
/// multi-purpose-IO and interrupt-mask settings, and the function-1
/// overrides (device id low byte and interrupt pin cleared).
pub open spec fn spec_reference_program() -> Seq<u16> {
    seq![0x9505u16, 0x84ffu16, 0x85ffu16, 0x86ffu16, 0x9e0fu16, 0x1f00u16, 0x8001u16, 0x8200u16,
        0x3d00u16, 0x0000u16]
}

pub fn reference_program() -> (r: Vec<u16>)
    ensures
        r@ == spec_reference_program(),
{
    let r: Vec<u16> = vec![0x9505, 0x84ff, 0x85ff, 0x86ff, 0x9e0f, 0x1f00, 0x8001, 0x8200, 0x3d00,
        0x0000];
    proof {
        assert(r@ =~= spec_reference_program());
    }
    r
}

/// Ways a read-back program can be malformed.
#[derive(Clone, Copy, PartialEq, Eq, Structural, Debug)]
pub enum ProgramError {
    /// A zone ran past the end of the device.
    EndOfData,
    /// The header word does not carry the `0x950?` magic.
    BadMagic(u16),
    /// Header bit 3, which must be zero, is set.
    BadZoneFlags(u16),
}

/// Errors of the OX16PCI954 flash flows.
#[derive(Clone, Copy, PartialEq, Eq, Structural, Debug)]
pub enum Ox16Error {
    Serial(SerialError),
    Program(ProgramError),
    /// A word read back after programming differs from what was written.
    VerifyFailed { address: u16, expected: u16, actual: u16 },
}

/// Index just past the run of continuation words starting at `i`: words
/// keep the run open while their top bit is set, and the run ends with
/// the first word whose top bit is clear (that word included).
pub open spec fn run_end(ws: Seq<u16>, i: int) -> Option<int>
    decreases ws.len() - i,
{
    if i < 0 || i >= ws.len() {
        None
    } else if ws[i] & 0x8000 == 0 {
        Some(i + 1)
    } else {
        run_end(ws, i + 1)
    }
}

/// Index just past zone 3 starting at `i`.  Zone 3 is a list of pairs: an
/// outer word with the top bit set opens an inner run (`in_inner`), and
/// an outer word with the top bit clear ends the zone.
pub open spec fn zone3_end(ws: Seq<u16>, i: int, in_inner: bool) -> Option<int>
    decreases ws.len() - i,
{
    if i < 0 || i >= ws.len() {
        None
    } else if in_inner {
        if ws[i] & 0x8000 == 0 {
            zone3_end(ws, i + 1, false)
        } else {
            zone3_end(ws, i + 1, true)
        }
    } else {
        if ws[i] & 0x8000 == 0 {
            Some(i + 1)
        } else {
            zone3_end(ws, i + 1, true)
        }
    }
}

/// The program at the front of a word stream: empty on an empty flash
/// (first word all ones), otherwise the header word followed by each
/// enabled zone, consumed exactly once.
pub open spec fn spec_decode_program(ws: Seq<u16>) -> Result<Seq<u16>, ProgramError> {
    if ws.len() == 0 {
        Err(ProgramError::EndOfData)
    } else if ws[0] == 0xffff {
        Ok(Seq::empty())
    } else if ws[0] & 0xfff0 != 0x9500 {
        Err(ProgramError::BadMagic(ws[0]))
    } else if ws[0] & 0x0008 != 0 {
        Err(ProgramError::BadZoneFlags(ws[0]))
    } else {
        let e1 = if ws[0] & 0x0004 != 0 {
            run_end(ws, 1)
        } else {
            Some(1)
        };
        match e1 {
            None => Err(ProgramError::EndOfData),
            Some(i1) => {
                let e2 = if ws[0] & 0x0002 != 0 {
                    run_end(ws, i1)
                } else {
                    Some(i1)
                };
                match e2 {
                    None => Err(ProgramError::EndOfData),
                    Some(i2) => {
                        let e3 = if ws[0] & 0x0001 != 0 {
                            zone3_end(ws, i2, false)
                        } else {
                            Some(i2)
                        };
                        match e3 {
                            None => Err(ProgramError::EndOfData),
                            Some(i3) => Ok(ws.subrange(0, i3)),
                        }
                    },
                }
            },
        }
    }
}

/// A run that ends does so past its start and within the stream.
proof fn lemma_run_end_bounds(ws: Seq<u16>, i: int)
    requires
        run_end(ws, i) is Some,
    ensures
        i < run_end(ws, i)->Some_0 <= ws.len(),
    decreases ws.len() - i,
{
    if !(i < 0 || i >= ws.len()) && ws[i] & 0x8000 != 0 {
        lemma_run_end_bounds(ws, i + 1);
    }
}

/// A zone 3 that ends does so past its start and within the stream.
proof fn lemma_zone3_end_bounds(ws: Seq<u16>, i: int, in_inner: bool)
    requires
        zone3_end(ws, i, in_inner) is Some,
    ensures
        i < zone3_end(ws, i, in_inner)->Some_0 <= ws.len(),
    decreases ws.len() - i,
{
    if !(i < 0 || i >= ws.len()) {
        if in_inner {
            if ws[i] & 0x8000 == 0 {
                lemma_zone3_end_bounds(ws, i + 1, false);
            } else {
                lemma_zone3_end_bounds(ws, i + 1, true);
            }
        } else {
            if ws[i] & 0x8000 != 0 {
                lemma_zone3_end_bounds(ws, i + 1, true);
            }
        }
    }
}

/// A run that ends within a stream ends the same way in any extension.
proof fn lemma_run_end_extend(ws: Seq<u16>, q: Seq<u16>, i: int)
    requires
        run_end(ws, i) is Some,
    ensures
        run_end(ws + q, i) == run_end(ws, i),
    decreases ws.len() - i,
{
    if !(i < 0 || i >= ws.len()) && ws[i] & 0x8000 != 0 {
        lemma_run_end_extend(ws, q, i + 1);
    }
}

/// A zone 3 that ends within a stream ends the same way in any extension.
proof fn lemma_zone3_end_extend(ws: Seq<u16>, q: Seq<u16>, i: int, in_inner: bool)
    requires
        zone3_end(ws, i, in_inner) is Some,
    ensures
        zone3_end(ws + q, i, in_inner) == zone3_end(ws, i, in_inner),
    decreases ws.len() - i,
{
    if !(i < 0 || i >= ws.len()) {
        if in_inner {
            if ws[i] & 0x8000 == 0 {
                lemma_zone3_end_extend(ws, q, i + 1, false);
            } else {
                lemma_zone3_end_extend(ws, q, i + 1, true);
            }
        } else {
            if ws[i] & 0x8000 != 0 {
                lemma_zone3_end_extend(ws, q, i + 1, true);
            }
        }
    }
}

/// A program decoded from a stream decodes identically from any
/// extension of that stream: the decoder never looks past what it
/// consumes.
pub proof fn lemma_decode_extend(ws: Seq<u16>, q: Seq<u16>)
    requires
        spec_decode_program(ws) is Ok,
    ensures
        spec_decode_program(ws + q) == spec_decode_program(ws),
{
    let e = ws + q;
    assert(e.len() >= ws.len());
    if ws[0] == 0xffff {
    } else {
        let z1 = ws[0] & 0x0004 != 0;
        let z2 = ws[0] & 0x0002 != 0;
        let z3 = ws[0] & 0x0001 != 0;
        let e1 = if z1 {
            run_end(ws, 1)
        } else {
            Some(1)
        };
        let i1 = e1->Some_0;
        if z1 {
            lemma_run_end_extend(ws, q, 1);
            lemma_run_end_bounds(ws, 1);
        }
        let e2 = if z2 {
            run_end(ws, i1)
        } else {
            Some(i1)
        };
        let i2 = e2->Some_0;
        if z2 {
            lemma_run_end_extend(ws, q, i1);
            lemma_run_end_bounds(ws, i1);
        }
        let e3 = if z3 {
            zone3_end(ws, i2, false)
        } else {
            Some(i2)
        };
        let i3 = e3->Some_0;
        if z3 {
            lemma_zone3_end_extend(ws, q, i2, false);
            lemma_zone3_end_bounds(ws, i2, false);
        }
        assert(e.subrange(0, i3) =~= ws.subrange(0, i3));
    }
}

/// A stream of erased words decodes as the empty program.
pub proof fn lemma_decode_erased(ws: Seq<u16>)
    requires
        ws.len() > 0,
        forall|i: int| 0 <= i < ws.len() ==> ws[i] == 0xffff,
    ensures
        spec_decode_program(ws) == Ok::<Seq<u16>, ProgramError>(Seq::empty()),
{
}

/// Round trip: a complete well-formed program, written to an erased
/// device and read back with erased words after it, decodes to itself.
pub proof fn lemma_program_round_trip(p: Seq<u16>, pad: Seq<u16>)
    requires
        spec_decode_program(p) == Ok::<Seq<u16>, ProgramError>(p),
        forall|i: int| 0 <= i < pad.len() ==> pad[i] == 0xffff,
    ensures
        spec_decode_program(p + pad) == Ok::<Seq<u16>, ProgramError>(p),
{
    lemma_decode_extend(p, pad);
}

/// Index just past the run of continuation words starting at `i`.
fn scan_run(ws: &[u16], i: usize) -> (r: Option<usize>)
    requires
        i <= ws@.len(),
    ensures
        ({
            let m = run_end(ws@, i as int);
            match r {
                None => m is None,
                Some(j) => m == Some(j as int) && i < j <= ws@.len(),
            }
        }),
    decreases ws@.len() - i,
{
    if i >= ws.len() {
        None
    } else if ws[i] & 0x8000 == 0 {
        Some(i + 1)
    } else {
        scan_run(ws, i + 1)
    }
}

/// Index just past zone 3 starting at `i`.
fn scan_zone3(ws: &[u16], i: usize, in_inner: bool) -> (r: Option<usize>)
    requires
        i <= ws@.len(),
    ensures
        ({
            let m = zone3_end(ws@, i as int, in_inner);
            match r {
                None => m is None,
                Some(j) => m == Some(j as int) && i < j <= ws@.len(),
            }
        }),
    decreases ws@.len() - i,
{
    if i >= ws.len() {
        None
    } else if in_inner {
        if ws[i] & 0x8000 == 0 {
            scan_zone3(ws, i + 1, false)
        } else {
            scan_zone3(ws, i + 1, true)
        }
    } else {
        if ws[i] & 0x8000 == 0 {
            Some(i + 1)
        } else {
            scan_zone3(ws, i + 1, true)
        }
    }
}

/// Decode the program at the front of a word stream, as
/// `spec_decode_program` describes it.
pub fn decode_program(ws: &[u16]) -> (r: Result<Vec<u16>, ProgramError>)
    ensures
        ({
            match spec_decode_program(ws@) {
                Ok(p) => r is Ok && r->Ok_0@ == p,
                Err(e) => r == Err::<Vec<u16>, ProgramError>(e),
            }
        }),
{
    if ws.len() == 0 {
        return Err(ProgramError::EndOfData);
    }
    let head = ws[0];
    if head == 0xffff {
        let empty: Vec<u16> = Vec::new();
        return Ok(empty);
    }
    if head & 0xfff0 != 0x9500 {
        return Err(ProgramError::BadMagic(head));
    }
    if head & 0x0008 != 0 {
        return Err(ProgramError::BadZoneFlags(head));
    }
    let i1 = if head & 0x0004 != 0 {
        match scan_run(ws, 1) {
            None => {
                return Err(ProgramError::EndOfData);
            },
            Some(j) => j,
        }
    } else {
        1
    };
    let i2 = if head & 0x0002 != 0 {
        match scan_run(ws, i1) {
            None => {
                return Err(ProgramError::EndOfData);
            },
            Some(j) => j,
        }
    } else {
        i1
    };
    let i3 = if head & 0x0001 != 0 {
        match scan_zone3(ws, i2, false) {
            None => {
                return Err(ProgramError::EndOfData);
            },
            Some(j) => j,
        }
    } else {
        i2
    };
    let mut buf: Vec<u16> = Vec::new();
    let mut k: usize = 0;
    while k < i3
        invariant
            k <= i3 <= ws@.len(),
            buf@ =~= ws@.subrange(0, k as int),
        decreases i3 - k,
    {
        buf.push(ws[k]);
        k = k + 1;
    }
    Ok(buf)
}

/// A sequence of WRITE chunks for the first `n` program words, in address
/// order.
pub open spec fn is_writes_seg(t: Seq<PinEvent>, prog: Seq<u16>, n: int) -> bool
    decreases n,
{
    if n <= 0 {
        t == Seq::<PinEvent>::empty()
    } else {
        exists|a: Seq<PinEvent>, b: Seq<PinEvent>|
            #![auto]
            t == a + b && is_writes_seg(a, prog, n - 1) && is_write_chunk(
                b,
                (n - 1) as u16,
                prog[n - 1],
            )
    }
}

/// A sequence of READ chunks for the first `n` program words, each
/// returning the word that was written there, in address order.
pub open spec fn is_reads_seg(t: Seq<PinEvent>, prog: Seq<u16>, n: int) -> bool
    decreases n,
{
    if n <= 0 {
        t == Seq::<PinEvent>::empty()
    } else {
        exists|a: Seq<PinEvent>, b: Seq<PinEvent>|
            #![auto]
            t == a + b && is_reads_seg(a, prog, n - 1) && is_read_chunk(
                b,
                (n - 1) as u16,
                prog[n - 1],
            )
    }
}

/// A programming session that failed its verify pass at `address`: the
/// whole EWEN/ERAL/writes/EWDS envelope, the verifying reads matching up
/// to `address`, and the read at `address` returning `actual`.
pub open spec fn is_failed_verify_session(
    t: Seq<PinEvent>,
    prog: Seq<u16>,
    address: u16,
    actual: u16,
) -> bool {
    exists|
        t1: Seq<PinEvent>,
        t2: Seq<PinEvent>,
        t3: Seq<PinEvent>,
        t4: Seq<PinEvent>,
        t5: Seq<PinEvent>,
        t6: Seq<PinEvent>,
    |
        #![auto]
        t == t1 + t2 + t3 + t4 + t5 + t6 && is_ewen_chunk(t1) && is_eral_chunk(t2)
            && is_writes_seg(t3, prog, prog.len() as int) && is_ewds_chunk(t4) && is_reads_seg(
            t5,
            prog,
            address as int,
        ) && is_read_chunk(t6, address, actual)
}

/// One whole programming session: EWEN first, then ERAL, then one WRITE
/// per program word, then EWDS, then the verifying READs — so every
/// erase/write lies inside the EWEN/EWDS envelope, and the verify pass
/// saw every word read back equal to what was written.
pub open spec fn is_program_session(t: Seq<PinEvent>, prog: Seq<u16>) -> bool {
    exists|
        t1: Seq<PinEvent>,
        t2: Seq<PinEvent>,
        t3: Seq<PinEvent>,
        t4: Seq<PinEvent>,
        t5: Seq<PinEvent>,
    |
        #![auto]
        t == t1 + t2 + t3 + t4 + t5 && is_ewen_chunk(t1) && is_eral_chunk(t2) && is_writes_seg(
            t3,
            prog,
            prog.len() as int,
        ) && is_ewds_chunk(t4) && is_reads_seg(t5, prog, prog.len() as int)
}

proof fn lemma_writes_seg_snoc(t: Seq<PinEvent>, u: Seq<PinEvent>, prog: Seq<u16>, n: int)
    requires
        0 <= n < prog.len(),
        is_writes_seg(t, prog, n),
        is_write_chunk(u, n as u16, prog[n]),
    ensures
        is_writes_seg(t + u, prog, n + 1),
{
}

proof fn lemma_reads_seg_snoc(t: Seq<PinEvent>, u: Seq<PinEvent>, prog: Seq<u16>, n: int)
    requires
        0 <= n < prog.len(),
        is_reads_seg(t, prog, n),
        is_read_chunk(u, n as u16, prog[n]),
    ensures
        is_reads_seg(t + u, prog, n + 1),
{
}

/// Erase the whole device and program `program` word by word inside one
/// programming scope, then read every word back and fail on the first
/// mismatch.
///
/// On success the appended pin history is exactly one programming
/// session: EWEN precedes the erase and every write, EWDS follows them,
/// and the verifying reads returned the programmed words.
pub fn flash_program<H: Hardware>(hw: &mut H, program: &[u16]) -> (r: Result<(), Ox16Error>)
    requires
        program@.len() <= 64,
    ensures
        r is Ok ==> extends(final(hw).history(), old(hw).history()) && is_program_session(
            appended(final(hw).history(), old(hw).history()),
            program@,
        ),
        r is Err ==> extends(final(hw).history(), old(hw).history()),
        ({
            // a failure is a protocol error, or it names the first
            // mismatching address of the verify pass: the reads before it
            // returned the programmed words, the read there did not
            match r {
                Err(Ox16Error::VerifyFailed { address, expected, actual }) => (address as int)
                    < program@.len() && expected == program@[address as int] && actual != expected
                    && is_failed_verify_session(
                    appended(final(hw).history(), old(hw).history()),
                    program@,
                    address,
                    actual,
                ),
                Err(Ox16Error::Serial(_)) => true,
                Err(Ox16Error::Program(_)) => false,
                Ok(_) => true,
            }
        }),
{
    let ghost h0 = hw.history();
    let scope = match start_programming(hw) {
        Ok(s) => s,
        Err(e) => {
            return Err(Ox16Error::Serial(e));
        },
    };
    let ghost h1 = hw.history();
    let ghost t_ewen = appended(h1, h0);
    proof {
        lemma_appended(h1, h0);
    }
    match erase_all(hw) {
        Ok(()) => (),
        Err(e) => {
            let ghost hp = hw.history();
            let _ = finish_programming(hw, scope);
            proof {
                lemma_extends_trans(hw.history(), hp, h1);
                lemma_extends_trans(hw.history(), h1, h0);
            }
            return Err(Ox16Error::Serial(e));
        },
    }
    let ghost h2 = hw.history();
    let ghost t_eral = appended(h2, h1);
    proof {
        lemma_appended(h2, h1);
    }
    let mut address: usize = 0;
    let ghost mut t_writes = Seq::<PinEvent>::empty();
    while address < program.len()
        invariant
            address <= program@.len() <= 64,
            scope.owes_disable,
            hw.history() == h2 + t_writes,
            is_writes_seg(t_writes, program@, address as int),
            h2 == h0 + t_ewen + t_eral,
            is_ewen_chunk(t_ewen),
            is_eral_chunk(t_eral),
            h0 == old(hw).history(),
        decreases program@.len() - address,
    {
        let ghost hpre = hw.history();
        let w = program[address];
        match crate::serial::operations::write(hw, address as u16, w) {
            Ok(()) => (),
            Err(e) => {
                let ghost hp = hw.history();
                let _ = finish_programming(hw, scope);
                proof {
                    lemma_extends_trans(hw.history(), hp, hpre);
                    assert(hpre =~= h0 + (t_ewen + t_eral + t_writes));
                    crate::serial::operations::lemma_extends_app(
                        h0,
                        t_ewen + t_eral + t_writes,
                    );
                    lemma_extends_trans(hw.history(), hpre, h0);
                }
                return Err(Ox16Error::Serial(e));
            },
        }
        proof {
            let u = appended(hw.history(), hpre);
            lemma_appended(hw.history(), hpre);
            lemma_writes_seg_snoc(t_writes, u, program@, address as int);
            assert(hw.history() =~= h2 + (t_writes + u));
            t_writes = t_writes + u;
        }
        address = address + 1;
    }
    let ghost h3 = hw.history();
    match finish_programming(hw, scope) {
        Ok(()) => (),
        Err(e) => {
            proof {
                assert(h3 =~= h0 + (t_ewen + t_eral + t_writes));
                crate::serial::operations::lemma_extends_app(h0, t_ewen + t_eral + t_writes);
                lemma_extends_trans(hw.history(), h3, h0);
            }
            return Err(Ox16Error::Serial(e));
        },
    }
    let ghost h4 = hw.history();
    let ghost t_ewds = appended(h4, h3);
    proof {
        lemma_appended(h4, h3);
    }
    let mut address: usize = 0;
    let ghost mut t_reads = Seq::<PinEvent>::empty();
    while address < program.len()
        invariant
            address <= program@.len() <= 64,
            hw.history() == h4 + t_reads,
            is_reads_seg(t_reads, program@, address as int),
            h4 == h0 + t_ewen + t_eral + t_writes + t_ewds,
            is_ewen_chunk(t_ewen),
            is_eral_chunk(t_eral),
            is_writes_seg(t_writes, program@, program@.len() as int),
            is_ewds_chunk(t_ewds),
            h0 == old(hw).history(),
        decreases program@.len() - address,
    {
        let ghost hpre = hw.history();
        let expected = program[address];
        let flash = match read(hw, address as u16) {
            Ok(w) => w,
            Err(e) => {
                proof {
                    assert(hpre =~= h0 + (t_ewen + t_eral + t_writes + t_ewds + t_reads));
                    crate::serial::operations::lemma_extends_app(
                        h0,
                        t_ewen + t_eral + t_writes + t_ewds + t_reads,
                    );
                    lemma_extends_trans(hw.history(), hpre, h0);
                }
                return Err(Ox16Error::Serial(e));
            },
        };
        if flash != expected {
            proof {
                let u = appended(hw.history(), hpre);
                lemma_appended(hw.history(), hpre);
                assert(hw.history() =~= h0 + (t_ewen + t_eral + t_writes + t_ewds + t_reads
                    + u));
                crate::serial::operations::lemma_extends_app(
                    h0,
                    t_ewen + t_eral + t_writes + t_ewds + t_reads + u,
                );
                assert(appended(hw.history(), h0) =~= t_ewen + t_eral + t_writes + t_ewds
                    + t_reads + u);
                assert(is_failed_verify_session(
                    appended(hw.history(), h0),
                    program@,
                    address as u16,
                    flash,
                ));
            }
            return Err(
                Ox16Error::VerifyFailed { address: address as u16, expected, actual: flash },
            );
        }
        proof {
            let u = appended(hw.history(), hpre);
            lemma_appended(hw.history(), hpre);
            lemma_reads_seg_snoc(t_reads, u, program@, address as int);
            assert(hw.history() =~= h4 + (t_reads + u));
            t_reads = t_reads + u;
        }
        address = address + 1;
    }
    proof {
        assert(hw.history() =~= h0 + (t_ewen + t_eral + t_writes + t_ewds + t_reads));
        crate::serial::operations::lemma_extends_app(
            h0,
            t_ewen + t_eral + t_writes + t_ewds + t_reads,
        );
        assert(appended(hw.history(), h0) =~= t_ewen + t_eral + t_writes + t_ewds + t_reads);
        assert(is_program_session(appended(hw.history(), h0), program@));
    }
    Ok(())
}

/// Read the whole device and decode the program at its front.
///
/// On success the appended pin history is one read-all (probe plus the
/// words in one open transaction), and the result is exactly what
/// `spec_decode_program` makes of the words the device returned.
pub fn read_flash_program<H: Hardware>(hw: &mut H) -> (r: Result<Vec<u16>, Ox16Error>)
    ensures
        r is Ok ==> extends(final(hw).history(), old(hw).history()) && (exists|
            ws: Seq<u16>,
            len: usize,
        |
            #![auto]
            len <= 16 && ws.len() == (1usize << len) && is_read_all_chunk(
                appended(final(hw).history(), old(hw).history()),
                ws,
                len as int,
            ) && spec_decode_program(ws) == Ok::<Seq<u16>, ProgramError>(r->Ok_0@)),
        r is Err ==> extends(final(hw).history(), old(hw).history()),
{
    let ghost h0 = hw.history();
    let reader = match read_all(hw) {
        Ok(reader) => reader,
        Err(e) => {
            return Err(Ox16Error::Serial(e));
        },
    };
    match decode_program(reader.words.as_slice()) {
        Ok(buf) => {
            proof {
                let ws = reader.words@;
                let len = reader.len_bits@;
                assert(len <= 16 && ws.len() == (1usize << len) && is_read_all_chunk(
                    appended(hw.history(), h0),
                    ws,
                    len as int,
                ) && spec_decode_program(ws) == Ok::<Seq<u16>, ProgramError>(buf@));
            }
            Ok(buf)
        },
        Err(e) => Err(Ox16Error::Program(e)),
    }
}

} // verus!
