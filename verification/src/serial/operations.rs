//! The 93C46 instruction set over the low-level signal layer: ERASE, READ,
//! WRITE, EWEN, EWDS, ERAL, WRAL, the address-width probe and the batched
//! read-all stream.
//!
//! Each operation's contract pins down the pin-event chunk it appends to
//! the hardware history, so a caller's contract can state the exact order
//! of the commands a whole flow issues.

use vstd::prelude::*;

use crate::serial::hardware::{extends, Hardware, PinEvent};
use crate::serial::low_level::{
    finish_events, finish_instruction, force_receive, force_receive_events, receive_bit,
    receive_bit_events, receive_word, receive_word_events, send_bit, send_bit_events, send_bits,
    send_bits_events, start_events, start_instruction, wait_events, wait_for_completion,
    SerialError,
};

verus! {

/// The device address is six bits: 64 words.
pub const ADDRESS_BITS: u16 = 6;

/// One past the largest word address.
pub const ADDRESS_LIMIT: u16 = 64;

/// The EWEN opcode byte sent after the start bit.
pub const EWEN_BITS: u16 = 0b0011_0000;

/// The EWDS opcode byte sent after the start bit.
pub const EWDS_BITS: u16 = 0b0000_0000;

/// The ERAL opcode byte sent after the start bit.
pub const ERAL_BITS: u16 = 0b0010_0000;

/// The WRAL opcode byte sent after the start bit.
pub const WRAL_BITS: u16 = 0b0001_0000;

/// The events a completed instruction with no data phase appends: start,
/// eight opcode/address bits, busy-wait.
pub open spec fn plain_program_events(k1: nat, bits: u16, k2: nat) -> Seq<PinEvent> {
    start_events(k1) + send_bits_events(bits, 8) + wait_events(k2)
}

pub open spec fn is_ewen_chunk(t: Seq<PinEvent>) -> bool {
    exists|k1: nat, k2: nat| t == plain_program_events(k1, EWEN_BITS, k2)
}

pub open spec fn is_ewds_chunk(t: Seq<PinEvent>) -> bool {
    exists|k1: nat, k2: nat| t == plain_program_events(k1, EWDS_BITS, k2)
}

pub open spec fn is_eral_chunk(t: Seq<PinEvent>) -> bool {
    exists|k1: nat, k2: nat| t == plain_program_events(k1, ERAL_BITS, k2)
}

/// The events of one ERASE: start, the `11` opcode, six address bits,
/// busy-wait.
pub open spec fn erase_events(k1: nat, address: u16, k2: nat) -> Seq<PinEvent> {
    start_events(k1) + send_bit_events(true, true) + send_bit_events(true, true)
        + send_bits_events(address, 6) + wait_events(k2)
}

pub open spec fn is_erase_chunk(t: Seq<PinEvent>, address: u16) -> bool {
    exists|k1: nat, k2: nat| t == erase_events(k1, address, k2)
}

/// The events of one WRITE: start, the `01` opcode, six address bits,
/// sixteen data bits, busy-wait.
pub open spec fn write_events(k1: nat, address: u16, word: u16, k2: nat) -> Seq<PinEvent> {
    start_events(k1) + send_bit_events(false, true) + send_bit_events(true, true)
        + send_bits_events(address, 6) + send_bits_events(word, 16) + wait_events(k2)
}

pub open spec fn is_write_chunk(t: Seq<PinEvent>, address: u16, word: u16) -> bool {
    exists|k1: nat, k2: nat| t == write_events(k1, address, word, k2)
}

/// The events of one WRAL: start, opcode byte, sixteen data bits,
/// busy-wait.
pub open spec fn wral_events(k1: nat, word: u16, k2: nat) -> Seq<PinEvent> {
    start_events(k1) + send_bits_events(WRAL_BITS, 8) + send_bits_events(word, 16) + wait_events(
        k2,
    )
}

pub open spec fn is_wral_chunk(t: Seq<PinEvent>, word: u16) -> bool {
    exists|k1: nat, k2: nat| t == wral_events(k1, word, k2)
}

/// The events of one READ: start, the `10` opcode, six address bits, the
/// zero prefix, sixteen data bits, finish.
pub open spec fn read_events(k1: nat, address: u16, word: u16) -> Seq<PinEvent> {
    start_events(k1) + send_bit_events(true, true) + send_bit_events(false, true)
        + send_bits_events(address, 6) + force_receive_events(false) + receive_word_events(word)
        + finish_events()
}

pub open spec fn is_read_chunk(t: Seq<PinEvent>, address: u16, word: u16) -> bool {
    exists|k1: nat| t == read_events(k1, address, word)
}

/// `count` received high bits, one after another.
pub open spec fn ones_events(count: int) -> Seq<PinEvent>
    decreases count,
{
    if count <= 0 {
        Seq::empty()
    } else {
        ones_events(count - 1) + receive_bit_events(true)
    }
}

/// The receive part of the address-width probe: entering receive mode and
/// counting `len` leading ones before the terminating zero.  The chip
/// holds its output high until it has counted a full address worth of
/// clocks, so the count is the effective address width.
pub open spec fn probe_tail_events(len: int) -> Seq<PinEvent> {
    if len == 0 {
        force_receive_events(false)
    } else {
        force_receive_events(true) + ones_events(len - 1) + receive_bit_events(false)
    }
}

/// The events of the whole probe with the read transaction still open.
pub open spec fn probe_events(k1: nat, len: int) -> Seq<PinEvent> {
    start_events(k1) + send_bit_events(true, true) + send_bit_events(false, true)
        + probe_tail_events(len)
}

/// The events of a closed probe: probe, then finish.
pub open spec fn is_probe_chunk(t: Seq<PinEvent>, len: int) -> bool {
    exists|k1: nat| t == probe_events(k1, len) + finish_events()
}

/// The words of a read-all stream, received back to back.
pub open spec fn words_events(ws: Seq<u16>) -> Seq<PinEvent>
    decreases ws.len(),
{
    if ws.len() == 0 {
        Seq::empty()
    } else {
        words_events(ws.drop_last()) + receive_word_events(ws.last())
    }
}

/// The events of one whole read-all: the probe, every word back to back
/// in one open transaction, finish.
pub open spec fn is_read_all_chunk(t: Seq<PinEvent>, ws: Seq<u16>, len: int) -> bool {
    exists|k1: nat| t == probe_events(k1, len) + words_events(ws) + finish_events()
}

/// The appended part of a history that extends another.
pub open spec fn appended(h: Seq<PinEvent>, h0: Seq<PinEvent>) -> Seq<PinEvent> {
    h.skip(h0.len() as int)
}

/// An extension splits into the old history and the appended part.
pub proof fn lemma_appended(h: Seq<PinEvent>, h0: Seq<PinEvent>)
    requires
        extends(h, h0),
    ensures
        h == h0 + appended(h, h0),
{
    assert(h =~= h0 + h.skip(h0.len() as int));
}

/// Extension is transitive.
pub proof fn lemma_extends_trans(h2: Seq<PinEvent>, h1: Seq<PinEvent>, h0: Seq<PinEvent>)
    requires
        extends(h2, h1),
        extends(h1, h0),
    ensures
        extends(h2, h0),
{
    assert(h0 =~= h2.subrange(0, h0.len() as int));
}

/// A history followed by more events extends the original.
pub proof fn lemma_extends_app(h0: Seq<PinEvent>, t: Seq<PinEvent>)
    ensures
        extends(h0 + t, h0),
{
    assert(h0 =~= (h0 + t).subrange(0, h0.len() as int));
}

/// Complete a pending busy-wait and swallow its outcome, as the close of
/// an abandoned program instruction.
fn abort_program<H: Hardware>(hw: &mut H)
    ensures
        extends(final(hw).history(), old(hw).history()),
{
    let ghost h0 = hw.history();
    match wait_for_completion(hw) {
        Ok(()) => {
            proof {
                let k = choose|k: nat| hw.history() == h0 + wait_events(k);
                lemma_extends_app(h0, wait_events(k));
            }
        },
        Err(_) => (),
    }
}

/// Issue one complete no-data program instruction: start, eight bits,
/// busy-wait.
fn plain_program<H: Hardware>(hw: &mut H, bits: u16) -> (r: Result<(), SerialError>)
    ensures
        r is Ok ==> extends(final(hw).history(), old(hw).history()) && (exists|k1: nat, k2: nat|
            appended(final(hw).history(), old(hw).history()) == plain_program_events(
                k1,
                bits,
                k2,
            )),
        r is Err ==> extends(final(hw).history(), old(hw).history()),
{
    let ghost h0 = hw.history();
    match start_instruction(hw) {
        Ok(()) => (),
        Err(e) => {
            return Err(e);
        },
    }
    let ghost k1 = choose|k: nat| hw.history() == h0 + start_events(k);
    let ghost h1 = hw.history();
    match send_bits(hw, bits, 8) {
        Ok(()) => (),
        Err(e) => {
            proof {
                lemma_extends_app(h0, start_events(k1));
                lemma_extends_trans(hw.history(), h1, h0);
            }
            let ghost h2 = hw.history();
            abort_program(hw);
            proof {
                lemma_extends_trans(hw.history(), h2, h0);
            }
            return Err(e);
        },
    }
    let ghost h2 = hw.history();
    match wait_for_completion(hw) {
        Ok(()) => (),
        Err(e) => {
            proof {
                assert(h2 =~= h0 + (start_events(k1) + send_bits_events(bits, 8)));
                lemma_extends_app(h0, start_events(k1) + send_bits_events(bits, 8));
                lemma_extends_trans(hw.history(), h2, h0);
            }
            return Err(e);
        },
    }
    proof {
        let k2 = choose|k: nat| hw.history() == h2 + wait_events(k);
        assert(hw.history() =~= h0 + plain_program_events(k1, bits, k2));
        lemma_extends_app(h0, plain_program_events(k1, bits, k2));
        assert(appended(hw.history(), h0) =~= plain_program_events(k1, bits, k2));
    }
    Ok(())
}

/// The tail of a program instruction after the start bit: two opcode
/// bits, `num` bits of `word`, an optional sixteen-bit data phase,
/// busy-wait.
pub open spec fn op_tail_events(
    b1: bool,
    b2: bool,
    word: u16,
    num: int,
    data: Option<u16>,
    kb: nat,
) -> Seq<PinEvent> {
    let dat = match data {
        Some(d) => send_bits_events(d, 16),
        None => Seq::empty(),
    };
    send_bit_events(b1, true) + send_bit_events(b2, true) + send_bits_events(word, num) + dat
        + wait_events(kb)
}

/// Send two opcode bits, an address/selector field, an optional data
/// word, then busy-wait; the shared tail of ERASE and WRITE.
fn op_bits_then_wait<H: Hardware>(
    hw: &mut H,
    b1: bool,
    b2: bool,
    word: u16,
    num: usize,
    data: Option<u16>,
) -> (r: Result<(), SerialError>)
    requires
        num <= 16,
    ensures
        r is Ok ==> extends(final(hw).history(), old(hw).history()) && (exists|kb: nat|
            final(hw).history() == old(hw).history() + op_tail_events(
                b1,
                b2,
                word,
                num as int,
                data,
                kb,
            )),
        r is Err ==> extends(final(hw).history(), old(hw).history()),
{
    let ghost h0 = hw.history();
    match send_bit(hw, b1) {
        Ok(()) => (),
        Err(e) => {
            proof {
                lemma_extends_app(h0, send_bit_events(b1, false));
            }
            let ghost hp = hw.history();
            abort_program(hw);
            proof {
                lemma_extends_trans(hw.history(), hp, h0);
            }
            return Err(e);
        },
    }
    match send_bit(hw, b2) {
        Ok(()) => (),
        Err(e) => {
            proof {
                assert(hw.history() =~= h0 + (send_bit_events(b1, true) + send_bit_events(
                    b2,
                    false,
                )));
                lemma_extends_app(h0, send_bit_events(b1, true) + send_bit_events(b2, false));
            }
            let ghost hp = hw.history();
            abort_program(hw);
            proof {
                lemma_extends_trans(hw.history(), hp, h0);
            }
            return Err(e);
        },
    }
    let ghost h1 = hw.history();
    match send_bits(hw, word, num) {
        Ok(()) => (),
        Err(e) => {
            proof {
                assert(h1 =~= h0 + (send_bit_events(b1, true) + send_bit_events(b2, true)));
                lemma_extends_app(h0, send_bit_events(b1, true) + send_bit_events(b2, true));
                lemma_extends_trans(hw.history(), h1, h0);
            }
            let ghost hp = hw.history();
            abort_program(hw);
            proof {
                lemma_extends_trans(hw.history(), hp, h0);
            }
            return Err(e);
        },
    }
    let ghost h2 = hw.history();
    proof {
        assert(h2 =~= h0 + (send_bit_events(b1, true) + send_bit_events(b2, true)
            + send_bits_events(word, num as int)));
        lemma_extends_app(
            h0,
            send_bit_events(b1, true) + send_bit_events(b2, true) + send_bits_events(
                word,
                num as int,
            ),
        );
    }
    match data {
        None => (),
        Some(d) => {
            match send_bits(hw, d, 16) {
                Ok(()) => (),
                Err(e) => {
                    proof {
                        lemma_extends_trans(hw.history(), h2, h0);
                    }
                    let ghost hp = hw.history();
                    abort_program(hw);
                    proof {
                        lemma_extends_trans(hw.history(), hp, h0);
                    }
                    return Err(e);
                },
            }
        },
    }
    let ghost h3 = hw.history();
    let ghost sent = send_bit_events(b1, true) + send_bit_events(b2, true) + send_bits_events(
        word,
        num as int,
    ) + (match data {
        Some(d) => send_bits_events(d, 16),
        None => Seq::<PinEvent>::empty(),
    });
    proof {
        assert(h3 =~= h0 + sent);
        lemma_extends_app(h0, sent);
    }
    match wait_for_completion(hw) {
        Ok(()) => (),
        Err(e) => {
            proof {
                lemma_extends_trans(hw.history(), h3, h0);
            }
            return Err(e);
        },
    }
    proof {
        let kb = choose|k: nat| hw.history() == h3 + wait_events(k);
        assert(hw.history() =~= h0 + op_tail_events(b1, b2, word, num as int, data, kb));
        lemma_extends_app(h0, op_tail_events(b1, b2, word, num as int, data, kb));
    }
    Ok(())
}

/// ERASE one address: set its bits high.  Takes effect only inside a
/// programming scope.
pub fn erase<H: Hardware>(hw: &mut H, address: u16) -> (r: Result<(), SerialError>)
    requires
        address < ADDRESS_LIMIT,
    ensures
        r is Ok ==> extends(final(hw).history(), old(hw).history()) && is_erase_chunk(
            appended(final(hw).history(), old(hw).history()),
            address,
        ),
        r is Err ==> extends(final(hw).history(), old(hw).history()),
{
    let ghost h0 = hw.history();
    match start_instruction(hw) {
        Ok(()) => (),
        Err(e) => {
            return Err(e);
        },
    }
    let ghost k1 = choose|k: nat| hw.history() == h0 + start_events(k);
    let ghost h1 = hw.history();
    let r = op_bits_then_wait(hw, true, true, address, 6, None);
    proof {
        lemma_extends_app(h0, start_events(k1));
        if r is Ok {
            let kb = choose|kb: nat|
                hw.history() == h1 + op_tail_events(true, true, address, 6, None, kb);
            assert(hw.history() =~= h0 + erase_events(k1, address, kb));
            lemma_extends_app(h0, erase_events(k1, address, kb));
            assert(appended(hw.history(), h0) =~= erase_events(k1, address, kb));
        } else {
            lemma_extends_trans(hw.history(), h1, h0);
        }
    }
    r
}

/// ERAL: erase every address.  Takes effect only inside a programming
/// scope.
pub fn erase_all<H: Hardware>(hw: &mut H) -> (r: Result<(), SerialError>)
    ensures
        r is Ok ==> extends(final(hw).history(), old(hw).history()) && is_eral_chunk(
            appended(final(hw).history(), old(hw).history()),
        ),
        r is Err ==> extends(final(hw).history(), old(hw).history()),
{
    plain_program(hw, ERAL_BITS)
}

/// EWDS: leave the erase/write-enabled state.
pub fn erase_write_disable<H: Hardware>(hw: &mut H) -> (r: Result<(), SerialError>)
    ensures
        r is Ok ==> extends(final(hw).history(), old(hw).history()) && is_ewds_chunk(
            appended(final(hw).history(), old(hw).history()),
        ),
        r is Err ==> extends(final(hw).history(), old(hw).history()),
{
    plain_program(hw, EWDS_BITS)
}

/// EWEN: enter the erase/write-enabled state.
pub fn erase_write_enable<H: Hardware>(hw: &mut H) -> (r: Result<(), SerialError>)
    ensures
        r is Ok ==> extends(final(hw).history(), old(hw).history()) && is_ewen_chunk(
            appended(final(hw).history(), old(hw).history()),
        ),
        r is Err ==> extends(final(hw).history(), old(hw).history()),
{
    plain_program(hw, EWEN_BITS)
}

/// WRITE one word at one address.  Takes effect only inside a programming
/// scope.
pub fn write<H: Hardware>(hw: &mut H, address: u16, word: u16) -> (r: Result<(), SerialError>)
    requires
        address < ADDRESS_LIMIT,
    ensures
        r is Ok ==> extends(final(hw).history(), old(hw).history()) && is_write_chunk(
            appended(final(hw).history(), old(hw).history()),
            address,
            word,
        ),
        r is Err ==> extends(final(hw).history(), old(hw).history()),
{
    let ghost h0 = hw.history();
    match start_instruction(hw) {
        Ok(()) => (),
        Err(e) => {
            return Err(e);
        },
    }
    let ghost k1 = choose|k: nat| hw.history() == h0 + start_events(k);
    let ghost h1 = hw.history();
    let r = op_bits_then_wait(hw, false, true, address, 6, Some(word));
    proof {
        lemma_extends_app(h0, start_events(k1));
        if r is Ok {
            let kb = choose|kb: nat|
                hw.history() == h1 + op_tail_events(false, true, address, 6, Some(word), kb);
            assert(hw.history() =~= h0 + write_events(k1, address, word, kb));
            lemma_extends_app(h0, write_events(k1, address, word, kb));
            assert(appended(hw.history(), h0) =~= write_events(k1, address, word, kb));
        } else {
            lemma_extends_trans(hw.history(), h1, h0);
        }
    }
    r
}

/// WRAL: write one word into every address.  Takes effect only inside a
/// programming scope.
pub fn write_all<H: Hardware>(hw: &mut H, word: u16) -> (r: Result<(), SerialError>)
    ensures
        r is Ok ==> extends(final(hw).history(), old(hw).history()) && is_wral_chunk(
            appended(final(hw).history(), old(hw).history()),
            word,
        ),
        r is Err ==> extends(final(hw).history(), old(hw).history()),
{
    let ghost h0 = hw.history();
    match start_instruction(hw) {
        Ok(()) => (),
        Err(e) => {
            return Err(e);
        },
    }
    let ghost k1 = choose|k: nat| hw.history() == h0 + start_events(k);
    let ghost h1 = hw.history();
    match send_bits(hw, WRAL_BITS, 8) {
        Ok(()) => (),
        Err(e) => {
            proof {
                lemma_extends_app(h0, start_events(k1));
                lemma_extends_trans(hw.history(), h1, h0);
            }
            let ghost hp = hw.history();
            abort_program(hw);
            proof {
                lemma_extends_trans(hw.history(), hp, h0);
            }
            return Err(e);
        },
    }
    let ghost h2 = hw.history();
    match send_bits(hw, word, 16) {
        Ok(()) => (),
        Err(e) => {
            proof {
                assert(h2 =~= h0 + (start_events(k1) + send_bits_events(WRAL_BITS, 8)));
                lemma_extends_app(h0, start_events(k1) + send_bits_events(WRAL_BITS, 8));
                lemma_extends_trans(hw.history(), h2, h0);
            }
            let ghost hp = hw.history();
            abort_program(hw);
            proof {
                lemma_extends_trans(hw.history(), hp, h0);
            }
            return Err(e);
        },
    }
    let ghost h3 = hw.history();
    match wait_for_completion(hw) {
        Ok(()) => (),
        Err(e) => {
            proof {
                assert(h3 =~= h0 + (start_events(k1) + send_bits_events(WRAL_BITS, 8)
                    + send_bits_events(word, 16)));
                lemma_extends_app(
                    h0,
                    start_events(k1) + send_bits_events(WRAL_BITS, 8) + send_bits_events(
                        word,
                        16,
                    ),
                );
                lemma_extends_trans(hw.history(), h3, h0);
            }
            return Err(e);
        },
    }
    proof {
        let k2 = choose|k: nat| hw.history() == h3 + wait_events(k);
        assert(hw.history() =~= h0 + wral_events(k1, word, k2));
        lemma_extends_app(h0, wral_events(k1, word, k2));
        assert(appended(hw.history(), h0) =~= wral_events(k1, word, k2));
    }
    Ok(())
}

/// Send the `10` READ opcode and the six address bits.
fn read_command_bits<H: Hardware>(hw: &mut H, address: u16) -> (r: Result<(), SerialError>)
    ensures
        r is Ok ==> final(hw).history() == old(hw).history() + (send_bit_events(true, true)
            + send_bit_events(false, true) + send_bits_events(address, 6)),
        r is Err ==> extends(final(hw).history(), old(hw).history()),
{
    let ghost h0 = hw.history();
    match send_bit(hw, true) {
        Ok(()) => (),
        Err(e) => {
            finish_instruction(hw);
            proof {
                assert(hw.history() =~= h0 + (send_bit_events(true, false) + finish_events()));
                lemma_extends_app(h0, send_bit_events(true, false) + finish_events());
            }
            return Err(e);
        },
    }
    match send_bit(hw, false) {
        Ok(()) => (),
        Err(e) => {
            finish_instruction(hw);
            proof {
                assert(hw.history() =~= h0 + (send_bit_events(true, true) + send_bit_events(
                    false,
                    false,
                ) + finish_events()));
                lemma_extends_app(
                    h0,
                    send_bit_events(true, true) + send_bit_events(false, false) + finish_events(),
                );
            }
            return Err(e);
        },
    }
    let ghost h1 = hw.history();
    match send_bits(hw, address, 6) {
        Ok(()) => (),
        Err(e) => {
            proof {
                assert(h1 =~= h0 + (send_bit_events(true, true) + send_bit_events(false, true)));
                lemma_extends_app(h0, send_bit_events(true, true) + send_bit_events(false, true));
                lemma_extends_trans(hw.history(), h1, h0);
            }
            let ghost h2 = hw.history();
            finish_instruction(hw);
            proof {
                lemma_extends_app(h2, finish_events());
                lemma_extends_trans(hw.history(), h2, h0);
            }
            return Err(e);
        },
    }
    proof {
        assert(hw.history() =~= h0 + (send_bit_events(true, true) + send_bit_events(false, true)
            + send_bits_events(address, 6)));
    }
    Ok(())
}

/// READ one word at one address.
pub fn read<H: Hardware>(hw: &mut H, address: u16) -> (r: Result<u16, SerialError>)
    requires
        address < ADDRESS_LIMIT,
    ensures
        r is Ok ==> extends(final(hw).history(), old(hw).history()) && is_read_chunk(
            appended(final(hw).history(), old(hw).history()),
            address,
            r->Ok_0,
        ),
        r is Err ==> extends(final(hw).history(), old(hw).history()),
{
    let ghost h0 = hw.history();
    match start_instruction(hw) {
        Ok(()) => (),
        Err(e) => {
            return Err(e);
        },
    }
    let ghost k1 = choose|k: nat| hw.history() == h0 + start_events(k);
    let ghost h1 = hw.history();
    match read_command_bits(hw, address) {
        Ok(()) => (),
        Err(e) => {
            proof {
                lemma_extends_app(h0, start_events(k1));
                lemma_extends_trans(hw.history(), h1, h0);
            }
            return Err(e);
        },
    }
    let ghost cmd = send_bit_events(true, true) + send_bit_events(false, true) + send_bits_events(
        address,
        6,
    );
    let first = force_receive(hw);
    if first {
        // the data phase must be announced by a zero bit
        finish_instruction(hw);
        proof {
            assert(hw.history() =~= h0 + (start_events(k1) + cmd + force_receive_events(true)
                + finish_events()));
            lemma_extends_app(
                h0,
                start_events(k1) + cmd + force_receive_events(true) + finish_events(),
            );
        }
        return Err(SerialError::MissingZeroPrefix);
    }
    let word = receive_word(hw);
    finish_instruction(hw);
    proof {
        assert(hw.history() =~= h0 + read_events(k1, address, word));
        lemma_extends_app(h0, read_events(k1, address, word));
        assert(appended(hw.history(), h0) =~= read_events(k1, address, word));
    }
    Ok(word)
}

/// Open a read transaction with an empty address and count the leading
/// ones the chip emits while it shifts the address in; the count is the
/// effective address width in bits.  The transaction is left open so a
/// read-all can continue in it.  On success the history has grown by
/// `probe_events(k, len)` for some busy-wait length `k`.
fn probe_width<H: Hardware>(hw: &mut H) -> (r: Result<usize, SerialError>)
    ensures
        r is Ok ==> r->Ok_0 <= 16 && (exists|k1: nat|
            final(hw).history() == old(hw).history() + probe_events(k1, r->Ok_0 as int)),
        r is Err ==> extends(final(hw).history(), old(hw).history()),
{
    let ghost h0 = hw.history();
    match start_instruction(hw) {
        Ok(()) => (),
        Err(e) => {
            return Err(e);
        },
    }
    let ghost k1 = choose|k: nat| hw.history() == h0 + start_events(k);
    let ghost h1 = hw.history();
    match send_bit(hw, true) {
        Ok(()) => (),
        Err(e) => {
            finish_instruction(hw);
            proof {
                lemma_extends_app(h0, start_events(k1));
                assert(hw.history() =~= h1 + (send_bit_events(true, false) + finish_events()));
                lemma_extends_app(h1, send_bit_events(true, false) + finish_events());
                lemma_extends_trans(hw.history(), h1, h0);
            }
            return Err(e);
        },
    }
    match send_bit(hw, false) {
        Ok(()) => (),
        Err(e) => {
            finish_instruction(hw);
            proof {
                lemma_extends_app(h0, start_events(k1));
                assert(hw.history() =~= h1 + (send_bit_events(true, true) + send_bit_events(
                    false,
                    false,
                ) + finish_events()));
                lemma_extends_app(
                    h1,
                    send_bit_events(true, true) + send_bit_events(false, false) + finish_events(),
                );
                lemma_extends_trans(hw.history(), h1, h0);
            }
            return Err(e);
        },
    }
    let first = force_receive(hw);
    if !first {
        proof {
            assert(hw.history() =~= h0 + probe_events(k1, 0));
        }
        return Ok(0);
    }
    let ghost hbase = hw.history();
    proof {
        assert(hbase =~= h0 + (start_events(k1) + send_bit_events(true, true) + send_bit_events(
            false,
            true,
        ) + force_receive_events(true)));
    }
    let mut len: usize = 1;
    loop
        invariant_except_break
            hw.history() == hbase + ones_events(len - 1),
        invariant
            1 <= len <= 16,
            h0 == old(hw).history(),
            hbase == h0 + (start_events(k1) + send_bit_events(true, true) + send_bit_events(
                false,
                true,
            ) + force_receive_events(true)),
        ensures
            1 <= len <= 16,
            hw.history() == hbase + ones_events(len as int - 1) + receive_bit_events(false),
        decreases 16 - len,
    {
        let b = receive_bit(hw);
        if !b {
            break;
        }
        len = len + 1;
        if len > 16 {
            // cap the count so a hung input cannot spin forever
            let ghost hp = hw.history();
            finish_instruction(hw);
            proof {
                lemma_extends_app(hbase, ones_events(len - 2) + receive_bit_events(true));
                assert(hp =~= hbase + (ones_events(len - 2) + receive_bit_events(true)));
                lemma_extends_app(hp, finish_events());
                lemma_extends_app(
                    h0,
                    start_events(k1) + send_bit_events(true, true) + send_bit_events(false, true)
                        + force_receive_events(true),
                );
                lemma_extends_trans(hp, hbase, h0);
                lemma_extends_trans(hw.history(), hp, h0);
            }
            return Err(SerialError::AddressWidthOverflow);
        }
        proof {
            assert(hw.history() =~= hbase + ones_events(len - 1));
        }
    }
    proof {
        assert(hw.history() =~= h0 + probe_events(k1, len as int));
    }
    Ok(len)
}

/// Probe the effective address width by counting leading ones, then close
/// the transaction.
pub fn detect_address_width<H: Hardware>(hw: &mut H) -> (r: Result<usize, SerialError>)
    ensures
        r is Ok ==> r->Ok_0 <= 16 && extends(final(hw).history(), old(hw).history())
            && is_probe_chunk(
            appended(final(hw).history(), old(hw).history()),
            r->Ok_0 as int,
        ),
        r is Err ==> extends(final(hw).history(), old(hw).history()),
{
    let ghost h0 = hw.history();
    let len = match probe_width(hw) {
        Ok(len) => len,
        Err(e) => {
            return Err(e);
        },
    };
    let ghost k1 = choose|k: nat| hw.history() == h0 + probe_events(k, len as int);
    finish_instruction(hw);
    proof {
        assert(hw.history() =~= h0 + (probe_events(k1, len as int) + finish_events()));
        lemma_extends_app(h0, probe_events(k1, len as int) + finish_events());
        assert(appended(hw.history(), h0) =~= probe_events(k1, len as int) + finish_events());
    }
    Ok(len)
}

/// The words read back by one read-all, in address order.
pub struct Reader {
    pub words: Vec<u16>,
    pub pos: usize,
    /// The address width the probe counted: the stream holds one word per
    /// address, `1 << len_bits` in all.
    pub len_bits: Ghost<usize>,
}

impl Reader {
    /// The next word of the stream, if any.
    pub fn next(&mut self) -> (r: Option<u16>)
        ensures
            final(self).words == old(self).words,
            old(self).pos < old(self).words@.len() ==> r == Some(
                old(self).words@[old(self).pos as int],
            ) && final(self).pos == old(self).pos + 1,
            old(self).pos >= old(self).words@.len() ==> r is None && final(self).pos == old(
                self,
            ).pos,
    {
        if self.pos < self.words.len() {
            let w = self.words[self.pos];
            self.pos = self.pos + 1;
            Some(w)
        } else {
            None
        }
    }
}

/// Probe the address width, then read the whole device in the same open
/// transaction: the chip auto-increments its address register only while
/// chip select is held, so the words come back in address order.
pub fn read_all<H: Hardware>(hw: &mut H) -> (r: Result<Reader, SerialError>)
    ensures
        r is Ok ==> extends(final(hw).history(), old(hw).history()) && r->Ok_0.pos == 0
            && r->Ok_0.len_bits@ <= 16 && r->Ok_0.words@.len() == (1usize << r->Ok_0.len_bits@)
            && is_read_all_chunk(
            appended(final(hw).history(), old(hw).history()),
            r->Ok_0.words@,
            r->Ok_0.len_bits@ as int,
        ),
        r is Err ==> extends(final(hw).history(), old(hw).history()),
{
    let ghost h0 = hw.history();
    let len = match probe_width(hw) {
        Ok(len) => len,
        Err(e) => {
            return Err(e);
        },
    };
    let ghost k1 = choose|k: nat| hw.history() == h0 + probe_events(k, len as int);
    let ghost h1 = hw.history();
    let count: usize = 1usize << len;
    let mut words: Vec<u16> = Vec::new();
    let mut i: usize = 0;
    while i < count
        invariant
            i <= count,
            words@.len() == i,
            hw.history() == h1 + words_events(words@),
        decreases count - i,
    {
        let w = receive_word(hw);
        let ghost pre = words@;
        words.push(w);
        proof {
            assert(words@.drop_last() =~= pre);
            assert(hw.history() =~= h1 + words_events(words@));
        }
        i = i + 1;
    }
    finish_instruction(hw);
    proof {
        assert(hw.history() =~= h0 + (probe_events(k1, len as int) + words_events(words@)
            + finish_events()));
        lemma_extends_app(h0, probe_events(k1, len as int) + words_events(words@)
            + finish_events());
        assert(appended(hw.history(), h0) =~= probe_events(k1, len as int) + words_events(words@)
            + finish_events());
        assert(is_read_all_chunk(appended(hw.history(), h0), words@, len as int));
        assert(words@.len() == (1usize << len));
    }
    Ok(Reader { words, pos: 0, len_bits: Ghost(len) })
}

/// The token of one programming scope: EWEN has been issued, and the
/// holder owes the matching EWDS unless the scope is nested inside
/// another, in which case the outer scope's envelope is shared.
pub struct ProgrammingEnabled {
    pub owes_disable: bool,
}

/// Enter a programming scope: issue EWEN and hand back the token that
/// owes the matching EWDS.
pub fn start_programming<H: Hardware>(hw: &mut H) -> (r: Result<ProgrammingEnabled, SerialError>)
    ensures
        r is Ok ==> r->Ok_0.owes_disable && extends(final(hw).history(), old(hw).history())
            && is_ewen_chunk(appended(final(hw).history(), old(hw).history())),
        r is Err ==> extends(final(hw).history(), old(hw).history()),
{
    match erase_write_enable(hw) {
        Ok(()) => Ok(ProgrammingEnabled { owes_disable: true }),
        Err(e) => Err(e),
    }
}

/// Enter a nested programming scope: the outer scope's EWEN envelope is
/// shared, so the nested token owes no EWDS.
pub fn nested_programming(outer: &ProgrammingEnabled) -> (r: ProgrammingEnabled)
    ensures
        !r.owes_disable,
{
    let _ = outer;
    ProgrammingEnabled { owes_disable: false }
}

/// Leave a programming scope: issue EWDS exactly when this token owes it.
pub fn finish_programming<H: Hardware>(hw: &mut H, scope: ProgrammingEnabled) -> (r: Result<
    (),
    SerialError,
>)
    ensures
        r is Ok && scope.owes_disable ==> extends(final(hw).history(), old(hw).history())
            && is_ewds_chunk(appended(final(hw).history(), old(hw).history())),
        r is Ok && !scope.owes_disable ==> *final(hw) == *old(hw),
        r is Err ==> extends(final(hw).history(), old(hw).history()),
{
    if scope.owes_disable {
        erase_write_disable(hw)
    } else {
        Ok(())
    }
}

} // verus!
