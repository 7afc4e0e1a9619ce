//! Microwire signal timing over the pin-level hardware: every signal is
//! set up while the clock is low and presented to the chip on the rising
//! clock edge, with a half-edge pause around each transition.
//!
//! Each function's contract states the exact pin-event sequence it appends
//! to the hardware history, so the instruction layer can describe whole
//! commands as concatenations of these sequences.

use vstd::prelude::*;

use crate::serial::hardware::{extends, Hardware, OutPins, PinEvent};

verus! {

/// Errors of the Microwire protocol layer.
#[derive(Clone, Copy, PartialEq, Eq, Structural, Debug)]
pub enum SerialError {
    /// The input pin read low while a command bit was being sent; the pin
    /// is pulled high whenever the chip does not drive it, so a low level
    /// here means contention.
    UnexpectedLowInput,
    /// The chip still reported busy after the whole poll budget.
    Timeout,
    /// More leading ones than any supported address width during the
    /// address-width probe.
    AddressWidthOverflow,
    /// The chip did not announce the data phase of a READ with the
    /// mandatory zero bit.
    MissingZeroPrefix,
}

/// How many ready polls a busy-wait may spend before giving up.
pub const BUSY_POLL_LIMIT: u32 = 0x10000;

/// The three signal levels of the bus: chip deselected, or selected with a
/// zero or one data bit.
#[derive(Clone, Copy, PartialEq, Eq, Structural, Debug)]
pub enum Signal {
    Clear,
    Zero,
    One,
}

impl Signal {
    pub open spec fn spec_with_clock(self, clock: bool) -> OutPins {
        match self {
            Signal::Clear => OutPins { chip_select: false, clock, data: false },
            Signal::Zero => OutPins { chip_select: true, clock, data: false },
            Signal::One => OutPins { chip_select: true, clock, data: true },
        }
    }

    /// The pin state for this signal level at the given clock phase.
    pub fn with_clock(self, clock: bool) -> (r: OutPins)
        ensures
            r == self.spec_with_clock(clock),
    {
        let (chip_select, data) = match self {
            Signal::Clear => (false, false),
            Signal::Zero => (true, false),
            Signal::One => (true, true),
        };
        OutPins { chip_select, clock, data }
    }

    /// The signal that carries one data bit.
    pub open spec fn spec_of_bit(b: bool) -> Signal {
        if b {
            Signal::One
        } else {
            Signal::Zero
        }
    }

    pub fn of_bit(b: bool) -> (r: Signal)
        ensures
            r == Signal::spec_of_bit(b),
    {
        if b {
            Signal::One
        } else {
            Signal::Zero
        }
    }
}

/// Events of `signal(s)`: present `s` with the clock low, pause, raise the
/// clock, pause.
pub open spec fn signal_events(s: Signal) -> Seq<PinEvent> {
    seq![
        PinEvent::Drive(s.spec_with_clock(false)),
        PinEvent::Pause,
        PinEvent::Drive(s.spec_with_clock(true)),
        PinEvent::Pause,
    ]
}

/// Events of sending one bit while sampling the previous cycle's output:
/// the input is sampled just before the rising clock edge.
pub open spec fn send_bit_events(b: bool, prev: bool) -> Seq<PinEvent> {
    seq![
        PinEvent::Drive(Signal::spec_of_bit(b).spec_with_clock(false)),
        PinEvent::Pause,
        PinEvent::Sample(prev),
        PinEvent::Drive(Signal::spec_of_bit(b).spec_with_clock(true)),
        PinEvent::Pause,
    ]
}

/// Events of moving into receive mode: drop the clock while holding the
/// zero signal, pause, and sample.
pub open spec fn force_receive_events(r: bool) -> Seq<PinEvent> {
    seq![
        PinEvent::Drive(Signal::Zero.spec_with_clock(false)),
        PinEvent::Pause,
        PinEvent::Sample(r),
    ]
}

/// Events of receiving one bit: a full clock cycle with the zero signal,
/// sampled after the falling edge.
pub open spec fn receive_bit_events(r: bool) -> Seq<PinEvent> {
    seq![
        PinEvent::Drive(Signal::Zero.spec_with_clock(true)),
        PinEvent::Pause,
        PinEvent::Drive(Signal::Zero.spec_with_clock(false)),
        PinEvent::Pause,
        PinEvent::Sample(r),
    ]
}

/// Events of finishing an instruction: all pins off, one pause.
pub open spec fn finish_events() -> Seq<PinEvent> {
    seq![PinEvent::Drive(Signal::Clear.spec_with_clock(false)), PinEvent::Pause]
}

/// Bit `i` of a 16-bit word.
pub open spec fn bit16(w: u16, i: u16) -> bool {
    w >> i & 1 == 1
}

/// Events of `k` failed ready polls followed by the successful one: each
/// failed poll is a low sample and another zero cycle.
pub open spec fn busy_poll_events(k: nat) -> Seq<PinEvent>
    decreases k,
{
    if k == 0 {
        seq![PinEvent::Sample(true)]
    } else {
        seq![PinEvent::Sample(false)] + signal_events(Signal::Zero) + busy_poll_events(
            (k - 1) as nat,
        )
    }
}

/// Events of one completed busy-wait with `k` failed polls: a clear cycle,
/// a zero cycle, the polls, then the finishing clear.
pub open spec fn wait_events(k: nat) -> Seq<PinEvent> {
    signal_events(Signal::Clear) + signal_events(Signal::Zero) + busy_poll_events(k)
        + finish_events()
}

/// Events of starting an instruction: a completed busy-wait, then the `1`
/// start bit.
pub open spec fn start_events(k: nat) -> Seq<PinEvent> {
    wait_events(k) + signal_events(Signal::One)
}

/// Events of sending bits `hi - 1` down to `lo` of `w`, highest first,
/// each echoing a high previous bit.
pub open spec fn send_bits_range_events(w: u16, hi: int, lo: int) -> Seq<PinEvent>
    decreases hi - lo,
{
    if hi <= lo {
        Seq::empty()
    } else {
        send_bit_events(bit16(w, (hi - 1) as u16), true) + send_bits_range_events(w, hi - 1, lo)
    }
}

/// Events of sending the lowest `num` bits of `w`, highest first.
pub open spec fn send_bits_events(w: u16, num: int) -> Seq<PinEvent> {
    send_bits_range_events(w, num, 0)
}

/// Events of receiving the highest `i` bits of `w`, highest first.
pub open spec fn receive_prefix_events(w: u16, i: int) -> Seq<PinEvent>
    decreases i,
{
    if i <= 0 {
        Seq::empty()
    } else {
        receive_prefix_events(w, i - 1) + receive_bit_events(bit16(w, (16 - i) as u16))
    }
}

/// Events of receiving the 16 bits of `w`, highest first.
pub open spec fn receive_word_events(w: u16) -> Seq<PinEvent> {
    receive_prefix_events(w, 16)
}

/// A history followed by more events extends the original history.
pub proof fn lemma_extends_concat(h0: Seq<PinEvent>, t: Seq<PinEvent>)
    ensures
        extends(h0 + t, h0),
{
    assert(h0 =~= (h0 + t).subrange(0, h0.len() as int));
}

/// Peeling the lowest bit off a send range.
proof fn lemma_send_bits_range_split_low(w: u16, hi: int, lo: int)
    requires
        lo < hi,
    ensures
        send_bits_range_events(w, hi, lo) == send_bits_range_events(w, hi, lo + 1)
            + send_bit_events(bit16(w, lo as u16), true),
    decreases hi - lo,
{
    if hi == lo + 1 {
        assert(send_bits_range_events(w, hi - 1, lo) =~= Seq::<PinEvent>::empty());
        assert(send_bits_range_events(w, hi, lo + 1) =~= Seq::<PinEvent>::empty());
        assert(send_bits_range_events(w, hi, lo) =~= send_bits_range_events(w, hi, lo + 1)
            + send_bit_events(bit16(w, lo as u16), true));
    } else {
        lemma_send_bits_range_split_low(w, hi - 1, lo);
        assert(send_bits_range_events(w, hi, lo) =~= send_bits_range_events(w, hi, lo + 1)
            + send_bit_events(bit16(w, lo as u16), true));
    }
}

/// Words agreeing on their received prefix have the same receive events.
proof fn lemma_receive_prefix_agree(w1: u16, w2: u16, i: int)
    requires
        0 <= i <= 16,
        forall|j: u16| 16 - i <= j < 16 ==> bit16(w1, j) == bit16(w2, j),
    ensures
        receive_prefix_events(w1, i) == receive_prefix_events(w2, i),
    decreases i,
{
    if i > 0 {
        lemma_receive_prefix_agree(w1, w2, i - 1);
    }
}

/// Present one signal level for one full clock cycle.
pub fn signal<H: Hardware>(hw: &mut H, s: Signal)
    ensures
        final(hw).history() == old(hw).history() + signal_events(s),
{
    let no_clk = s.with_clock(false);
    let clk = s.with_clock(true);
    hw.set_pins(no_clk);
    hw.delay();
    hw.set_pins(clk);
    hw.delay();
    proof {
        assert(hw.history() =~= old(hw).history() + signal_events(s));
    }
}

/// Place one bit on the bus and sample the input of the previous cycle
/// just before the rising clock edge.
pub fn send_bit_and_read_previous<H: Hardware>(hw: &mut H, data: bool) -> (r: bool)
    ensures
        final(hw).history() == old(hw).history() + send_bit_events(data, r),
{
    let s = Signal::of_bit(data);
    let no_clk = s.with_clock(false);
    let clk = s.with_clock(true);
    hw.set_pins(no_clk);
    hw.delay();
    let r = hw.read_pin();
    hw.set_pins(clk);
    hw.delay();
    proof {
        assert(hw.history() =~= old(hw).history() + send_bit_events(data, r));
    }
    r
}

/// Send one command bit; the previous cycle's input must still read high,
/// anything else is contention.
pub fn send_bit<H: Hardware>(hw: &mut H, data: bool) -> (r: Result<(), SerialError>)
    ensures
        r is Ok ==> final(hw).history() == old(hw).history() + send_bit_events(data, true),
        r is Err ==> r->Err_0 == SerialError::UnexpectedLowInput && final(hw).history() == old(
            hw,
        ).history() + send_bit_events(data, false),
{
    if send_bit_and_read_previous(hw, data) {
        Ok(())
    } else {
        Err(SerialError::UnexpectedLowInput)
    }
}

/// Send the lowest `num` bits of `word`, highest bit first.
pub fn send_bits<H: Hardware>(hw: &mut H, word: u16, num: usize) -> (r: Result<(), SerialError>)
    requires
        num <= 16,
    ensures
        r is Ok ==> final(hw).history() == old(hw).history() + send_bits_events(word, num as int),
        r is Err ==> extends(final(hw).history(), old(hw).history()),
{
    let ghost h0 = hw.history();
    let mut bit: usize = num;
    while bit > 0
        invariant
            bit <= num <= 16,
            h0 == old(hw).history(),
            hw.history() == h0 + send_bits_range_events(word, num as int, bit as int),
        decreases bit,
    {
        bit = bit - 1;
        let b = (word >> (bit as u16)) & 1 == 1;
        let ghost pre = hw.history();
        match send_bit(hw, b) {
            Ok(()) => (),
            Err(e) => {
                proof {
                    assert(hw.history() =~= h0 + (send_bits_range_events(
                        word,
                        num as int,
                        bit + 1,
                    ) + send_bit_events(b, false)));
                    lemma_extends_concat(
                        h0,
                        send_bits_range_events(word, num as int, bit + 1) + send_bit_events(
                            b,
                            false,
                        ),
                    );
                }
                return Err(e);
            },
        }
        proof {
            lemma_send_bits_range_split_low(word, num as int, bit as int);
            assert(hw.history() =~= h0 + send_bits_range_events(word, num as int, bit as int));
        }
    }
    Ok(())
}

/// Move into receive mode and sample the first bit: the clock is dropped
/// while the zero signal is held, so the chip sees a falling edge.
pub fn force_receive<H: Hardware>(hw: &mut H) -> (r: bool)
    ensures
        final(hw).history() == old(hw).history() + force_receive_events(r),
{
    hw.set_pins(Signal::Zero.with_clock(false));
    hw.delay();
    let r = hw.read_pin();
    proof {
        assert(hw.history() =~= old(hw).history() + force_receive_events(r));
    }
    r
}

/// Receive one bit: raise and drop the clock with a zero data bit, then
/// sample after the full cycle.
pub fn receive_bit<H: Hardware>(hw: &mut H) -> (r: bool)
    ensures
        final(hw).history() == old(hw).history() + receive_bit_events(r),
{
    hw.set_pins(Signal::Zero.with_clock(true));
    hw.delay();
    hw.set_pins(Signal::Zero.with_clock(false));
    hw.delay();
    let r = hw.read_pin();
    proof {
        assert(hw.history() =~= old(hw).history() + receive_bit_events(r));
    }
    r
}

/// Receive one 16-bit word, highest bit first.
pub fn receive_word<H: Hardware>(hw: &mut H) -> (r: u16)
    ensures
        final(hw).history() == old(hw).history() + receive_word_events(r),
{
    let ghost h0 = hw.history();
    let mut result: u16 = 0;
    let mut i: usize = 0;
    proof {
        assert(forall|j: u16| 0u16 >> j & 1 != 1) by (bit_vector);
    }
    while i < 16
        invariant
            i <= 16,
            hw.history() == h0 + receive_prefix_events(result, i as int),
            forall|j: u16| j < 16 - i ==> !bit16(result, j),
        decreases 16 - i,
    {
        let b = receive_bit(hw);
        let ghost prev = result;
        if b {
            result = result | (1u16 << ((15 - i) as u16));
        }
        proof {
            let sh = (15 - i) as u16;
            let r = result;
            let p = prev;
            if b {
                assert(forall|j: u16| j < 16 && j != sh ==> bit16(r, j) == bit16(p, j))
                    by (bit_vector)
                    requires
                        r == p | (1u16 << sh),
                ;
                assert(bit16(r, sh)) by (bit_vector)
                    requires
                        sh < 16,
                        r == p | (1u16 << sh),
                ;
            }
            assert(bit16(result, sh) == b);
            assert(forall|j: u16| 16 - i <= j < 16 ==> bit16(result, j) == bit16(prev, j));
            lemma_receive_prefix_agree(result, prev, i as int);
            assert(hw.history() =~= h0 + receive_prefix_events(result, i + 1));
            assert(forall|j: u16| j < 16 - (i + 1) ==> !bit16(result, j));
        }
        i = i + 1;
    }
    result
}

/// Finish an instruction: all pins off, one pause.
pub fn finish_instruction<H: Hardware>(hw: &mut H)
    ensures
        final(hw).history() == old(hw).history() + finish_events(),
{
    hw.set_pins(Signal::Clear.with_clock(false));
    hw.delay();
    proof {
        assert(hw.history() =~= old(hw).history() + finish_events());
    }
}

/// Events of `k` failed ready polls (each a low sample and another zero
/// cycle), with no terminating sample yet.
pub open spec fn failed_poll_events(k: nat) -> Seq<PinEvent>
    decreases k,
{
    if k == 0 {
        Seq::empty()
    } else {
        failed_poll_events((k - 1) as nat) + seq![PinEvent::Sample(false)] + signal_events(
            Signal::Zero,
        )
    }
}

/// Failed polls can be peeled from the front as well as from the back.
proof fn lemma_failed_poll_prepend(k: nat)
    requires
        k > 0,
    ensures
        failed_poll_events(k) == seq![PinEvent::Sample(false)] + signal_events(Signal::Zero)
            + failed_poll_events((k - 1) as nat),
    decreases k,
{
    if k == 1 {
        assert(failed_poll_events(1) =~= seq![PinEvent::Sample(false)] + signal_events(
            Signal::Zero,
        ) + failed_poll_events(0));
    } else {
        lemma_failed_poll_prepend((k - 1) as nat);
        assert(failed_poll_events(k) =~= seq![PinEvent::Sample(false)] + signal_events(
            Signal::Zero,
        ) + failed_poll_events((k - 1) as nat));
    }
}

/// The failed polls plus the final high sample make one completed poll
/// sequence.
proof fn lemma_busy_poll_shape(k: nat)
    ensures
        busy_poll_events(k) == failed_poll_events(k) + seq![PinEvent::Sample(true)],
    decreases k,
{
    if k == 0 {
        assert(busy_poll_events(0) =~= failed_poll_events(0) + seq![PinEvent::Sample(true)]);
    } else {
        lemma_busy_poll_shape((k - 1) as nat);
        lemma_failed_poll_prepend(k);
        assert(busy_poll_events(k) =~= failed_poll_events(k) + seq![PinEvent::Sample(true)]);
    }
}

/// Wait until the chip reports ready, then clear the bus.
///
/// After an ERASE or WRITE the chip drives the input pin low until it has
/// finished; the pin is pulled high otherwise.  One clear cycle and one
/// zero cycle arm the status output, then zero cycles are clocked until
/// the input reads high.  The poll budget is bounded; a chip that stays
/// busy past it is reported as a timeout.
pub fn wait_for_completion<H: Hardware>(hw: &mut H) -> (r: Result<(), SerialError>)
    ensures
        r is Ok ==> exists|k: nat| final(hw).history() == old(hw).history() + wait_events(k),
        r is Err ==> r->Err_0 == SerialError::Timeout && extends(
            final(hw).history(),
            old(hw).history(),
        ),
{
    let ghost h0 = hw.history();
    signal(hw, Signal::Clear);
    signal(hw, Signal::Zero);
    let ghost h1 = hw.history();
    let mut polls: u32 = 0;
    loop
        invariant_except_break
            hw.history() == h1 + failed_poll_events(polls as nat),
        invariant
            polls <= BUSY_POLL_LIMIT,
            h0 == old(hw).history(),
            h1 == h0 + signal_events(Signal::Clear) + signal_events(Signal::Zero),
        ensures
            polls <= BUSY_POLL_LIMIT,
            h1 == h0 + signal_events(Signal::Clear) + signal_events(Signal::Zero),
            hw.history() == h1 + busy_poll_events(polls as nat),
        decreases BUSY_POLL_LIMIT - polls,
    {
        let ready = hw.read_pin();
        if ready {
            proof {
                lemma_busy_poll_shape(polls as nat);
                assert(hw.history() =~= h1 + busy_poll_events(polls as nat));
            }
            break;
        }
        if polls >= BUSY_POLL_LIMIT {
            proof {
                assert(hw.history() =~= h0 + (signal_events(Signal::Clear) + signal_events(
                    Signal::Zero,
                ) + failed_poll_events(polls as nat) + seq![PinEvent::Sample(false)]));
                lemma_extends_concat(
                    h0,
                    signal_events(Signal::Clear) + signal_events(Signal::Zero)
                        + failed_poll_events(polls as nat) + seq![PinEvent::Sample(false)],
                );
            }
            return Err(SerialError::Timeout);
        }
        signal(hw, Signal::Zero);
        polls = polls + 1;
        proof {
            assert(hw.history() =~= h1 + failed_poll_events(polls as nat));
        }
    }
    finish_instruction(hw);
    proof {
        assert(hw.history() =~= h0 + wait_events(polls as nat));
    }
    Ok(())
}

/// Start an instruction: complete any pending busy-wait, then send the `1`
/// start bit.
pub fn start_instruction<H: Hardware>(hw: &mut H) -> (r: Result<(), SerialError>)
    ensures
        r is Ok ==> exists|k: nat| final(hw).history() == old(hw).history() + start_events(k),
        r is Err ==> r->Err_0 == SerialError::Timeout && extends(
            final(hw).history(),
            old(hw).history(),
        ),
{
    let ghost h0 = hw.history();
    match wait_for_completion(hw) {
        Ok(()) => (),
        Err(e) => {
            return Err(e);
        },
    }
    let ghost k = choose|k: nat| hw.history() == h0 + wait_events(k);
    signal(hw, Signal::One);
    proof {
        assert(hw.history() =~= h0 + start_events(k));
    }
    Ok(())
}

} // verus!
