//! The Microwire driver stack against a simulated 93C46: 64 words of 16
//! bits behind a start-bit/opcode/address protocol with a busy phase
//! after program operations and write protection outside EWEN/EWDS.

use axxon_flash::ox16::{flash_program, read_flash_program, reference_program, Ox16Error};
use axxon_flash::serial::hardware::{Hardware, OutPins};
use axxon_flash::serial::operations::{
    detect_address_width, erase, erase_all, erase_write_enable, read, read_all, write_all,
};

struct SimMicrowire {
    mem: [u16; 64],
    ewen: bool,
    busy: u32,
    cs: bool,
    clk: bool,
    started: bool,
    bits: Vec<bool>,
    reading: bool,
    read_addr: usize,
    read_pos: usize,
    dout: bool,
}

impl SimMicrowire {
    fn new(mem: [u16; 64]) -> SimMicrowire {
        SimMicrowire {
            mem,
            ewen: false,
            busy: 0,
            cs: false,
            clk: false,
            started: false,
            bits: Vec::new(),
            reading: false,
            read_addr: 0,
            read_pos: 0,
            dout: true,
        }
    }

    fn empty() -> SimMicrowire {
        SimMicrowire::new([0xffff; 64])
    }

    fn field(&self, from: usize, len: usize) -> usize {
        let mut v = 0usize;
        for i in 0..len {
            v = (v << 1) | (self.bits[from + i] as usize);
        }
        v
    }

    fn commit(&mut self) {
        // a command takes effect when chip select drops
        if !self.started || self.bits.len() < 8 {
            return;
        }
        let op = (self.bits[0], self.bits[1]);
        let addr = self.field(2, 6);
        match op {
            (true, true) => {
                // ERASE
                if self.ewen {
                    self.mem[addr] = 0xffff;
                    self.busy = 3;
                }
            }
            (false, true) => {
                // WRITE
                if self.bits.len() >= 24 && self.ewen {
                    self.mem[addr] = self.field(8, 16) as u16;
                    self.busy = 3;
                }
            }
            (false, false) => match addr >> 4 {
                0b11 => self.ewen = true,
                0b00 => self.ewen = false,
                0b10 => {
                    // ERAL
                    if self.ewen {
                        self.mem = [0xffff; 64];
                        self.busy = 3;
                    }
                }
                _ => {
                    // WRAL
                    if self.bits.len() >= 24 && self.ewen {
                        self.mem = [self.field(8, 16) as u16; 64];
                        self.busy = 3;
                    }
                }
            },
            (true, false) => {
                // READ has no effect to commit
            }
        }
    }

    fn rising_edge(&mut self, data_in: bool) {
        if self.busy > 0 {
            self.busy -= 1;
            self.dout = self.busy == 0;
            return;
        }
        if self.reading {
            let word = self.mem[(self.read_addr + self.read_pos / 16) % 64];
            let bit = 15 - (self.read_pos % 16);
            self.dout = (word >> bit) & 1 == 1;
            self.read_pos += 1;
            return;
        }
        if !self.started {
            if data_in {
                self.started = true;
                self.bits.clear();
            }
            return;
        }
        self.bits.push(data_in);
        if self.bits.len() == 8 && self.bits[0] && !self.bits[1] {
            // READ: address complete, emit the dummy zero, then stream
            self.read_addr = self.field(2, 6);
            self.read_pos = 0;
            self.reading = true;
            self.dout = false;
        }
    }
}

impl Hardware for SimMicrowire {
    fn history(&self) -> axxon_flash::serial::hardware::PinHistory {
        // ghost view; never called at run time
        panic!()
    }

    fn set_pins(&mut self, pins: OutPins) {
        if self.cs && !pins.chip_select {
            self.commit();
            self.started = false;
            self.bits.clear();
            self.reading = false;
            self.dout = true;
        }
        if pins.chip_select && pins.clock && !self.clk {
            self.rising_edge(pins.data);
        }
        self.cs = pins.chip_select;
        self.clk = pins.clock;
    }

    fn read_pin(&mut self) -> bool {
        if !self.cs {
            // pulled up whenever the chip does not drive the line
            true
        } else {
            self.dout
        }
    }

    fn delay(&mut self) {}
}

#[test]
fn empty_flash_reads_as_empty_program() {
    let mut hw = SimMicrowire::empty();
    let program = read_flash_program(&mut hw).expect("read empty flash");
    assert!(program.is_empty());
}

#[test]
fn address_width_probe_counts_six() {
    let mut mem = [0xffff; 64];
    mem[0] = 0x950a;
    let mut hw = SimMicrowire::new(mem);
    let width = detect_address_width(&mut hw).expect("probe");
    assert_eq!(width, 6);
}

#[test]
fn read_all_yields_sixty_four_words() {
    let mut mem = [0xffff; 64];
    mem[0] = 0x950a;
    mem[1] = 0x1234;
    let mut hw = SimMicrowire::new(mem);
    let mut reader = read_all(&mut hw).expect("read all");
    let mut words = Vec::new();
    while let Some(w) = reader.next() {
        words.push(w);
    }
    assert_eq!(words.len(), 64);
    assert_eq!(words[0], 0x950a);
    assert_eq!(words[1], 0x1234);
    assert_eq!(words[63], 0xffff);
}

#[test]
fn single_read_returns_the_word() {
    let mut mem = [0xffff; 64];
    mem[5] = 0xa5c3;
    let mut hw = SimMicrowire::new(mem);
    assert_eq!(read(&mut hw, 5).expect("read"), 0xa5c3);
    assert_eq!(read(&mut hw, 0).expect("read"), 0xffff);
}

#[test]
fn flash_program_round_trip() {
    let mut hw = SimMicrowire::empty();
    let program = reference_program();
    flash_program(&mut hw, program.as_slice()).expect("flash");
    let back = read_flash_program(&mut hw).expect("read back");
    assert_eq!(back, program);
}

#[test]
fn erase_write_all_and_erase_all_work_inside_the_scope() {
    let mut hw = SimMicrowire::empty();
    erase_write_enable(&mut hw).expect("ewen");
    write_all(&mut hw, 0x1357).expect("wral");
    assert_eq!(read(&mut hw, 0).expect("read"), 0x1357);
    assert_eq!(read(&mut hw, 63).expect("read"), 0x1357);
    erase(&mut hw, 0).expect("erase");
    assert_eq!(read(&mut hw, 0).expect("read"), 0xffff);
    assert_eq!(read(&mut hw, 1).expect("read"), 0x1357);
    erase_all(&mut hw).expect("eral");
    assert_eq!(read(&mut hw, 1).expect("read"), 0xffff);
}

#[test]
fn write_without_programming_scope_does_not_land() {
    let mut hw = SimMicrowire::empty();
    // a bare WRITE outside EWEN/EWDS is ignored by the chip
    axxon_flash::serial::operations::write(&mut hw, 0, 0x1234).expect("write");
    assert_eq!(read(&mut hw, 0).expect("read"), 0xffff);
    // inside the envelope it lands
    erase_write_enable(&mut hw).expect("ewen");
    axxon_flash::serial::operations::write(&mut hw, 0, 0x1234).expect("write");
    assert_eq!(read(&mut hw, 0).expect("read"), 0x1234);
}

/// A line that always reads one level, for driving the error paths.
struct FixedLevel(bool);

impl Hardware for FixedLevel {
    fn history(&self) -> axxon_flash::serial::hardware::PinHistory {
        // ghost view; never called at run time
        panic!()
    }

    fn set_pins(&mut self, _pins: OutPins) {}

    fn read_pin(&mut self) -> bool {
        self.0
    }

    fn delay(&mut self) {}
}

/// A line that follows a fixed script of levels, then stays low.
struct Scripted {
    levels: Vec<bool>,
    pos: usize,
}

impl Hardware for Scripted {
    fn history(&self) -> axxon_flash::serial::hardware::PinHistory {
        // ghost view; never called at run time
        panic!()
    }

    fn set_pins(&mut self, _pins: OutPins) {}

    fn read_pin(&mut self) -> bool {
        let level = self.levels.get(self.pos).copied().unwrap_or(false);
        self.pos += 1;
        level
    }

    fn delay(&mut self) {}
}

#[test]
fn probe_caps_the_width_count() {
    // an input stuck high never yields the terminating zero
    let mut hw = FixedLevel(true);
    assert_eq!(
        detect_address_width(&mut hw),
        Err(axxon_flash::serial::low_level::SerialError::AddressWidthOverflow)
    );
}

#[test]
fn read_requires_the_zero_prefix() {
    let mut hw = FixedLevel(true);
    assert_eq!(
        read(&mut hw, 0),
        Err(axxon_flash::serial::low_level::SerialError::MissingZeroPrefix)
    );
}

#[test]
fn busy_wait_times_out_on_stuck_low() {
    let mut hw = FixedLevel(false);
    match flash_program(&mut hw, &[0x9500]) {
        Err(Ox16Error::Serial(axxon_flash::serial::low_level::SerialError::Timeout)) => {}
        other => panic!("expected a timeout, got {:?}", other),
    }
}

#[test]
fn contention_is_reported_as_low_input() {
    // ready for the busy-wait poll, low afterwards: the first command bit
    // sees a low input
    let mut hw = Scripted { levels: vec![true], pos: 0 };
    assert_eq!(
        erase_write_enable(&mut hw),
        Err(axxon_flash::serial::low_level::SerialError::UnexpectedLowInput)
    );
}

#[test]
fn verify_failure_is_reported() {
    // a chip that never accepts writes: the verify pass must fail
    let mut hw = SimMicrowire::empty();
    let program = reference_program();
    // keep the chip write-protected by dropping EWEN effects
    struct WriteProtected(SimMicrowire);
    impl Hardware for WriteProtected {
        fn history(&self) -> axxon_flash::serial::hardware::PinHistory {
            // ghost view; never called at run time
            panic!()
        }

        fn set_pins(&mut self, pins: OutPins) {
            self.0.set_pins(pins);
            self.0.ewen = false;
        }
        fn read_pin(&mut self) -> bool {
            self.0.read_pin()
        }
        fn delay(&mut self) {}
    }
    let mut wp = WriteProtected(SimMicrowire::empty());
    match flash_program(&mut wp, program.as_slice()) {
        Err(Ox16Error::VerifyFailed { address, expected, actual }) => {
            assert_eq!(address, 0);
            assert_eq!(expected, 0x9505);
            assert_eq!(actual, 0xffff);
        }
        other => panic!("expected a verify failure, got {:?}", other),
    }
    // and the untouched chip still reads erased
    assert_eq!(read(&mut hw, 0).expect("read"), 0xffff);
}
