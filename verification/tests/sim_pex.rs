//! The PEX8112 flash driver against a simulated configuration space: the
//! main index/data pair, an EECTL word with status bits, and an SPI
//! EEPROM engine that models the address-width behaviour (reads return
//! all ones until a full address has been shifted in).

use axxon_flash::axxon::{
    detect_address_width, detect_address_width_allow_writing, extract_image, open_flash,
    open_flash_recovery, write_image, FlashError,
};
use axxon_flash::eectl::AddressWidth;
use axxon_flash::image::{reference_image, signature_bytes};
use axxon_flash::pci_window::{PciConfigSpace, PciConfigSpaceReadOnly};

const MAIN_INDEX: usize = 0x84;
const MAIN_DATA: usize = 0x88;
const EECTL: u32 = 0x04;
const DEVINIT: u32 = 0x00;

#[derive(Debug)]
struct SimConfigSpace {
    len: usize,
    index: u32,
    devinit: u32,
    present: bool,
    valid: bool,
    width_code: u32,
    true_width: usize,
    flash: Vec<u8>,
    // SPI engine
    cs: bool,
    wren: bool,
    ignore_writes: bool,
    always_busy: bool,
    corrupt_after_write: bool,
    corrupted: bool,
    script: Vec<u8>,
    script_pos: usize,
    cmd: Vec<u8>,
    reads_served: usize,
    read_data: u8,
    writable_bits: u32,
}

impl SimConfigSpace {
    fn new(width_code: u32, true_width: usize, flash: Vec<u8>) -> SimConfigSpace {
        SimConfigSpace {
            len: 0x100,
            index: 0,
            devinit: 0x33,
            present: true,
            valid: true,
            width_code,
            true_width,
            flash,
            cs: false,
            wren: false,
            ignore_writes: false,
            always_busy: false,
            corrupt_after_write: false,
            corrupted: false,
            script: Vec::new(),
            script_pos: 0,
            cmd: Vec::new(),
            reads_served: 0,
            read_data: 0,
            writable_bits: 0,
        }
    }

    fn eectl_value(&self) -> u32 {
        if self.always_busy {
            return 0x0008_0000;
        }
        let mut v = self.writable_bits & 0x0004_00ff;
        v |= (self.read_data as u32) << 8;
        if self.valid {
            v |= 0x0010_0000;
        }
        if self.present {
            v |= 0x0020_0000;
        }
        if self.cs {
            v |= 0x0040_0000;
        }
        v |= self.width_code << 23;
        v
    }

    fn spi_address(&self) -> usize {
        let mut addr = 0usize;
        for i in 0..self.true_width {
            addr = (addr << 8) | self.cmd[1 + i] as usize;
        }
        addr
    }

    fn commit(&mut self) {
        if self.cmd.is_empty() {
            return;
        }
        match self.cmd[0] {
            0x06 => self.wren = true,
            0x04 => self.wren = false,
            0x02 => {
                if self.corrupt_after_write {
                    self.corrupted = true;
                }
                if self.wren && !self.ignore_writes && self.cmd.len() >= 1 + self.true_width {
                    let addr = self.spi_address();
                    let data: Vec<u8> = self.cmd[1 + self.true_width..].to_vec();
                    let n = self.flash.len();
                    for (i, b) in data.iter().enumerate() {
                        self.flash[(addr + i) % n] = *b;
                    }
                }
                self.wren = false;
            }
            _ => {}
        }
    }

    fn next_read_byte(&mut self) -> u8 {
        if self.script_pos < self.script.len() {
            let b = self.script[self.script_pos];
            self.script_pos += 1;
            return b;
        }
        if self.corrupted {
            return 0x42;
        }
        if self.cmd.first() == Some(&0x03) {
            if self.cmd.len() - 1 < self.true_width {
                // the read clocks a zero address byte in; data begins only
                // once the full address has arrived
                self.cmd.push(0x00);
                0xff
            } else {
                let addr = self.spi_address();
                let n = self.flash.len();
                let b = self.flash[(addr + self.reads_served) % n];
                self.reads_served += 1;
                b
            }
        } else if self.cmd.first() == Some(&0x05) {
            // status register: write-enable latch in bit 1
            if self.wren {
                0x02
            } else {
                0x00
            }
        } else {
            0xff
        }
    }

    fn eectl_write(&mut self, v: u32) {
        let cs = v & 0x0004_0000 != 0;
        let write_start = v & 0x0001_0000 != 0;
        let read_start = v & 0x0002_0000 != 0;
        let data = (v & 0xff) as u8;
        self.writable_bits = v & 0x0004_00ff;
        if !cs {
            self.commit();
            self.cs = false;
            self.cmd.clear();
            self.reads_served = 0;
        } else {
            if !self.cs {
                self.cs = true;
                self.cmd.clear();
                self.reads_served = 0;
            }
            if write_start {
                self.cmd.push(data);
            }
            if read_start {
                self.read_data = self.next_read_byte();
            }
        }
    }
}

impl PciConfigSpaceReadOnly for SimConfigSpace {
    fn ops(&self) -> axxon_flash::pci_window::ConfigOps {
        // ghost view; never called at run time
        panic!()
    }

    fn cfg_len(&self) -> axxon_flash::pci_window::WindowLength {
        // ghost view; never called at run time
        panic!()
    }

    fn len(&self) -> usize {
        self.len
    }

    fn read_dword(&mut self, offset: usize) -> u32 {
        if offset == MAIN_DATA {
            match self.index {
                DEVINIT => self.devinit,
                EECTL => self.eectl_value(),
                _ => 0,
            }
        } else {
            0
        }
    }
}

impl PciConfigSpace for SimConfigSpace {
    fn write_dword(&mut self, offset: usize, data: u32) {
        if offset == MAIN_INDEX {
            self.index = data;
        } else if offset == MAIN_DATA && self.index == EECTL {
            self.eectl_write(data);
        }
    }
}

fn written_reference_flash() -> Vec<u8> {
    let mut flash = vec![0xffu8; 0x200];
    let image = reference_image();
    flash[..image.len()].copy_from_slice(&image);
    let signature = signature_bytes();
    flash[0x78..0x7d].copy_from_slice(&signature);
    flash
}

#[test]
fn strict_verify_up_to_date() {
    let sim = SimConfigSpace::new(2, 2, written_reference_flash());
    let mut flash = match open_flash(sim) {
        Ok(f) => f,
        Err((_, e)) => panic!("open: {:?}", e),
    };
    let image = extract_image(&mut flash).expect("extract");
    assert_eq!(image, reference_image());
}

#[test]
fn strict_verify_stale_image_differs() {
    let mut contents = written_reference_flash();
    contents[0x10] = 0x11;
    let sim = SimConfigSpace::new(2, 2, contents);
    let mut flash = match open_flash(sim) {
        Ok(f) => f,
        Err((_, e)) => panic!("open: {:?}", e),
    };
    let image = extract_image(&mut flash).expect("extract");
    assert_ne!(image, reference_image());
    let mut expected = reference_image();
    expected[0x10] = 0x11;
    assert_eq!(image, expected);
}

#[test]
fn strict_open_refuses_missing_eeprom() {
    let mut sim = SimConfigSpace::new(2, 2, written_reference_flash());
    sim.present = false;
    assert!(matches!(open_flash(sim), Err((_, FlashError::NotPresent))));

    let mut sim = SimConfigSpace::new(2, 2, written_reference_flash());
    sim.valid = false;
    assert!(matches!(open_flash(sim), Err((_, FlashError::Invalid))));

    let sim = SimConfigSpace::new(0, 2, written_reference_flash());
    assert!(matches!(open_flash(sim), Err((_, FlashError::WidthUnknown))));

    let mut sim = SimConfigSpace::new(2, 2, written_reference_flash());
    sim.devinit = 0x23;
    assert!(matches!(open_flash(sim), Err((_, FlashError::PciExpressDisabled))));

    let mut sim = SimConfigSpace::new(2, 2, written_reference_flash());
    sim.devinit = 0x13;
    assert!(matches!(open_flash(sim), Err((_, FlashError::PciDisabled))));

    let mut sim = SimConfigSpace::new(2, 2, written_reference_flash());
    sim.devinit = 0x34;
    assert!(matches!(open_flash(sim), Err((_, FlashError::BadSpeed))));

    let sim = SimConfigSpace::new(2, 2, vec![0xff; 0x200]);
    assert!(matches!(open_flash(sim), Err((_, FlashError::BadSignature))));
}

#[test]
fn flash_and_verify_from_erased() {
    let sim = SimConfigSpace::new(2, 2, vec![0xff; 0x200]);
    // strict open fails on the missing signature; recovery mode opens
    let mut flash = match open_flash_recovery(sim) {
        Ok(f) => f,
        Err((_, e)) => panic!("recovery open: {:?}", e),
    };
    let image = reference_image();
    write_image(&mut flash, image.as_slice()).expect("write");
    flash.verify_signature().expect("signature");
    let back = extract_image(&mut flash).expect("extract");
    assert_eq!(back, image);
}

#[test]
fn write_image_detects_verify_mismatch() {
    // a chip that ignores writes: the read-back pass must fail at byte 0
    let mut sim = SimConfigSpace::new(2, 2, vec![0xff; 0x200]);
    sim.ignore_writes = true;
    let mut flash = match open_flash_recovery(sim) {
        Ok(f) => f,
        Err((_, e)) => panic!("recovery open: {:?}", e),
    };
    let image = reference_image();
    match write_image(&mut flash, image.as_slice()) {
        Err(FlashError::VerifyFailed { address, expected, actual }) => {
            assert_eq!(address, 0);
            assert_eq!(expected, 0x5a);
            assert_eq!(actual, 0xff);
        }
        other => panic!("expected a verify failure, got {:?}", other),
    }
}

#[test]
fn passive_width_probe_concludes_two() {
    let mut contents = vec![0xffu8; 0x200];
    contents[0] = 0x5a;
    let mut sim = SimConfigSpace::new(0, 2, contents);
    let width = detect_address_width(&mut sim).expect("probe");
    assert_eq!(width, AddressWidth::Two);
}

#[test]
fn passive_width_probe_is_idempotent() {
    let mut contents = vec![0xffu8; 0x200];
    contents[0] = 0x5a;
    let mut sim = SimConfigSpace::new(0, 2, contents);
    let first = detect_address_width(&mut sim).expect("first probe");
    let second = detect_address_width(&mut sim).expect("second probe");
    assert_eq!(first, second);
    assert_eq!(first, AddressWidth::Two);
}

#[test]
fn active_width_probe_writes_and_restores() {
    // all-ones flash: the passive probe cannot decide, the destructive
    // probe writes a zero at address zero and restores it
    let contents = vec![0xffu8; 0x200];
    let mut sim = SimConfigSpace::new(0, 2, contents);
    let width = detect_address_width_allow_writing(&mut sim).expect("active probe");
    assert_eq!(width, AddressWidth::Two);
    assert!(sim.flash.iter().all(|b| *b == 0xff), "the probe must restore the erased byte");
}

#[test]
fn idle_wait_times_out_on_stuck_busy() {
    let mut sim = SimConfigSpace::new(2, 2, written_reference_flash());
    sim.always_busy = true;
    let mut flash = axxon_flash::axxon::Flash { space: sim, address_width: AddressWidth::Two };
    assert!(matches!(flash.read_byte(0), Err(FlashError::Timeout)));
}

#[test]
fn extract_image_rejects_malformed_flash() {
    let mut bad_magic = vec![0xffu8; 0x200];
    bad_magic[0] = 0x00;
    let mut flash = open_flash_recovery(SimConfigSpace::new(2, 2, bad_magic)).unwrap();
    assert!(matches!(
        extract_image(&mut flash),
        Err(FlashError::Image(axxon_flash::image::ImageError::BadMagic(0x00)))
    ));

    let mut bad_flags = vec![0xffu8; 0x200];
    bad_flags[0] = 0x5a;
    bad_flags[1] = 0x04;
    let mut flash = open_flash_recovery(SimConfigSpace::new(2, 2, bad_flags)).unwrap();
    assert!(matches!(
        extract_image(&mut flash),
        Err(FlashError::Image(axxon_flash::image::ImageError::BadFlags(0x04)))
    ));

    let mut bad_reg = vec![0x00u8; 0x200];
    bad_reg[0] = 0x5a;
    bad_reg[1] = 0x03;
    bad_reg[2] = 0x05;
    bad_reg[3] = 0x00;
    let mut flash = open_flash_recovery(SimConfigSpace::new(2, 2, bad_reg)).unwrap();
    assert!(matches!(
        extract_image(&mut flash),
        Err(FlashError::Image(axxon_flash::image::ImageError::BadRegCount(5)))
    ));

    let mut bad_mem = vec![0x00u8; 0x200];
    bad_mem[0] = 0x5a;
    bad_mem[1] = 0x03;
    bad_mem[2] = 0x06;
    bad_mem[3] = 0x00;
    bad_mem[4 + 6] = 0x03;
    let mut flash = open_flash_recovery(SimConfigSpace::new(2, 2, bad_mem)).unwrap();
    assert!(matches!(
        extract_image(&mut flash),
        Err(FlashError::Image(axxon_flash::image::ImageError::BadMemCount(3)))
    ));
}

#[test]
fn passive_probe_rejects_immediate_data() {
    // data in the very first byte: no chip with an address byte does that
    let mut sim = SimConfigSpace::new(0, 2, vec![0xff; 0x200]);
    sim.script = vec![0x00];
    assert!(matches!(
        detect_address_width(&mut sim),
        Err(FlashError::WidthProbeLeadingData)
    ));
}

#[test]
fn passive_probe_reports_all_ones() {
    let mut sim = SimConfigSpace::new(0, 2, vec![0xff; 0x200]);
    assert!(matches!(detect_address_width(&mut sim), Err(FlashError::WidthProbeAllOnes)));
}

#[test]
fn passive_probe_reports_unplaceable_data() {
    // a byte is found, but no candidate width confirms it
    let mut sim = SimConfigSpace::new(0, 2, vec![0xff; 0x200]);
    sim.script = vec![0xff, 0xff, 0xaa, 0x55, 0x55, 0x55];
    assert!(matches!(detect_address_width(&mut sim), Err(FlashError::WidthNotFound)));
}

#[test]
fn active_probe_gives_up_when_writes_never_land() {
    let mut sim = SimConfigSpace::new(0, 2, vec![0xff; 0x200]);
    sim.ignore_writes = true;
    assert!(matches!(
        detect_address_width_allow_writing(&mut sim),
        Err(FlashError::WidthNotFoundWithWrite)
    ));
}

#[test]
fn active_probe_rejects_garbled_readback() {
    // after the trial write, the read returns neither the zero nor an
    // erased byte
    let mut sim = SimConfigSpace::new(0, 2, vec![0xff; 0x200]);
    sim.corrupt_after_write = true;
    assert!(matches!(
        detect_address_width_allow_writing(&mut sim),
        Err(FlashError::WidthWriteMismatch(0x42))
    ));
}

#[test]
fn recovery_open_probes_unknown_width() {
    let mut contents = vec![0xffu8; 0x200];
    contents[0] = 0x5a;
    let sim = SimConfigSpace::new(0, 2, contents);
    let flash = match open_flash_recovery(sim) {
        Ok(f) => f,
        Err((_, e)) => panic!("recovery open: {:?}", e),
    };
    assert_eq!(flash.address_width, AddressWidth::Two);
}
