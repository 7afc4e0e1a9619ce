//! Pure codec behaviour: the PEX8112 image grammar, the OX16PCI954 zone
//! program grammar, the EECTL bit views and the small bit-packing
//! helpers.

use axxon_flash::eectl::{AddressWidth, EeControlRead, EeControlWrite};
use axxon_flash::image::{decode_image, reference_image, ImageError};
use axxon_flash::local_config::{
    decode_local_configuration, decode_resource3, EndianByteLane, MioConfiguration,
    MioConfigurationOrPME, Mode, PowerDownFilterTime, Resource3Error,
};
use axxon_flash::ox16::{
    decode_program, is_ox16_pci954, pack_out_pins, input_pin_of_byte, reference_program,
    ProgramError,
};
use axxon_flash::endpoint::{Class, ClassCode, DeviceID, ProgrammingInterface, SubClassCode, VendorId};
use axxon_flash::serial::hardware::OutPins;
use axxon_flash::{pci_dword_from_bytes, pci_dword_to_bytes};

#[test]
fn eectl_read_view_fields() {
    // busy, valid, present, chip-select-active, width 2, read data 0xA5
    let v = EeControlRead(0x0008_0000 | 0x0010_0000 | 0x0020_0000 | 0x0040_0000 | (2 << 23)
        | (0xa5 << 8) | 0x37);
    assert!(v.is_busy());
    assert!(v.is_valid());
    assert!(v.is_present());
    assert!(v.is_chip_select_active());
    assert_eq!(v.address_width(), Some(AddressWidth::Two));
    assert_eq!(v.data(), 0xa5);
    assert_eq!(v.get_write_data(), 0x37);
    assert!(!v.is_byte_write_start());
    assert!(!v.is_byte_read_start());
    assert!(!v.is_chip_select());
    assert!(!v.is_initialized());
    assert!(!v.is_off());

    assert_eq!(EeControlRead(0).address_width(), None);
    assert_eq!(EeControlRead(1 << 23).address_width(), Some(AddressWidth::One));
    assert_eq!(EeControlRead(3 << 23).address_width(), Some(AddressWidth::Three));
    assert!(EeControlRead(0).is_off());
    // only read-only bits set: still off
    assert!(EeControlRead(0x0078_0000 | 0x8000_0000 | 0xff00).is_off());
}

#[test]
fn eectl_write_view_builders() {
    let off = EeControlWrite::off();
    assert_eq!(off.0, 0);

    let w = EeControlWrite::write_data(0x5a);
    assert_eq!(w.0, 0x5a | 0x0001_0000 | 0x0004_0000);
    assert_eq!(w.data(), 0x5a);
    assert!(w.is_byte_write_start());
    assert!(!w.is_byte_read_start());
    assert!(w.is_chip_select());
    assert!(!w.is_reload());

    let r = EeControlWrite::read_data();
    assert_eq!(r.0, 0x0002_0000 | 0x0004_0000);

    let mut v = EeControlWrite(0);
    v.set_data(0xab);
    v.set_byte_read_start();
    v.set_chip_select();
    v.set_reload();
    assert_eq!(v.0, 0xab | 0x0002_0000 | 0x0004_0000 | 0x8000_0000);
    v.clear_byte_read_start();
    v.clear_chip_select();
    v.clear_reload();
    v.set_byte_write_start();
    assert_eq!(v.0, 0xab | 0x0001_0000);
    v.clear_byte_write_start();
    v.set_data(0);
    assert_eq!(v.0, 0);

    let rd = EeControlRead(0xdead_beef);
    assert_eq!(rd.into_write().0, 0xdead_beef & 0x0007_00ff);
}

#[test]
fn address_width_byte_count() {
    assert_eq!(AddressWidth::One.byte_count(), 1);
    assert_eq!(AddressWidth::Two.byte_count(), 2);
    assert_eq!(AddressWidth::Three.byte_count(), 3);
}

#[test]
fn dword_bytes_round_trip() {
    let bytes = pci_dword_to_bytes(0x1234_5678);
    assert_eq!(bytes, [0x78, 0x56, 0x34, 0x12]);
    assert_eq!(pci_dword_from_bytes(bytes), 0x1234_5678);
    assert_eq!(pci_dword_from_bytes([1, 2, 3, 4]), 0x0403_0201);
}

#[test]
fn reference_image_shape() {
    let image = reference_image();
    assert_eq!(image.len(), 0x46);
    assert_eq!(image[0], 0x5a);
    assert_eq!(image[1], 0x03);
    // register byte count 0x3C, a multiple of six
    assert_eq!(image[2], 0x3c);
    assert_eq!(image[3], 0x00);
    // shared-memory byte count 4 at its place
    assert_eq!(image[4 + 0x3c], 0x04);
    assert_eq!(image[5 + 0x3c], 0x00);
    assert_eq!(image[6 + 0x3c..].to_vec(), vec![0x55, 0x66, 0x77, 0x88]);
}

#[test]
fn reference_program_words() {
    let program = reference_program();
    assert_eq!(
        program,
        vec![0x9505, 0x84ff, 0x85ff, 0x86ff, 0x9e0f, 0x1f00, 0x8001, 0x8200, 0x3d00, 0x0000]
    );
}

#[test]
fn decode_program_reference_round_trip() {
    // the reference program followed by erased words decodes to itself
    let mut words = reference_program();
    let program = words.clone();
    words.resize(64, 0xffff);
    assert_eq!(decode_program(&words), Ok(program));
}

#[test]
fn decode_program_empty_flash() {
    let words = vec![0xffffu16; 64];
    assert_eq!(decode_program(&words), Ok(Vec::new()));
}

#[test]
fn decode_program_errors() {
    assert_eq!(decode_program(&[]), Err(ProgramError::EndOfData));
    assert_eq!(decode_program(&[0x1234]), Err(ProgramError::BadMagic(0x1234)));
    assert_eq!(decode_program(&[0x9508]), Err(ProgramError::BadZoneFlags(0x9508)));
    // zone 1 enabled but never terminated
    assert_eq!(decode_program(&[0x9504, 0x8000, 0x8000]), Err(ProgramError::EndOfData));
    // zone 3 enabled, outer word opens an inner run that never ends
    assert_eq!(decode_program(&[0x9501, 0x8001, 0x8000]), Err(ProgramError::EndOfData));
}

#[test]
fn decode_program_zones() {
    // zone 1 and zone 2: two runs, each ending on a clear top bit
    let words = [0x9506, 0x8123, 0x0456, 0x8321, 0x8111, 0x0222, 0xffff, 0xffff];
    assert_eq!(
        decode_program(&words),
        Ok(vec![0x9506, 0x8123, 0x0456, 0x8321, 0x8111, 0x0222])
    );
    // zone 3 alone: one pair plus the terminating outer word
    let words = [0x9501, 0x8001, 0x8200, 0x3d00, 0x0000, 0xffff];
    assert_eq!(decode_program(&words), Ok(vec![0x9501, 0x8001, 0x8200, 0x3d00, 0x0000]));
    // header with no zones: just the header word
    let words = [0x9500, 0xffff, 0xffff];
    assert_eq!(decode_program(&words), Ok(vec![0x9500]));
}

#[test]
fn chip_identities() {
    let v = |x| VendorId(x);
    let d = |x| DeviceID(x);
    assert!(is_ox16_pci954(v(0x1415), d(0x9500)));
    assert!(is_ox16_pci954(v(0x1415), d(0x9501)));
    assert!(is_ox16_pci954(v(0x1415), d(0x9510)));
    assert!(is_ox16_pci954(v(0x1415), d(0x9511)));
    assert!(is_ox16_pci954(v(0x1415), d(0x9512)));
    assert!(is_ox16_pci954(v(0x1415), d(0x9513)));
    assert!(!is_ox16_pci954(v(0x1415), d(0x9514)));
    assert!(!is_ox16_pci954(v(0x1416), d(0x9500)));

    let class = Class {
        class_code: ClassCode(0x06),
        subclass_code: SubClassCode(0x04),
        programming_interface: ProgrammingInterface(0x00),
    };
    assert!(axxon_flash::axxon::is_pex8112_bridge(v(0x10b5), d(0x8112), class));
    assert!(!axxon_flash::axxon::is_pex8112_bridge(v(0x10b5), d(0x8111), class));
    let wrong_class = Class {
        class_code: ClassCode(0x06),
        subclass_code: SubClassCode(0x04),
        programming_interface: ProgrammingInterface(0x01),
    };
    assert!(!axxon_flash::axxon::is_pex8112_bridge(v(0x10b5), d(0x8112), wrong_class));
}

#[test]
fn eeprom_pin_byte_layout() {
    assert_eq!(
        pack_out_pins(OutPins { chip_select: false, clock: false, data: false }),
        0x00
    );
    assert_eq!(pack_out_pins(OutPins { chip_select: false, clock: true, data: false }), 0x01);
    assert_eq!(pack_out_pins(OutPins { chip_select: true, clock: false, data: false }), 0x02);
    assert_eq!(pack_out_pins(OutPins { chip_select: false, clock: false, data: true }), 0x04);
    assert_eq!(pack_out_pins(OutPins { chip_select: true, clock: true, data: true }), 0x07);
    assert!(input_pin_of_byte(0x08));
    assert!(input_pin_of_byte(0xff));
    assert!(!input_pin_of_byte(0xf7));
}

#[test]
fn decode_image_round_trip() {
    // write an image, pad to the signature offset, append the signature:
    // decoding gives the image back
    let image = reference_image();
    let mut flash = image.clone();
    flash.resize(0x78, 0xff);
    flash.extend_from_slice(&axxon_flash::image::signature_bytes());
    assert_eq!(axxon_flash::image::decode_image(&flash), Ok(image.clone()));
    assert_eq!(flash[0x78..0x7d].to_vec(), vec![0x61, 0x78, 0x78, 0x6f, 0x6e]);
    // the image alone decodes to itself as well
    assert_eq!(axxon_flash::image::decode_image(&image), Ok(image));
}

#[test]
fn decode_image_errors() {
    assert_eq!(decode_image(&[0x5a, 0x03]), Err(ImageError::Truncated));
    assert_eq!(decode_image(&[0x00, 0x03, 0x00, 0x00]), Err(ImageError::BadMagic(0x00)));
    assert_eq!(decode_image(&[0x5a, 0x04, 0x00, 0x00]), Err(ImageError::BadFlags(0x04)));
    assert_eq!(decode_image(&[0x5a, 0x03, 0x05, 0x00]), Err(ImageError::BadRegCount(5)));
    assert_eq!(
        decode_image(&[0x5a, 0x03, 0x06, 0x00, 0, 0, 0, 0, 0, 0, 0x03, 0x00]),
        Err(ImageError::BadMemCount(3))
    );
    // counts valid but the stream ends before the shared-memory bytes
    assert_eq!(
        decode_image(&[0x5a, 0x03, 0x00, 0x00, 0x04, 0x00, 0xaa]),
        Err(ImageError::Truncated)
    );
    // the smallest valid image: zero registers, zero shared memory
    assert_eq!(
        decode_image(&[0x5a, 0x00, 0x00, 0x00, 0x00, 0x00]),
        Ok(vec![0x5a, 0x00, 0x00, 0x00, 0x00, 0x00])
    );
}

struct FakeResource {
    data: Vec<u8>,
}

impl axxon_flash::pci_window::PciResourceReadOnly for FakeResource {
    fn ops(&self) -> axxon_flash::pci_window::ResourceOps {
        // ghost view; never called at run time
        panic!()
    }

    fn res_len(&self) -> axxon_flash::pci_window::WindowLength {
        // ghost view; never called at run time
        panic!()
    }

    fn len(&self) -> usize {
        self.data.len()
    }

    fn read_byte(&mut self, offset: usize) -> u8 {
        self.data[offset]
    }
}

#[test]
fn decode_resource3_checks_window_length() {
    let mut too_small = FakeResource { data: vec![0; 32] };
    assert_eq!(decode_resource3(&mut too_small), Err(Resource3Error::UnexpectedLength));

    let mut data = vec![0u8; 4096];
    data[0] = 0b0000_0001; // parallel-port mode suppresses MIO0
    let mut ok = FakeResource { data };
    let c = decode_resource3(&mut ok).expect("decode");
    assert_eq!(c.mode, Mode::UartAndParallelPort);
    assert_eq!(c.mio0_config, None);
    assert_eq!(c.mio1_config, Some(MioConfiguration::NonInvertingInput));
}

#[test]
fn local_configuration_bit_positions() {
    let mut buf = [0u8; 32];
    buf[0x00] = 0b0100_0110; // mode 2, clock output, lane 0, filter 2, no PME override
    buf[0x03] = 0x18; // EEPROM data in + valid
    buf[0x04] = 0b11_10_01_00; // MIO 0..3
    buf[0x05] = 0b00_01_10_11; // MIO 4..7
    buf[0x06] = 0b01_01_01_01; // MIO 8..11
    buf[0x08] = 0x21;
    buf[0x09] = 0x43;
    buf[0x0a] = 0x65;
    buf[0x0b] = 0x87;
    buf[0x0c] = 0xa9;
    buf[0x0d] = 0xcb;
    buf[0x0e] = 0b1011_0000; // bar0 block size 3, cs decode low bit 1
    buf[0x0f] = 0b0110_0101; // cs decode 0b101, reset 1, clock enable 1, type 0
    buf[0x10] = 1;
    buf[0x11] = 2;
    buf[0x12] = 3;
    buf[0x13] = 4;
    buf[0x14] = 5;
    buf[0x15] = 6;
    buf[0x16] = 7;
    buf[0x17] = 8;
    buf[0x18] = 0b1110_1010; // uart0 source 0x2a, uart1 low bits 0b11
    buf[0x19] = 0b0101_0011; // uart1 high bits 0b0011, uart2 low bits 0b0101
    buf[0x1a] = 0b1111_0110; // uart2 high bits 0b10, uart3 0b111101
    buf[0x1b] = 0b1010_1000;
    buf[0x1c] = 0b0011_0101;
    buf[0x1d] = 0b1100_1010;
    buf[0x1e] = 0b0101_1010;
    buf[0x1f] = 0b1010_0101;

    let c = decode_local_configuration(&buf);
    assert_eq!(c.mode, Mode::UartAndSubsystemIDs);
    assert!(c.uart_clock_output);
    assert_eq!(c.endian_byte_lane, EndianByteLane::Lane0);
    assert_eq!(c.power_down_filter_time, PowerDownFilterTime::Wait129Seconds);
    assert!(!c.function1_mio2_pme_enable);
    assert!(c.eeprom_data_in);
    assert!(c.eeprom_valid);
    assert!(!c.eeprom_reload_in_progress);
    // filter time is not Disabled, so MIO1 is suppressed
    assert_eq!(c.mio0_config, Some(MioConfiguration::NonInvertingInput));
    assert_eq!(c.mio1_config, None);
    assert_eq!(
        c.mio2_config,
        MioConfigurationOrPME::MioConfiguration(MioConfiguration::OutputZero)
    );
    assert_eq!(c.mio3_config, MioConfiguration::OutputOne);
    assert_eq!(c.mio4_config, MioConfiguration::OutputOne);
    assert_eq!(c.mio5_config, MioConfiguration::OutputZero);
    assert_eq!(c.mio6_config, MioConfiguration::InvertingInput);
    assert_eq!(c.mio7_config, MioConfiguration::NonInvertingInput);
    assert_eq!(c.mio8_config, MioConfiguration::InvertingInput);
    assert_eq!(c.mio9_config, MioConfiguration::InvertingInput);
    assert_eq!(c.mio10_config, MioConfiguration::InvertingInput);
    assert_eq!(c.mio11_config, MioConfiguration::InvertingInput);
    assert_eq!(c.local_bus_read_chip_select_assertion, 0x1);
    assert_eq!(c.local_bus_read_chip_select_deassertion, 0x2);
    assert_eq!(c.local_bus_write_chip_select_assertion, 0x3);
    assert_eq!(c.local_bus_write_chip_select_deassertion, 0x4);
    assert_eq!(c.local_bus_read_control_assertion, 0x5);
    assert_eq!(c.local_bus_read_control_deassertion, 0x6);
    assert_eq!(c.local_bus_write_control_assertion, 0x7);
    assert_eq!(c.local_bus_write_control_deassertion, 0x8);
    assert_eq!(c.local_bus_write_data_bus_control_assertion, 0x9);
    assert_eq!(c.local_bus_write_data_bus_control_deassertion, 0xa);
    assert_eq!(c.local_bus_read_data_bus_control_assertion, 0xb);
    assert_eq!(c.local_bus_read_data_bus_control_deassertion, 0xc);
    assert_eq!(c.function1_bar0_block_size, 0b011);
    assert_eq!(c.local_bus_lower_address_cs_decode, 0b1011);
    // mode is not the 32-bit local bus, so BAR1 block size is suppressed
    assert_eq!(c.function1_bar1_block_size, None);
    assert!(c.local_bus_software_reset);
    assert!(c.local_bus_clock_enable);
    assert!(!c.local_bus_interface_type);
    assert_eq!(c.uart_receiver_levels, [1, 2, 3, 4]);
    assert_eq!(c.uart_transmitter_levels, [5, 6, 7, 8]);
    assert_eq!(c.uart_interrupt_source, [0x2a, 0b001111, 0b100101, 0b111101]);
    assert_eq!(c.uart_good_status, [true, false, true, false]);
    assert!(c.uart_global_good_status);
    assert_eq!(c.uart_interrupt_state, [true, false, true, false]);
    assert_eq!(
        c.mio_state,
        [true, true, false, false, false, true, false, true, false, false, true, true]
    );
    assert_eq!(c.uart_interrupt_mask, [false, true, false, true]);
    assert_eq!(
        c.mio_mask,
        [true, false, true, false, true, false, true, false, false, true, false, true]
    );
}
