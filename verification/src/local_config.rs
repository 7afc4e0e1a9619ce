//! Decoder for the OX16PCI954 local configuration registers: the 32 real
//! bytes of resource 3 (the 4096-byte window mirrors them) unpacked into
//! typed fields, purely positionally.

use vstd::prelude::*;

use crate::pci_window::PciResourceReadOnly;

verus! {

/// The chip's operating mode, from bits 1..0 of byte 0.
#[derive(Clone, Copy, PartialEq, Eq, Structural, Debug)]
pub enum Mode {
    UartAndEightBitLocalBus,
    UartAndParallelPort,
    UartAndSubsystemIDs,
    ThirtyTwoBitLocalBus,
}

/// Which byte lane of a dword an 8-bit local bus uses.
#[derive(Clone, Copy, PartialEq, Eq, Structural, Debug)]
pub enum EndianByteLane {
    Lane0,
    Lane1,
    Lane2,
    Lane3,
}

#[derive(Clone, Copy, PartialEq, Eq, Structural, Debug)]
pub enum PowerDownFilterTime {
    Disabled,
    Wait4Seconds,
    Wait129Seconds,
    Wait518Seconds,
}

/// Configuration of one multi-purpose IO pin.
#[derive(Clone, Copy, PartialEq, Eq, Structural, Debug)]
pub enum MioConfiguration {
    NonInvertingInput,
    InvertingInput,
    OutputZero,
    OutputOne,
}

/// MIO2 doubles as a power-management-event output when the function-1
/// override bit is set.
#[derive(Clone, Copy, PartialEq, Eq, Structural, Debug)]
pub enum MioConfigurationOrPME {
    MioConfiguration(MioConfiguration),
    PME(bool),
}

pub open spec fn spec_mode_of(b: u8) -> Mode {
    if b & 0x03 == 0 {
        Mode::UartAndEightBitLocalBus
    } else if b & 0x03 == 1 {
        Mode::UartAndParallelPort
    } else if b & 0x03 == 2 {
        Mode::UartAndSubsystemIDs
    } else {
        Mode::ThirtyTwoBitLocalBus
    }
}

pub open spec fn spec_lane_of(b: u8) -> EndianByteLane {
    if (b >> 3) & 0x03 == 0 {
        EndianByteLane::Lane0
    } else if (b >> 3) & 0x03 == 1 {
        EndianByteLane::Lane1
    } else if (b >> 3) & 0x03 == 2 {
        EndianByteLane::Lane2
    } else {
        EndianByteLane::Lane3
    }
}

pub open spec fn spec_filter_of(b: u8) -> PowerDownFilterTime {
    if (b >> 5) & 0x03 == 0 {
        PowerDownFilterTime::Disabled
    } else if (b >> 5) & 0x03 == 1 {
        PowerDownFilterTime::Wait4Seconds
    } else if (b >> 5) & 0x03 == 2 {
        PowerDownFilterTime::Wait129Seconds
    } else {
        PowerDownFilterTime::Wait518Seconds
    }
}

/// The MIO configuration encoded in the two lowest bits of `v`.
pub open spec fn spec_mio_from_bits(v: u8) -> MioConfiguration {
    if v & 0x03 == 0 {
        MioConfiguration::NonInvertingInput
    } else if v & 0x03 == 1 {
        MioConfiguration::InvertingInput
    } else if v & 0x03 == 2 {
        MioConfiguration::OutputZero
    } else {
        MioConfiguration::OutputOne
    }
}

impl MioConfiguration {
    /// The configuration in the two lowest bits of `v`.
    pub fn from_bits(v: u8) -> (r: MioConfiguration)
        ensures
            r == spec_mio_from_bits(v),
    {
        if v & 0x03 == 0 {
            MioConfiguration::NonInvertingInput
        } else if v & 0x03 == 1 {
            MioConfiguration::InvertingInput
        } else if v & 0x03 == 2 {
            MioConfiguration::OutputZero
        } else {
            MioConfiguration::OutputOne
        }
    }
}

/// The local configuration registers, unpacked.
#[derive(Clone, Copy, PartialEq, Eq, Debug)]
pub struct LocalConfiguration {
    pub mode: Mode,
    pub uart_clock_output: bool,
    pub endian_byte_lane: EndianByteLane,
    pub power_down_filter_time: PowerDownFilterTime,
    pub function1_mio2_pme_enable: bool,
    pub eeprom_data_in: bool,
    pub eeprom_valid: bool,
    pub eeprom_reload_in_progress: bool,
    pub mio0_config: Option<MioConfiguration>,
    pub mio1_config: Option<MioConfiguration>,
    pub mio2_config: MioConfigurationOrPME,
    pub mio3_config: MioConfiguration,
    pub mio4_config: MioConfiguration,
    pub mio5_config: MioConfiguration,
    pub mio6_config: MioConfiguration,
    pub mio7_config: MioConfiguration,
    pub mio8_config: MioConfiguration,
    pub mio9_config: MioConfiguration,
    pub mio10_config: MioConfiguration,
    pub mio11_config: MioConfiguration,
    pub local_bus_read_chip_select_assertion: u8,
    pub local_bus_read_chip_select_deassertion: u8,
    pub local_bus_write_chip_select_assertion: u8,
    pub local_bus_write_chip_select_deassertion: u8,
    pub local_bus_read_control_assertion: u8,
    pub local_bus_read_control_deassertion: u8,
    pub local_bus_write_control_assertion: u8,
    pub local_bus_write_control_deassertion: u8,
    pub local_bus_write_data_bus_control_assertion: u8,
    pub local_bus_write_data_bus_control_deassertion: u8,
    pub local_bus_read_data_bus_control_assertion: u8,
    pub local_bus_read_data_bus_control_deassertion: u8,
    pub function1_bar0_block_size: u8,
    pub local_bus_lower_address_cs_decode: u8,
    pub function1_bar1_block_size: Option<u8>,
    pub local_bus_software_reset: bool,
    pub local_bus_clock_enable: bool,
    pub local_bus_interface_type: bool,
    pub uart_receiver_levels: [u8; 4],
    pub uart_transmitter_levels: [u8; 4],
    pub uart_interrupt_source: [u8; 4],
    pub uart_good_status: [bool; 4],
    pub uart_global_good_status: bool,
    pub uart_interrupt_state: [bool; 4],
    pub mio_state: [bool; 12],
    pub uart_interrupt_mask: [bool; 4],
    pub mio_mask: [bool; 12],
}

/// The decode of the 32 local-configuration bytes, field by field.
pub open spec fn spec_decode_local_configuration(b: Seq<u8>) -> LocalConfiguration
    recommends
        b.len() >= 32,
{
    LocalConfiguration {
        mode: spec_mode_of(b[0]),
        uart_clock_output: b[0] & 0x04 != 0,
        endian_byte_lane: spec_lane_of(b[0]),
        power_down_filter_time: spec_filter_of(b[0]),
        function1_mio2_pme_enable: b[0] & 0x80 != 0,
        eeprom_data_in: b[3] & 0x08 != 0,
        eeprom_valid: b[3] & 0x10 != 0,
        eeprom_reload_in_progress: b[3] & 0x20 != 0,
        mio0_config: if spec_mode_of(b[0]) is UartAndParallelPort {
            None
        } else {
            Some(spec_mio_from_bits(b[4]))
        },
        mio1_config: if spec_filter_of(b[0]) is Disabled {
            Some(spec_mio_from_bits((b[4] >> 2) as u8))
        } else {
            None
        },
        mio2_config: if b[0] & 0x80 != 0 {
            MioConfigurationOrPME::PME(b[4] & 0x10 != 0)
        } else {
            MioConfigurationOrPME::MioConfiguration(spec_mio_from_bits((b[4] >> 4) as u8))
        },
        mio3_config: spec_mio_from_bits((b[4] >> 6) as u8),
        mio4_config: spec_mio_from_bits(b[5]),
        mio5_config: spec_mio_from_bits((b[5] >> 2) as u8),
        mio6_config: spec_mio_from_bits((b[5] >> 4) as u8),
        mio7_config: spec_mio_from_bits((b[5] >> 6) as u8),
        mio8_config: spec_mio_from_bits(b[6]),
        mio9_config: spec_mio_from_bits((b[6] >> 2) as u8),
        mio10_config: spec_mio_from_bits((b[6] >> 4) as u8),
        mio11_config: spec_mio_from_bits((b[6] >> 6) as u8),
        local_bus_read_chip_select_assertion: (b[0x08] & 0x0f) as u8,
        local_bus_read_chip_select_deassertion: (b[0x08] >> 4) as u8,
        local_bus_write_chip_select_assertion: (b[0x09] & 0x0f) as u8,
        local_bus_write_chip_select_deassertion: (b[0x09] >> 4) as u8,
        local_bus_read_control_assertion: (b[0x0a] & 0x0f) as u8,
        local_bus_read_control_deassertion: (b[0x0a] >> 4) as u8,
        local_bus_write_control_assertion: (b[0x0b] & 0x0f) as u8,
        local_bus_write_control_deassertion: (b[0x0b] >> 4) as u8,
        local_bus_write_data_bus_control_assertion: (b[0x0c] & 0x0f) as u8,
        local_bus_write_data_bus_control_deassertion: (b[0x0c] >> 4) as u8,
        local_bus_read_data_bus_control_assertion: (b[0x0d] & 0x0f) as u8,
        local_bus_read_data_bus_control_deassertion: (b[0x0d] >> 4) as u8,
        function1_bar0_block_size: ((b[0x0e] >> 4) & 0x07) as u8,
        local_bus_lower_address_cs_decode: ((b[0x0e] >> 7) | ((b[0x0f] & 0x07) << 1)) as u8,
        function1_bar1_block_size: if spec_mode_of(b[0]) is ThirtyTwoBitLocalBus {
            Some(((b[0x0f] >> 3) & 0x03) as u8)
        } else {
            None
        },
        local_bus_software_reset: b[0x0f] & 0x20 != 0,
        local_bus_clock_enable: b[0x0f] & 0x40 != 0,
        local_bus_interface_type: b[0x0f] & 0x80 != 0,
        uart_receiver_levels: [b[0x10], b[0x11], b[0x12], b[0x13]],
        uart_transmitter_levels: [b[0x14], b[0x15], b[0x16], b[0x17]],
        uart_interrupt_source: [
            (b[0x18] & 0x3f) as u8,
            (((b[0x19] & 0x0f) << 2) | (b[0x18] >> 6)) as u8,
            (((b[0x1a] & 0x03) << 4) | (b[0x19] >> 4)) as u8,
            (b[0x1a] >> 2) as u8,
        ],
        uart_good_status: [
            b[0x1b] & 0x08 != 0,
            b[0x1b] & 0x10 != 0,
            b[0x1b] & 0x20 != 0,
            b[0x1b] & 0x40 != 0,
        ],
        uart_global_good_status: b[0x1b] & 0x80 != 0,
        uart_interrupt_state: [
            b[0x1c] & 0x01 != 0,
            b[0x1c] & 0x02 != 0,
            b[0x1c] & 0x04 != 0,
            b[0x1c] & 0x08 != 0,
        ],
        mio_state: [
            b[0x1c] & 0x10 != 0,
            b[0x1c] & 0x20 != 0,
            b[0x1c] & 0x40 != 0,
            b[0x1c] & 0x80 != 0,
            b[0x1d] & 0x01 != 0,
            b[0x1d] & 0x02 != 0,
            b[0x1d] & 0x04 != 0,
            b[0x1d] & 0x08 != 0,
            b[0x1d] & 0x10 != 0,
            b[0x1d] & 0x20 != 0,
            b[0x1d] & 0x40 != 0,
            b[0x1d] & 0x80 != 0,
        ],
        uart_interrupt_mask: [
            b[0x1e] & 0x01 != 0,
            b[0x1e] & 0x02 != 0,
            b[0x1e] & 0x04 != 0,
            b[0x1e] & 0x08 != 0,
        ],
        mio_mask: [
            b[0x1e] & 0x10 != 0,
            b[0x1e] & 0x20 != 0,
            b[0x1e] & 0x40 != 0,
            b[0x1e] & 0x80 != 0,
            b[0x1f] & 0x01 != 0,
            b[0x1f] & 0x02 != 0,
            b[0x1f] & 0x04 != 0,
            b[0x1f] & 0x08 != 0,
            b[0x1f] & 0x10 != 0,
            b[0x1f] & 0x20 != 0,
            b[0x1f] & 0x40 != 0,
            b[0x1f] & 0x80 != 0,
        ],
    }
}

/// Unpack the 32 local-configuration bytes.  The mapping is purely
/// positional; the contract pins every field to its bits.
#[verifier::rlimit(80)]
pub fn decode_local_configuration(buf: &[u8]) -> (r: LocalConfiguration)
    requires
        buf@.len() >= 32,
    ensures
        r == spec_decode_local_configuration(buf@),
{
    let mode = if buf[0] & 0x03 == 0 {
        Mode::UartAndEightBitLocalBus
    } else if buf[0] & 0x03 == 1 {
        Mode::UartAndParallelPort
    } else if buf[0] & 0x03 == 2 {
        Mode::UartAndSubsystemIDs
    } else {
        Mode::ThirtyTwoBitLocalBus
    };
    let uart_clock_output = 0 != (buf[0] & 0x04);
    let endian_byte_lane = if (buf[0] >> 3) & 0x03 == 0 {
        EndianByteLane::Lane0
    } else if (buf[0] >> 3) & 0x03 == 1 {
        EndianByteLane::Lane1
    } else if (buf[0] >> 3) & 0x03 == 2 {
        EndianByteLane::Lane2
    } else {
        EndianByteLane::Lane3
    };
    let power_down_filter_time = if (buf[0] >> 5) & 0x03 == 0 {
        PowerDownFilterTime::Disabled
    } else if (buf[0] >> 5) & 0x03 == 1 {
        PowerDownFilterTime::Wait4Seconds
    } else if (buf[0] >> 5) & 0x03 == 2 {
        PowerDownFilterTime::Wait129Seconds
    } else {
        PowerDownFilterTime::Wait518Seconds
    };
    let function1_mio2_pme_enable = 0 != (buf[0] & 0x80);

    let eeprom_data_in = 0 != (buf[3] & 0x08);
    let eeprom_valid = 0 != (buf[3] & 0x10);
    let eeprom_reload_in_progress = 0 != (buf[3] & 0x20);

    let mio0_config = match mode {
        Mode::UartAndParallelPort => None,
        _ => Some(MioConfiguration::from_bits(buf[4])),
    };
    let mio1_config = match power_down_filter_time {
        PowerDownFilterTime::Disabled => Some(MioConfiguration::from_bits(buf[4] >> 2)),
        _ => None,
    };
    let mio2_config = if function1_mio2_pme_enable {
        MioConfigurationOrPME::PME(0 != (buf[4] & 0x10))
    } else {
        MioConfigurationOrPME::MioConfiguration(MioConfiguration::from_bits(buf[4] >> 4))
    };
    let mio3_config = MioConfiguration::from_bits(buf[4] >> 6);
    let mio4_config = MioConfiguration::from_bits(buf[5]);
    let mio5_config = MioConfiguration::from_bits(buf[5] >> 2);
    let mio6_config = MioConfiguration::from_bits(buf[5] >> 4);
    let mio7_config = MioConfiguration::from_bits(buf[5] >> 6);
    let mio8_config = MioConfiguration::from_bits(buf[6]);
    let mio9_config = MioConfiguration::from_bits(buf[6] >> 2);
    let mio10_config = MioConfiguration::from_bits(buf[6] >> 4);
    let mio11_config = MioConfiguration::from_bits(buf[6] >> 6);

    let local_bus_read_chip_select_assertion = buf[0x08] & 0x0f;
    let local_bus_read_chip_select_deassertion = buf[0x08] >> 4;
    let local_bus_write_chip_select_assertion = buf[0x09] & 0x0f;
    let local_bus_write_chip_select_deassertion = buf[0x09] >> 4;
    let local_bus_read_control_assertion = buf[0x0a] & 0x0f;
    let local_bus_read_control_deassertion = buf[0x0a] >> 4;
    let local_bus_write_control_assertion = buf[0x0b] & 0x0f;
    let local_bus_write_control_deassertion = buf[0x0b] >> 4;
    let local_bus_write_data_bus_control_assertion = buf[0x0c] & 0x0f;
    let local_bus_write_data_bus_control_deassertion = buf[0x0c] >> 4;
    let local_bus_read_data_bus_control_assertion = buf[0x0d] & 0x0f;
    let local_bus_read_data_bus_control_deassertion = buf[0x0d] >> 4;

    let function1_bar0_block_size = (buf[0x0e] >> 4) & 0x07;
    let local_bus_lower_address_cs_decode = (buf[0x0e] >> 7) | ((buf[0x0f] & 0x07) << 1);
    let function1_bar1_block_size = match mode {
        Mode::ThirtyTwoBitLocalBus => Some((buf[0x0f] >> 3) & 0x03),
        _ => None,
    };
    let local_bus_software_reset = 0 != (buf[0x0f] & 0x20);
    let local_bus_clock_enable = 0 != (buf[0x0f] & 0x40);
    let local_bus_interface_type = 0 != (buf[0x0f] & 0x80);

    let uart_receiver_levels = [buf[0x10], buf[0x11], buf[0x12], buf[0x13]];
    let uart_transmitter_levels = [buf[0x14], buf[0x15], buf[0x16], buf[0x17]];
    let uart_interrupt_source = [
        buf[0x18] & 0x3f,
        ((buf[0x19] & 0x0f) << 2) | (buf[0x18] >> 6),
        ((buf[0x1a] & 0x03) << 4) | (buf[0x19] >> 4),
        buf[0x1a] >> 2,
    ];
    let uart_good_status = [
        0 != (buf[0x1b] & 0x08),
        0 != (buf[0x1b] & 0x10),
        0 != (buf[0x1b] & 0x20),
        0 != (buf[0x1b] & 0x40),
    ];
    let uart_global_good_status = 0 != (buf[0x1b] & 0x80);
    let uart_interrupt_state = [
        0 != (buf[0x1c] & 0x01),
        0 != (buf[0x1c] & 0x02),
        0 != (buf[0x1c] & 0x04),
        0 != (buf[0x1c] & 0x08),
    ];
    let mio_state = [
        0 != (buf[0x1c] & 0x10),
        0 != (buf[0x1c] & 0x20),
        0 != (buf[0x1c] & 0x40),
        0 != (buf[0x1c] & 0x80),
        0 != (buf[0x1d] & 0x01),
        0 != (buf[0x1d] & 0x02),
        0 != (buf[0x1d] & 0x04),
        0 != (buf[0x1d] & 0x08),
        0 != (buf[0x1d] & 0x10),
        0 != (buf[0x1d] & 0x20),
        0 != (buf[0x1d] & 0x40),
        0 != (buf[0x1d] & 0x80),
    ];
    let uart_interrupt_mask = [
        0 != (buf[0x1e] & 0x01),
        0 != (buf[0x1e] & 0x02),
        0 != (buf[0x1e] & 0x04),
        0 != (buf[0x1e] & 0x08),
    ];
    let mio_mask = [
        0 != (buf[0x1e] & 0x10),
        0 != (buf[0x1e] & 0x20),
        0 != (buf[0x1e] & 0x40),
        0 != (buf[0x1e] & 0x80),
        0 != (buf[0x1f] & 0x01),
        0 != (buf[0x1f] & 0x02),
        0 != (buf[0x1f] & 0x04),
        0 != (buf[0x1f] & 0x08),
        0 != (buf[0x1f] & 0x10),
        0 != (buf[0x1f] & 0x20),
        0 != (buf[0x1f] & 0x40),
        0 != (buf[0x1f] & 0x80),
    ];

    LocalConfiguration {
        mode,
        uart_clock_output,
        endian_byte_lane,
        power_down_filter_time,
        function1_mio2_pme_enable,
        eeprom_data_in,
        eeprom_valid,
        eeprom_reload_in_progress,
        mio0_config,
        mio1_config,
        mio2_config,
        mio3_config,
        mio4_config,
        mio5_config,
        mio6_config,
        mio7_config,
        mio8_config,
        mio9_config,
        mio10_config,
        mio11_config,
        local_bus_read_chip_select_assertion,
        local_bus_read_chip_select_deassertion,
        local_bus_write_chip_select_assertion,
        local_bus_write_chip_select_deassertion,
        local_bus_read_control_assertion,
        local_bus_read_control_deassertion,
        local_bus_write_control_assertion,
        local_bus_write_control_deassertion,
        local_bus_write_data_bus_control_assertion,
        local_bus_write_data_bus_control_deassertion,
        local_bus_read_data_bus_control_assertion,
        local_bus_read_data_bus_control_deassertion,
        function1_bar0_block_size,
        local_bus_lower_address_cs_decode,
        function1_bar1_block_size,
        local_bus_software_reset,
        local_bus_clock_enable,
        local_bus_interface_type,
        uart_receiver_levels,
        uart_transmitter_levels,
        uart_interrupt_source,
        uart_good_status,
        uart_global_good_status,
        uart_interrupt_state,
        mio_state,
        uart_interrupt_mask,
        mio_mask,
    }
}

/// Resource 3 did not have its expected 4096-byte window.
#[derive(Clone, Copy, PartialEq, Eq, Structural, Debug)]
pub enum Resource3Error {
    UnexpectedLength,
}

/// The byte reads of one local-configuration fetch: offsets `0 ..
/// bytes.len()`, in order, returning `bytes`.
pub open spec fn resource_read_ops(bytes: Seq<u8>) -> Seq<crate::pci_window::ResourceOp> {
    Seq::new(
        bytes.len(),
        |i: int| crate::pci_window::ResourceOp::ReadByte { offset: i as usize, value: bytes[i] },
    )
}

/// Read the 32 real local-configuration bytes out of resource 3 (whose
/// 4096-byte window mirrors them) and unpack them: the result is the
/// positional decode of exactly the 32 bytes the window returned.
pub fn decode_resource3<R: PciResourceReadOnly>(r3: &mut R) -> (r: Result<
    LocalConfiguration,
    Resource3Error,
>)
    ensures
        r is Err ==> old(r3).res_len() != 4096 && final(r3).ops() == old(r3).ops(),
        r is Ok ==> old(r3).res_len() == 4096 && (exists|bytes: Seq<u8>|
            #![auto]
            bytes.len() == 32 && final(r3).ops() == old(r3).ops() + resource_read_ops(bytes)
                && r->Ok_0 == spec_decode_local_configuration(bytes)),
{
    if r3.len() != 4096 {
        return Err(Resource3Error::UnexpectedLength);
    }
    let mut buf: Vec<u8> = Vec::new();
    let mut i: usize = 0;
    proof {
        assert(r3.ops() =~= old(r3).ops() + resource_read_ops(buf@));
    }
    while i < 32
        invariant
            i <= 32,
            buf@.len() == i,
            r3.res_len() == old(r3).res_len() == 4096,
            r3.ops() == old(r3).ops() + resource_read_ops(buf@),
        decreases 32 - i,
    {
        let b = r3.read_byte(i);
        proof {
            assert(resource_read_ops(buf@.push(b)) =~= resource_read_ops(buf@).push(
                crate::pci_window::ResourceOp::ReadByte { offset: i, value: b },
            ));
            assert(r3.ops() =~= old(r3).ops() + resource_read_ops(buf@.push(b)));
        }
        buf.push(b);
        i = i + 1;
    }
    let configuration = decode_local_configuration(buf.as_slice());
    proof {
        assert(buf@.len() == 32 && r3.ops() == old(r3).ops() + resource_read_ops(buf@)
            && configuration == spec_decode_local_configuration(buf@));
    }
    Ok(configuration)
}

} // verus!
