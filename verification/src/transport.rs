//! Serial ports: how they are described and how a line is set up.

use crate::error::{
    failure, ContextData, ContextValue, ErrorCode, ErrorData, ToolboxError,
    ToolboxResult,
};
use crate::model::{FlowControl, Parity, SerialConfig, SerialPortDescriptor};
use vstd::prelude::*;

verus! {

/// What the system knows of a port.
#[derive(Debug)]
pub enum PortKind {
    Usb {
        vid: u16,
        pid: u16,
        manufacturer: Option<String>,
        product: Option<String>,
        serial_number: Option<String>,
    },
    Bluetooth,
    Pci,
    Unknown,
}

/// `port` describes a port of a name and a kind.
pub open spec fn describes_port(port: SerialPortDescriptor, name: String, kind: PortKind) -> bool {
    &&& port.name == name
    &&& match kind {
        PortKind::Usb { vid, pid, manufacturer, product, serial_number } => {
            &&& port.kind@ == "usb"@
            &&& port.vid == Some(vid)
            &&& port.pid == Some(pid)
            &&& port.manufacturer == manufacturer
            &&& port.product == product
            &&& port.serial_number == serial_number
        },
        _ => {
            &&& port.kind@ == match kind {
                PortKind::Bluetooth => "bluetooth"@,
                PortKind::Pci => "pci"@,
                _ => "unknown"@,
            }
            &&& port.vid is None
            &&& port.pid is None
            &&& port.manufacturer is None
            &&& port.product is None
            &&& port.serial_number is None
        },
    }
}

fn plain_port(name: String, kind: &str) -> (port: SerialPortDescriptor)
    ensures
        port.name == name,
        port.kind@ == kind@,
        port.vid is None,
        port.pid is None,
        port.manufacturer is None,
        port.product is None,
        port.serial_number is None,
{
    SerialPortDescriptor {
        name,
        kind: kind.to_owned(),
        vid: None,
        pid: None,
        manufacturer: None,
        product: None,
        serial_number: None,
    }
}

/// Describes a port.
pub fn describe_port(name: String, kind: PortKind) -> (port: SerialPortDescriptor)
    ensures
        describes_port(port, name, kind),
{
    match kind {
        PortKind::Usb { vid, pid, manufacturer, product, serial_number } => SerialPortDescriptor {
            name,
            kind: "usb".to_owned(),
            vid: Some(vid),
            pid: Some(pid),
            manufacturer,
            product,
            serial_number,
        },
        PortKind::Bluetooth => plain_port(name, "bluetooth"),
        PortKind::Pci => plain_port(name, "pci"),
        PortKind::Unknown => plain_port(name, "unknown"),
    }
}

#[derive(Debug, Clone, Copy, PartialEq, Eq, Structural)]
pub enum DataBits {
    Five,
    Six,
    Seven,
    Eight,
}

#[derive(Debug, Clone, Copy, PartialEq, Eq, Structural)]
pub enum StopBits {
    One,
    Two,
}

/// How a line is set up.
#[derive(Debug, Clone, Copy, PartialEq, Eq, Structural)]
pub struct LineSettings {
    pub baud_rate: u32,
    pub data_bits: DataBits,
    pub stop_bits: StopBits,
    pub parity: Parity,
    pub flow_control: FlowControl,
    pub timeout_ms: u64,
}

/// What is wrong with a line configuration, if anything.
pub open spec fn line_defect(config: SerialConfig) -> Option<ErrorData> {
    if !(5 <= config.data_bits <= 8) {
        Some(
            failure(
                ErrorCode::ProjectSchemaInvalid,
                "device.open"@,
                "data_bits_invalid"@,
            ).noting("dataBits"@, ContextData::Unsigned(config.data_bits as u64)),
        )
    } else if !(1 <= config.stop_bits <= 2) {
        Some(
            failure(
                ErrorCode::ProjectSchemaInvalid,
                "device.open"@,
                "stop_bits_invalid"@,
            ).noting("stopBits"@, ContextData::Unsigned(config.stop_bits as u64)),
        )
    } else {
        None
    }
}

/// How a line of a valid configuration is set up.
pub open spec fn line_settings_of(config: SerialConfig) -> LineSettings {
    LineSettings {
        baud_rate: config.baud_rate,
        data_bits: if config.data_bits == 5 {
            DataBits::Five
        } else if config.data_bits == 6 {
            DataBits::Six
        } else if config.data_bits == 7 {
            DataBits::Seven
        } else {
            DataBits::Eight
        },
        stop_bits: if config.stop_bits == 1 {
            StopBits::One
        } else {
            StopBits::Two
        },
        parity: config.parity,
        flow_control: config.flow_control,
        timeout_ms: if config.timeout_ms == 0 {
            1
        } else {
            config.timeout_ms
        },
    }
}

/// How a line is set up, or what is wrong with its configuration.
pub fn line_settings(config: &SerialConfig) -> (result: ToolboxResult<LineSettings>)
    ensures
        match result {
            Ok(settings) => line_defect(*config) is None && settings == line_settings_of(*config),
            Err(error) => line_defect(*config) == Some(error@),
        },
{
    let data_bits = match config.data_bits {
        5 => DataBits::Five,
        6 => DataBits::Six,
        7 => DataBits::Seven,
        8 => DataBits::Eight,
        value => {
            return Err(
                ToolboxError::new(
                    ErrorCode::ProjectSchemaInvalid,
                    "device.open",
                    "data_bits_invalid",
                ).context("dataBits", ContextValue::Unsigned(value as u64)),
            );
        },
    };
    let stop_bits = match config.stop_bits {
        1 => StopBits::One,
        2 => StopBits::Two,
        value => {
            return Err(
                ToolboxError::new(
                    ErrorCode::ProjectSchemaInvalid,
                    "device.open",
                    "stop_bits_invalid",
                ).context("stopBits", ContextValue::Unsigned(value as u64)),
            );
        },
    };
    Ok(
        LineSettings {
            baud_rate: config.baud_rate,
            data_bits,
            stop_bits,
            parity: config.parity,
            flow_control: config.flow_control,
            timeout_ms: if config.timeout_ms == 0 {
                1
            } else {
                config.timeout_ms
            },
        },
    )
}

/// How many bits a character has.
pub open spec fn bit_count(bits: DataBits) -> int {
    match bits {
        DataBits::Five => 5,
        DataBits::Six => 6,
        DataBits::Seven => 7,
        DataBits::Eight => 8,
    }
}

/// A line is set up with the numbers that it was configured with, where it can be; a reader
/// waits for at least a millisecond. What cannot be set up is named.
pub proof fn law_a_line_is_set_up_as_configured(
    config: &SerialConfig,
    result: ToolboxResult<LineSettings>,
)
    requires
        call_ensures(line_settings, (config,), result),
    ensures
        result is Ok <==> 5 <= config.data_bits <= 8 && 1 <= config.stop_bits <= 2,
        result is Ok ==> {
            let settings = result->Ok_0;
            &&& bit_count(settings.data_bits) == config.data_bits
            &&& settings.stop_bits is One <==> config.stop_bits == 1
            &&& settings.stop_bits is Two <==> config.stop_bits == 2
            &&& settings.baud_rate == config.baud_rate
            &&& settings.parity == config.parity
            &&& settings.flow_control == config.flow_control
            &&& settings.timeout_ms >= 1
            &&& config.timeout_ms >= 1 ==> settings.timeout_ms == config.timeout_ms
            &&& config.timeout_ms == 0 ==> settings.timeout_ms == 1
        },
        result is Err ==> {
            let error = result->Err_0@;
            &&& error.context.dom().contains("dataBits"@) <==> !(5 <= config.data_bits <= 8)
            &&& !(5 <= config.data_bits <= 8) ==> error.context["dataBits"@]
                == ContextData::Unsigned(config.data_bits as u64)
            &&& 5 <= config.data_bits <= 8 ==> error.context["stopBits"@]
                == ContextData::Unsigned(config.stop_bits as u64)
        },
{
    reveal_strlit("dataBits");
    reveal_strlit("stopBits");
    assert("dataBits"@[0] == 'd' && "stopBits"@[0] == 's');
}

/// A port is described by its name, and by what the system knows of it where it is on the bus
/// that knows it.
pub proof fn law_a_port_is_described_as_it_is(
    name: String,
    kind: PortKind,
    port: SerialPortDescriptor,
)
    requires
        call_ensures(describe_port, (name, kind), port),
    ensures
        port.name == name,
        port.vid is Some <==> kind is Usb,
        port.pid is Some <==> kind is Usb,
        kind is Usb ==> {
            &&& port.kind@ == "usb"@
            &&& port.vid == Some(kind->vid)
            &&& port.pid == Some(kind->pid)
            &&& port.manufacturer == kind->manufacturer
            &&& port.product == kind->product
            &&& port.serial_number == kind->serial_number
        },
        !(kind is Usb) ==> port.manufacturer is None && port.product is None
            && port.serial_number is None,
        kind is Bluetooth ==> port.kind@ == "bluetooth"@,
        kind is Pci ==> port.kind@ == "pci"@,
        kind is Unknown ==> port.kind@ == "unknown"@,
{
}

} // verus!
