//! USB device records: descriptor fields and their decoding, and the
//! HID keyboard scancode-to-character translation table.

use vstd::prelude::*;

verus! {

/// Identity of one enumerated USB device.
#[derive(Debug, Clone, Copy, PartialEq, Eq, Structural)]
pub struct UsbDevice {
    /// Vendor identifier.
    pub vendor_id: u16,
    /// Product identifier.
    pub product_id: u16,
    /// Device class code.
    pub device_class: u8,
    /// Device subclass code.
    pub device_subclass: u8,
    /// Device protocol code.
    pub protocol: u8,
    /// Largest packet the default endpoint accepts.
    pub max_packet_size: u16,
    /// Index of the manufacturer string.
    pub manufacturer: u8,
    /// Index of the product string.
    pub product: u8,
    /// Index of the serial-number string.
    pub serial_number: u8,
}

/// Transfer kinds an endpoint can be configured for.
#[derive(Debug, Clone, Copy, PartialEq, Eq, Structural)]
pub enum EndpointTransferType {
    /// Control transfers.
    Control,
    /// Isochronous transfers.
    Isochronous,
    /// Bulk transfers.
    Bulk,
    /// Interrupt transfers.
    Interrupt,
}

/// One endpoint descriptor, as parsed from a configuration descriptor.
#[derive(Debug, Clone, Copy, PartialEq, Eq, Structural)]
pub struct EndpointDescriptor {
    /// Descriptor length in bytes.
    pub length: u8,
    /// Descriptor type code.
    pub descriptor_type: u8,
    /// Endpoint address: number in the low bits, direction in bit 7.
    pub endpoint_address: u8,
    /// Attribute bits; the low two give the transfer type.
    pub attributes: u8,
    /// Largest packet the endpoint accepts.
    pub max_packet_size: u16,
    /// Polling interval.
    pub interval: u8,
}

impl EndpointDescriptor {
    /// Endpoint number: the low four address bits.
    pub fn endpoint_number(&self) -> (r: u8)
        ensures
            r == self.endpoint_address & 0x0F,
    {
        self.endpoint_address & 0x0F
    }

    /// Whether the endpoint carries data toward the host.
    pub fn is_in(&self) -> (r: bool)
        ensures
            r <==> self.endpoint_address & 0x80 != 0,
    {
        self.endpoint_address & 0x80 != 0
    }

    /// Specification twin of `transfer_type`.
    pub open spec fn spec_transfer_type(&self) -> EndpointTransferType {
        if self.attributes & 0x03 == 0 {
            EndpointTransferType::Control
        } else if self.attributes & 0x03 == 1 {
            EndpointTransferType::Isochronous
        } else if self.attributes & 0x03 == 2 {
            EndpointTransferType::Bulk
        } else {
            EndpointTransferType::Interrupt
        }
    }

    /// Transfer kind, from the low two attribute bits.
    pub fn transfer_type(&self) -> (r: EndpointTransferType)
        ensures
            r == self.spec_transfer_type(),
    {
        match self.attributes & 0x03 {
            0 => EndpointTransferType::Control,
            1 => EndpointTransferType::Isochronous,
            2 => EndpointTransferType::Bulk,
            _ => {
                proof {
                    let a = self.attributes;
                    assert(a & 0x03 == 3) by (bit_vector)
                        requires
                            a & 0x03 != 0 && a & 0x03 != 1 && a & 0x03 != 2,
                    ;
                }
                EndpointTransferType::Interrupt
            },
        }
    }
}

/// Character a HID keyboard usage code spells under the given modifier
/// byte (bits 1 and 5 are the shift keys); `None` for codes outside the
/// table.
pub open spec fn scancode_spec(modifiers: u8, code: u8) -> Option<char> {
    let shifted = modifiers & 0x22 != 0;
    if false {
        None
    } else if code == 0x04 {
        Some(if shifted { 'A' } else { 'a' })
    } else if code == 0x05 {
        Some(if shifted { 'B' } else { 'b' })
    } else if code == 0x06 {
        Some(if shifted { 'C' } else { 'c' })
    } else if code == 0x07 {
        Some(if shifted { 'D' } else { 'd' })
    } else if code == 0x08 {
        Some(if shifted { 'E' } else { 'e' })
    } else if code == 0x09 {
        Some(if shifted { 'F' } else { 'f' })
    } else if code == 0x0A {
        Some(if shifted { 'G' } else { 'g' })
    } else if code == 0x0B {
        Some(if shifted { 'H' } else { 'h' })
    } else if code == 0x0C {
        Some(if shifted { 'I' } else { 'i' })
    } else if code == 0x0D {
        Some(if shifted { 'J' } else { 'j' })
    } else if code == 0x0E {
        Some(if shifted { 'K' } else { 'k' })
    } else if code == 0x0F {
        Some(if shifted { 'L' } else { 'l' })
    } else if code == 0x10 {
        Some(if shifted { 'M' } else { 'm' })
    } else if code == 0x11 {
        Some(if shifted { 'N' } else { 'n' })
    } else if code == 0x12 {
        Some(if shifted { 'O' } else { 'o' })
    } else if code == 0x13 {
        Some(if shifted { 'P' } else { 'p' })
    } else if code == 0x14 {
        Some(if shifted { 'Q' } else { 'q' })
    } else if code == 0x15 {
        Some(if shifted { 'R' } else { 'r' })
    } else if code == 0x16 {
        Some(if shifted { 'S' } else { 's' })
    } else if code == 0x17 {
        Some(if shifted { 'T' } else { 't' })
    } else if code == 0x18 {
        Some(if shifted { 'U' } else { 'u' })
    } else if code == 0x19 {
        Some(if shifted { 'V' } else { 'v' })
    } else if code == 0x1A {
        Some(if shifted { 'W' } else { 'w' })
    } else if code == 0x1B {
        Some(if shifted { 'X' } else { 'x' })
    } else if code == 0x1C {
        Some(if shifted { 'Y' } else { 'y' })
    } else if code == 0x1D {
        Some(if shifted { 'Z' } else { 'z' })
    } else if code == 0x1E {
        Some(if shifted { '!' } else { '1' })
    } else if code == 0x1F {
        Some(if shifted { '@' } else { '2' })
    } else if code == 0x20 {
        Some(if shifted { '#' } else { '3' })
    } else if code == 0x21 {
        Some(if shifted { '$' } else { '4' })
    } else if code == 0x22 {
        Some(if shifted { '%' } else { '5' })
    } else if code == 0x23 {
        Some(if shifted { '^' } else { '6' })
    } else if code == 0x24 {
        Some(if shifted { '&' } else { '7' })
    } else if code == 0x25 {
        Some(if shifted { '*' } else { '8' })
    } else if code == 0x26 {
        Some(if shifted { '(' } else { '9' })
    } else if code == 0x27 {
        Some(if shifted { ')' } else { '0' })
    } else if code == 0x28 {
        Some('\n')
    } else if code == 0x2B {
        Some('\t')
    } else if code == 0x2A {
        Some('\x08')
    } else if code == 0x2C {
        Some(' ')
    } else {
        None
    }
}

/// State of one attached HID keyboard.
#[derive(Debug, Clone, Copy)]
pub struct UsbKeyboard {
    /// The device the keyboard was enumerated as.
    pub device: UsbDevice,
    /// Interrupt-in endpoint number delivering reports.
    pub endpoint: u8,
    /// Last raw report.
    pub buffer: [u8; 8],
    /// Modifier byte of the last report.
    pub modifiers: u8,
    /// Key codes held in the last report.
    pub last_keys: [u8; 6],
}

impl UsbKeyboard {
    /// Translate a scancode under the current modifiers; `None` for a
    /// code outside the table.
    pub fn scancode_to_ascii(&self, code: u8) -> (r: Option<char>)
        ensures
            r == scancode_spec(self.modifiers, code),
    {
        let shifted: bool = self.modifiers & 0x22 != 0;
        match code {
        0x04 => Some(if shifted { 'A' } else { 'a' }),
        0x05 => Some(if shifted { 'B' } else { 'b' }),
        0x06 => Some(if shifted { 'C' } else { 'c' }),
        0x07 => Some(if shifted { 'D' } else { 'd' }),
        0x08 => Some(if shifted { 'E' } else { 'e' }),
        0x09 => Some(if shifted { 'F' } else { 'f' }),
        0x0A => Some(if shifted { 'G' } else { 'g' }),
        0x0B => Some(if shifted { 'H' } else { 'h' }),
        0x0C => Some(if shifted { 'I' } else { 'i' }),
        0x0D => Some(if shifted { 'J' } else { 'j' }),
        0x0E => Some(if shifted { 'K' } else { 'k' }),
        0x0F => Some(if shifted { 'L' } else { 'l' }),
        0x10 => Some(if shifted { 'M' } else { 'm' }),
        0x11 => Some(if shifted { 'N' } else { 'n' }),
        0x12 => Some(if shifted { 'O' } else { 'o' }),
        0x13 => Some(if shifted { 'P' } else { 'p' }),
        0x14 => Some(if shifted { 'Q' } else { 'q' }),
        0x15 => Some(if shifted { 'R' } else { 'r' }),
        0x16 => Some(if shifted { 'S' } else { 's' }),
        0x17 => Some(if shifted { 'T' } else { 't' }),
        0x18 => Some(if shifted { 'U' } else { 'u' }),
        0x19 => Some(if shifted { 'V' } else { 'v' }),
        0x1A => Some(if shifted { 'W' } else { 'w' }),
        0x1B => Some(if shifted { 'X' } else { 'x' }),
        0x1C => Some(if shifted { 'Y' } else { 'y' }),
        0x1D => Some(if shifted { 'Z' } else { 'z' }),
        0x1E => Some(if shifted { '!' } else { '1' }),
        0x1F => Some(if shifted { '@' } else { '2' }),
        0x20 => Some(if shifted { '#' } else { '3' }),
        0x21 => Some(if shifted { '$' } else { '4' }),
        0x22 => Some(if shifted { '%' } else { '5' }),
        0x23 => Some(if shifted { '^' } else { '6' }),
        0x24 => Some(if shifted { '&' } else { '7' }),
        0x25 => Some(if shifted { '*' } else { '8' }),
        0x26 => Some(if shifted { '(' } else { '9' }),
        0x27 => Some(if shifted { ')' } else { '0' }),
        0x28 => Some('\n'),
        0x2B => Some('\t'),
        0x2A => Some('\x08'),
        0x2C => Some(' '),
            _ => None,
        }
    }
}

} // verus!
