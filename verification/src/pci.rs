//! PCI bus records: decoding of configuration-space registers into
//! device descriptions, classification predicates, and the scan that
//! walks a snapshot of the configuration space.
//!
//! Reading and writing the configuration ports themselves is register
//! I/O that the surrounding system performs; it hands this module the
//! raw dwords and writes back the command words computed here.

use vstd::prelude::*;

verus! {

/// The configuration-space dwords one device function is decoded from,
/// as read at the fixed header offsets.
#[derive(Debug, Clone, Copy, PartialEq, Eq, Structural)]
pub struct PciConfigRegs {
    /// Offset 0x00: device id and vendor id.
    pub reg00: u32,
    /// Offset 0x08: class, subclass, programming interface, revision.
    pub reg08: u32,
    /// Offset 0x0C: header type and friends.
    pub reg0c: u32,
    /// Offset 0x10: base address register 0.
    pub reg10: u32,
    /// Offset 0x14: base address register 1.
    pub reg14: u32,
    /// Offset 0x18: base address register 2.
    pub reg18: u32,
    /// Offset 0x1C: base address register 3.
    pub reg1c: u32,
    /// Offset 0x20: base address register 4.
    pub reg20: u32,
    /// Offset 0x24: base address register 5.
    pub reg24: u32,
    /// Offset 0x3C: interrupt pin and line.
    pub reg3c: u32,
}

/// One discovered PCI device function.
#[derive(Debug, Clone, Copy, PartialEq, Eq, Structural)]
pub struct PciDevice {
    /// Bus number the function was found on.
    pub bus: u8,
    /// Device number on that bus.
    pub device: u8,
    /// Function number of that device.
    pub function: u8,
    /// Vendor identifier.
    pub vendor_id: u16,
    /// Device identifier.
    pub device_id: u16,
    /// Class code.
    pub class_code: u8,
    /// Subclass code.
    pub subclass: u8,
    /// Programming interface.
    pub prog_if: u8,
    /// Revision identifier.
    pub revision_id: u8,
    /// Header type byte; bit 7 marks a multi-function device.
    pub header_type: u8,
    /// Base address register 0.
    pub bar0: u32,
    /// Base address register 1.
    pub bar1: u32,
    /// Base address register 2.
    pub bar2: u32,
    /// Base address register 3.
    pub bar3: u32,
    /// Base address register 4.
    pub bar4: u32,
    /// Base address register 5.
    pub bar5: u32,
    /// Interrupt line.
    pub interrupt_line: u8,
    /// Interrupt pin.
    pub interrupt_pin: u8,
}

/// PCI device class codes.
#[derive(Debug, Copy, Clone, PartialEq, Eq, Structural)]
pub enum PciClass {
    /// Class 0x00.
    Unclassified,
    /// Class 0x01.
    MassStorage,
    /// Class 0x02.
    Network,
    /// Class 0x03.
    Display,
    /// Class 0x04.
    Multimedia,
    /// Class 0x05.
    Memory,
    /// Class 0x06.
    Bridge,
    /// Class 0x07.
    Communication,
    /// Class 0x08.
    SystemPeripheral,
    /// Class 0x09.
    InputDevice,
    /// Class 0x0A.
    DockingStation,
    /// Class 0x0B.
    Processor,
    /// Class 0x0C; USB controllers live here.
    SerialBus,
    /// Class 0x0D.
    Wireless,
    /// Class 0x0E.
    IntelligentIO,
    /// Class 0x0F.
    Satellite,
    /// Class 0x10.
    Encryption,
    /// Class 0x11.
    SignalProcessing,
}

impl PciClass {
    /// The numeric class code this variant stands for.
    pub fn code(&self) -> (r: u8)
        ensures
            r == self.spec_code(),
    {
        match self {
            PciClass::Unclassified => 0x00,
            PciClass::MassStorage => 0x01,
            PciClass::Network => 0x02,
            PciClass::Display => 0x03,
            PciClass::Multimedia => 0x04,
            PciClass::Memory => 0x05,
            PciClass::Bridge => 0x06,
            PciClass::Communication => 0x07,
            PciClass::SystemPeripheral => 0x08,
            PciClass::InputDevice => 0x09,
            PciClass::DockingStation => 0x0A,
            PciClass::Processor => 0x0B,
            PciClass::SerialBus => 0x0C,
            PciClass::Wireless => 0x0D,
            PciClass::IntelligentIO => 0x0E,
            PciClass::Satellite => 0x0F,
            PciClass::Encryption => 0x10,
            PciClass::SignalProcessing => 0x11,
        }
    }

    /// Specification twin of `code`.
    pub open spec fn spec_code(&self) -> u8 {
        match self {
            PciClass::Unclassified => 0x00,
            PciClass::MassStorage => 0x01,
            PciClass::Network => 0x02,
            PciClass::Display => 0x03,
            PciClass::Multimedia => 0x04,
            PciClass::Memory => 0x05,
            PciClass::Bridge => 0x06,
            PciClass::Communication => 0x07,
            PciClass::SystemPeripheral => 0x08,
            PciClass::InputDevice => 0x09,
            PciClass::DockingStation => 0x0A,
            PciClass::Processor => 0x0B,
            PciClass::SerialBus => 0x0C,
            PciClass::Wireless => 0x0D,
            PciClass::IntelligentIO => 0x0E,
            PciClass::Satellite => 0x0F,
            PciClass::Encryption => 0x10,
            PciClass::SignalProcessing => 0x11,
        }
    }
}

/// USB controller kinds, by programming interface.
#[derive(Debug, Copy, Clone, PartialEq, Eq, Structural)]
pub enum UsbControllerType {
    /// Universal host controller interface (USB 1.0).
    Uhci,
    /// Open host controller interface (USB 1.1).
    Ohci,
    /// Enhanced host controller interface (USB 2.0).
    Ehci,
    /// Extensible host controller interface (USB 3.0 and later).
    Xhci,
    /// USB4 host interface.
    Usb4,
    /// A USB device rather than a host controller.
    UsbDevice,
}

/// Memory width of a memory-space base address register.
#[derive(Debug, Copy, Clone, PartialEq, Eq, Structural)]
pub enum MemoryType {
    /// 32-bit addressing.
    Bit32,
    /// 64-bit addressing.
    Bit64,
}

/// Decoded kind of a base address register.
#[derive(Debug, Copy, Clone, PartialEq, Eq, Structural)]
pub enum BarType {
    /// An I/O-space register with its port base.
    IoSpace(u32),
    /// A memory-space register.
    MemorySpace {
        /// Base address with the flag bits masked off.
        address: u32,
        /// Addressing width.
        mem_type: MemoryType,
        /// Whether the region is prefetchable.
        prefetchable: bool,
    },
}

/// Decoding of one function's registers: `None` when no device answers
/// (an all-ones vendor id), otherwise every field cut out of its dword.
pub open spec fn decode_device_spec(
    regs: PciConfigRegs,
    bus: u8,
    device: u8,
    function: u8,
) -> Option<PciDevice> {
    if regs.reg00 & 0xFFFF == 0xFFFF {
        None
    } else {
        Some(
            PciDevice {
                bus,
                device,
                function,
                vendor_id: (regs.reg00 & 0xFFFF) as u16,
                device_id: ((regs.reg00 >> 16) & 0xFFFF) as u16,
                class_code: ((regs.reg08 >> 24) & 0xFF) as u8,
                subclass: ((regs.reg08 >> 16) & 0xFF) as u8,
                prog_if: ((regs.reg08 >> 8) & 0xFF) as u8,
                revision_id: (regs.reg08 & 0xFF) as u8,
                header_type: ((regs.reg0c >> 16) & 0xFF) as u8,
                bar0: regs.reg10,
                bar1: regs.reg14,
                bar2: regs.reg18,
                bar3: regs.reg1c,
                bar4: regs.reg20,
                bar5: regs.reg24,
                interrupt_line: (regs.reg3c & 0xFF) as u8,
                interrupt_pin: ((regs.reg3c >> 8) & 0xFF) as u8,
            },
        )
    }
}

impl PciDevice {
    /// Decode a device from the configuration registers of one bus
    /// address; `None` when no device answers there.
    pub fn new(bus: u8, device: u8, function: u8, regs: &PciConfigRegs) -> (r: Option<
        PciDevice,
    >)
        ensures
            r == decode_device_spec(*regs, bus, device, function),
    {
        if regs.reg00 & 0xFFFF == 0xFFFF {
            return None;
        }
        Some(
            PciDevice {
                bus,
                device,
                function,
                vendor_id: (regs.reg00 & 0xFFFF) as u16,
                device_id: ((regs.reg00 >> 16) & 0xFFFF) as u16,
                class_code: ((regs.reg08 >> 24) & 0xFF) as u8,
                subclass: ((regs.reg08 >> 16) & 0xFF) as u8,
                prog_if: ((regs.reg08 >> 8) & 0xFF) as u8,
                revision_id: (regs.reg08 & 0xFF) as u8,
                header_type: ((regs.reg0c >> 16) & 0xFF) as u8,
                bar0: regs.reg10,
                bar1: regs.reg14,
                bar2: regs.reg18,
                bar3: regs.reg1c,
                bar4: regs.reg20,
                bar5: regs.reg24,
                interrupt_line: (regs.reg3c & 0xFF) as u8,
                interrupt_pin: ((regs.reg3c >> 8) & 0xFF) as u8,
            },
        )
    }

    /// Whether this is a USB controller (serial-bus class, USB
    /// subclass).
    pub fn is_usb_controller(&self) -> (r: bool)
        ensures
            r <==> self.class_code == 0x0C && self.subclass == 0x03,
    {
        self.class_code == 0x0C && self.subclass == 0x03
    }

    /// Kind of USB controller, by programming interface; `None` for a
    /// non-USB device or an unknown interface.
    pub fn usb_controller_type(&self) -> (r: Option<UsbControllerType>)
        ensures
            r == self.spec_usb_controller_type(),
    {
        if !(self.class_code == 0x0C && self.subclass == 0x03) {
            return None;
        }
        match self.prog_if {
            0x00 => Some(UsbControllerType::Uhci),
            0x10 => Some(UsbControllerType::Ohci),
            0x20 => Some(UsbControllerType::Ehci),
            0x30 => Some(UsbControllerType::Xhci),
            0x40 => Some(UsbControllerType::Usb4),
            0xFE => Some(UsbControllerType::UsbDevice),
            _ => None,
        }
    }

    /// Specification twin of `usb_controller_type`.
    pub open spec fn spec_usb_controller_type(&self) -> Option<UsbControllerType> {
        if !(self.class_code == 0x0C && self.subclass == 0x03) {
            None
        } else if self.prog_if == 0x00 {
            Some(UsbControllerType::Uhci)
        } else if self.prog_if == 0x10 {
            Some(UsbControllerType::Ohci)
        } else if self.prog_if == 0x20 {
            Some(UsbControllerType::Ehci)
        } else if self.prog_if == 0x30 {
            Some(UsbControllerType::Xhci)
        } else if self.prog_if == 0x40 {
            Some(UsbControllerType::Usb4)
        } else if self.prog_if == 0xFE {
            Some(UsbControllerType::UsbDevice)
        } else {
            None
        }
    }

    /// Whether this is a network controller.
    pub fn is_network_controller(&self) -> (r: bool)
        ensures
            r <==> self.class_code == 0x02,
    {
        self.class_code == 0x02
    }

    /// Whether this is a wireless network controller.
    pub fn is_wifi_controller(&self) -> (r: bool)
        ensures
            r <==> self.class_code == 0x02 && self.subclass == 0x80,
    {
        self.class_code == 0x02 && self.subclass == 0x80
    }

    /// Whether this is an Ethernet controller.
    pub fn is_ethernet_controller(&self) -> (r: bool)
        ensures
            r <==> self.class_code == 0x02 && self.subclass == 0x00,
    {
        self.class_code == 0x02 && self.subclass == 0x00
    }

    /// Whether this is a mass-storage controller.
    pub fn is_storage_controller(&self) -> (r: bool)
        ensures
            r <==> self.class_code == 0x01,
    {
        self.class_code == 0x01
    }

    /// Whether this is a non-volatile-memory (NVMe) controller.
    pub fn is_nvme_controller(&self) -> (r: bool)
        ensures
            r <==> self.class_code == 0x01 && self.subclass == 0x08 && self.prog_if == 0x02,
    {
        self.class_code == 0x01 && self.subclass == 0x08 && self.prog_if == 0x02
    }

    /// Whether this is a SATA controller with the AHCI interface.
    pub fn is_sata_controller(&self) -> (r: bool)
        ensures
            r <==> self.class_code == 0x01 && self.subclass == 0x06 && self.prog_if == 0x01,
    {
        self.class_code == 0x01 && self.subclass == 0x06 && self.prog_if == 0x01
    }

    /// Whether this is a display controller.
    pub fn is_display_controller(&self) -> (r: bool)
        ensures
            r <==> self.class_code == 0x03,
    {
        self.class_code == 0x03
    }

    /// Whether this is a Bluetooth controller.
    pub fn is_bluetooth_controller(&self) -> (r: bool)
        ensures
            r <==> self.class_code == 0x0C && self.subclass == 0x09,
    {
        self.class_code == 0x0C && self.subclass == 0x09
    }

    /// Specification twin of `get_bar_type`.
    pub open spec fn spec_bar_type(&self, bar_index: u8) -> Option<BarType> {
        let bar = if bar_index == 0 {
            self.bar0
        } else if bar_index == 1 {
            self.bar1
        } else if bar_index == 2 {
            self.bar2
        } else if bar_index == 3 {
            self.bar3
        } else if bar_index == 4 {
            self.bar4
        } else {
            self.bar5
        };
        if bar_index > 5 {
            None
        } else if bar == 0 {
            None
        } else if bar & 0x1 != 0 {
            Some(BarType::IoSpace(bar & !0x3))
        } else {
            let mem_type = (bar >> 1) & 0x3;
            if mem_type == 0 {
                Some(
                    BarType::MemorySpace {
                        address: bar & !0xF,
                        mem_type: MemoryType::Bit32,
                        prefetchable: bar & 0x8 != 0,
                    },
                )
            } else if mem_type == 2 {
                Some(
                    BarType::MemorySpace {
                        address: bar & !0xF,
                        mem_type: MemoryType::Bit64,
                        prefetchable: bar & 0x8 != 0,
                    },
                )
            } else {
                None
            }
        }
    }

    /// Decode one base address register: `None` for an index past 5, an
    /// unimplemented register or a reserved memory type.
    pub fn get_bar_type(&self, bar_index: u8) -> (r: Option<BarType>)
        ensures
            r == self.spec_bar_type(bar_index),
    {
        let bar: u32 = match bar_index {
            0 => self.bar0,
            1 => self.bar1,
            2 => self.bar2,
            3 => self.bar3,
            4 => self.bar4,
            5 => self.bar5,
            _ => {
                return None;
            },
        };
        if bar == 0 {
            return None;
        }
        if bar & 0x1 != 0 {
            return Some(BarType::IoSpace(bar & !0x3));
        }
        let mem_type: u32 = (bar >> 1) & 0x3;
        let prefetchable: bool = bar & 0x8 != 0;
        let address: u32 = bar & !0xF;
        match mem_type {
            0 => Some(BarType::MemorySpace { address, mem_type: MemoryType::Bit32, prefetchable }),
            2 => Some(BarType::MemorySpace { address, mem_type: MemoryType::Bit64, prefetchable }),
            _ => None,
        }
    }
}


impl PciDevice {
    /// Specification twin of `device_name`.
    pub open spec fn spec_device_name(&self) -> Seq<char> {
        if self.vendor_id == 0x8086 && self.device_id == 0x9D2F {
            "Intel USB 3.0 XHCI Controller"@
        } else if self.vendor_id == 0x8086 && self.device_id == 0xA12F {
            "Intel USB 3.0 XHCI Controller"@
        } else if self.vendor_id == 0x8086 && self.device_id == 0x9DED {
            "Intel Cannon Point USB 3.1 XHCI"@
        } else if self.vendor_id == 0x8086 && self.device_id == 0xA36D {
            "Intel Cannon Lake USB 3.1 XHCI"@
        } else if self.vendor_id == 0x8086 && self.device_id == 0x02ED {
            "Intel Comet Lake USB 3.1 XHCI"@
        } else if self.vendor_id == 0x8086 && self.device_id == 0x43ED {
            "Intel Tiger Lake USB 3.2 XHCI"@
        } else if self.vendor_id == 0x8086 && self.device_id == 0x51ED {
            "Intel Alder Lake USB 3.2 XHCI"@
        } else if self.vendor_id == 0x8086 && self.device_id == 0x7A60 {
            "Intel Raptor Lake USB 3.2 XHCI"@
        } else if self.vendor_id == 0x1022 && self.device_id == 0x149C {
            "AMD USB 3.1 XHCI Controller"@
        } else if self.vendor_id == 0x1022 && self.device_id == 0x43D5 {
            "AMD USB 3.1 XHCI Controller"@
        } else if self.vendor_id == 0x1022 && self.device_id == 0x15E0 {
            "AMD Ryzen USB 3.1 XHCI"@
        } else if self.vendor_id == 0x1022 && self.device_id == 0x15E1 {
            "AMD Ryzen USB 3.1 XHCI"@
        } else if self.vendor_id == 0x1B21 && self.device_id == 0x1142 {
            "ASMedia USB 3.0 XHCI Controller"@
        } else if self.vendor_id == 0x1B21 && self.device_id == 0x2142 {
            "ASMedia USB 3.1 XHCI Controller"@
        } else if self.vendor_id == 0x1B21 && self.device_id == 0x3242 {
            "ASMedia USB 3.2 XHCI Controller"@
        } else if self.vendor_id == 0x1106 && self.device_id == 0x3483 {
            "VIA USB 3.0 XHCI Controller"@
        } else if self.vendor_id == 0x104C && self.device_id == 0x8241 {
            "TI USB 3.0 XHCI Controller"@
        } else if self.vendor_id == 0x1912 && self.device_id == 0x0014 {
            "Renesas USB 3.0 XHCI Controller"@
        } else if self.vendor_id == 0x1912 && self.device_id == 0x0015 {
            "Renesas USB 3.1 XHCI Controller"@
        } else if self.vendor_id == 0x8086 && self.device_id == 0x15B8 {
            "Intel I219-V Gigabit Ethernet"@
        } else if self.vendor_id == 0x8086 && self.device_id == 0x15D8 {
            "Intel I219-LM Gigabit Ethernet"@
        } else if self.vendor_id == 0x8086 && self.device_id == 0x0D4E {
            "Intel Ethernet I219"@
        } else if self.vendor_id == 0x8086 && self.device_id == 0x125C {
            "Intel I210 Gigabit Ethernet"@
        } else if self.vendor_id == 0x8086 && self.device_id == 0x1539 {
            "Intel I211 Gigabit Ethernet"@
        } else if self.vendor_id == 0x8086 && self.device_id == 0x10D3 {
            "Intel 82574L Gigabit Ethernet"@
        } else if self.vendor_id == 0x8086 && self.device_id == 0x2723 {
            "Intel WiFi 6 AX200"@
        } else if self.vendor_id == 0x8086 && self.device_id == 0x2725 {
            "Intel WiFi 6 AX201"@
        } else if self.vendor_id == 0x8086 && self.device_id == 0x51F0 {
            "Intel WiFi 6E AX210"@
        } else if self.vendor_id == 0x8086 && self.device_id == 0x272B {
            "Intel WiFi 6E AX211"@
        } else if self.vendor_id == 0x8086 && self.device_id == 0x7AF0 {
            "Intel WiFi 6E AX411"@
        } else if self.vendor_id == 0x8086 && self.device_id == 0x24FD {
            "Intel WiFi 5 AC 9560"@
        } else if self.vendor_id == 0x8086 && self.device_id == 0x2526 {
            "Intel WiFi 5 AC 9260"@
        } else if self.vendor_id == 0x10EC && self.device_id == 0x8168 {
            "Realtek RTL8111/8168 Gigabit Ethernet"@
        } else if self.vendor_id == 0x10EC && self.device_id == 0x8125 {
            "Realtek RTL8125 2.5G Ethernet"@
        } else if self.vendor_id == 0x10EC && self.device_id == 0x8136 {
            "Realtek RTL810xE Fast Ethernet"@
        } else if self.vendor_id == 0x10EC && self.device_id == 0xB852 {
            "Realtek RTL8852BE WiFi 6"@
        } else if self.vendor_id == 0x10EC && self.device_id == 0xC852 {
            "Realtek RTL8852CE WiFi 6E"@
        } else if self.vendor_id == 0x168C && self.device_id == 0x003E {
            "Qualcomm Atheros QCA6174 WiFi"@
        } else if self.vendor_id == 0x168C && self.device_id == 0x0042 {
            "Qualcomm Atheros QCA9377 WiFi"@
        } else if self.vendor_id == 0x168C && self.device_id == 0x003C {
            "Qualcomm Atheros QCA9565 WiFi"@
        } else if self.vendor_id == 0x14E4 && self.device_id == 0x43A0 {
            "Broadcom BCM4360 WiFi"@
        } else if self.vendor_id == 0x14E4 && self.device_id == 0x43B1 {
            "Broadcom BCM4352 WiFi"@
        } else if self.vendor_id == 0x14E4 && self.device_id == 0x4727 {
            "Broadcom BCM4313 WiFi"@
        } else if self.vendor_id == 0x8086 && self.device_id == 0x0953 {
            "Intel NVMe SSD DC P3520"@
        } else if self.vendor_id == 0x8086 && self.device_id == 0x0A54 {
            "Intel NVMe SSD 660p"@
        } else if self.vendor_id == 0x8086 && self.device_id == 0x0A55 {
            "Intel NVMe SSD 670p"@
        } else if self.vendor_id == 0x8086 && self.device_id == 0xF1A5 {
            "Intel NVMe SSD DC P4510"@
        } else if self.vendor_id == 0x144D && self.device_id == 0xA808 {
            "Samsung NVMe SSD 970 EVO/PRO"@
        } else if self.vendor_id == 0x144D && self.device_id == 0xA809 {
            "Samsung NVMe SSD 980 PRO"@
        } else if self.vendor_id == 0x144D && self.device_id == 0xA80A {
            "Samsung NVMe SSD 990 PRO"@
        } else if self.vendor_id == 0x144D && self.device_id == 0xA824 {
            "Samsung NVMe SSD PM9A1"@
        } else if self.vendor_id == 0x15B7 && self.device_id == 0x5002 {
            "WD Black NVMe SSD"@
        } else if self.vendor_id == 0x15B7 && self.device_id == 0x5003 {
            "WD Blue NVMe SSD"@
        } else if self.vendor_id == 0x8086 && self.device_id == 0x02D3 {
            "Intel Comet Lake SATA AHCI"@
        } else if self.vendor_id == 0x8086 && self.device_id == 0x43D3 {
            "Intel Tiger Lake SATA AHCI"@
        } else if self.vendor_id == 0x8086 && self.device_id == 0xA102 {
            "Intel Sunrise Point SATA AHCI"@
        } else if self.vendor_id == 0x1022 && self.device_id == 0x7901 {
            "AMD FCH SATA Controller"@
        } else if self.vendor_id == 0x1022 && self.device_id == 0x7904 {
            "AMD FCH RAID Controller"@
        } else if self.vendor_id == 0x8086 && self.device_id == 0x3E92 {
            "Intel UHD Graphics 630"@
        } else if self.vendor_id == 0x8086 && self.device_id == 0x9BC8 {
            "Intel UHD Graphics 630"@
        } else if self.vendor_id == 0x8086 && self.device_id == 0x4C8A {
            "Intel Rocket Lake Graphics"@
        } else if self.vendor_id == 0x8086 && self.device_id == 0x4680 {
            "Intel Alder Lake Graphics"@
        } else if self.vendor_id == 0x10DE && self.device_id == 0x2204 {
            "NVIDIA GeForce RTX 3090"@
        } else if self.vendor_id == 0x10DE && self.device_id == 0x2206 {
            "NVIDIA GeForce RTX 3080"@
        } else if self.vendor_id == 0x10DE && self.device_id == 0x2208 {
            "NVIDIA GeForce RTX 3070"@
        } else if self.vendor_id == 0x10DE && self.device_id == 0x2486 {
            "NVIDIA GeForce RTX 3060"@
        } else if self.vendor_id == 0x1002 && self.device_id == 0x73BF {
            "AMD Radeon RX 6900 XT"@
        } else if self.vendor_id == 0x1002 && self.device_id == 0x73DF {
            "AMD Radeon RX 6700 XT"@
        } else if self.vendor_id == 0x1002 && self.device_id == 0x73FF {
            "AMD Radeon RX 6600 XT"@
        } else if self.class_code == 0x00 {
            "Unclassified Device"@
        } else if self.class_code == 0x01 {
            "Mass Storage Controller"@
        } else if self.class_code == 0x02 {
            "Network Controller"@
        } else if self.class_code == 0x03 {
            "Display Controller"@
        } else if self.class_code == 0x04 {
            "Multimedia Controller"@
        } else if self.class_code == 0x05 {
            "Memory Controller"@
        } else if self.class_code == 0x06 {
            "Bridge Device"@
        } else if self.class_code == 0x07 {
            "Communication Controller"@
        } else if self.class_code == 0x08 {
            "System Peripheral"@
        } else if self.class_code == 0x09 {
            "Input Device"@
        } else if self.class_code == 0x0A {
            "Docking Station"@
        } else if self.class_code == 0x0B {
            "Processor"@
        } else if self.class_code == 0x0C {
            "Serial Bus Controller"@
        } else if self.class_code == 0x0D {
            "Wireless Controller"@
        } else if self.class_code == 0x0E {
            "Intelligent IO Controller"@
        } else if self.class_code == 0x0F {
            "Satellite Controller"@
        } else if self.class_code == 0x10 {
            "Encryption Controller"@
        } else if self.class_code == 0x11 {
            "Signal Processing Controller"@
        } else {
            "Unknown PCI Device"@
        }
    }

    /// Human-readable name: the marketing name for a known vendor and
    /// device pair, else a generic name for the class code.
    pub fn device_name(&self) -> (r: &'static str)
        ensures
            r@ == self.spec_device_name(),
    {
        match (self.vendor_id, self.device_id) {
            (0x8086, 0x9D2F) => "Intel USB 3.0 XHCI Controller",
            (0x8086, 0xA12F) => "Intel USB 3.0 XHCI Controller",
            (0x8086, 0x9DED) => "Intel Cannon Point USB 3.1 XHCI",
            (0x8086, 0xA36D) => "Intel Cannon Lake USB 3.1 XHCI",
            (0x8086, 0x02ED) => "Intel Comet Lake USB 3.1 XHCI",
            (0x8086, 0x43ED) => "Intel Tiger Lake USB 3.2 XHCI",
            (0x8086, 0x51ED) => "Intel Alder Lake USB 3.2 XHCI",
            (0x8086, 0x7A60) => "Intel Raptor Lake USB 3.2 XHCI",
            (0x1022, 0x149C) => "AMD USB 3.1 XHCI Controller",
            (0x1022, 0x43D5) => "AMD USB 3.1 XHCI Controller",
            (0x1022, 0x15E0) => "AMD Ryzen USB 3.1 XHCI",
            (0x1022, 0x15E1) => "AMD Ryzen USB 3.1 XHCI",
            (0x1B21, 0x1142) => "ASMedia USB 3.0 XHCI Controller",
            (0x1B21, 0x2142) => "ASMedia USB 3.1 XHCI Controller",
            (0x1B21, 0x3242) => "ASMedia USB 3.2 XHCI Controller",
            (0x1106, 0x3483) => "VIA USB 3.0 XHCI Controller",
            (0x104C, 0x8241) => "TI USB 3.0 XHCI Controller",
            (0x1912, 0x0014) => "Renesas USB 3.0 XHCI Controller",
            (0x1912, 0x0015) => "Renesas USB 3.1 XHCI Controller",
            (0x8086, 0x15B8) => "Intel I219-V Gigabit Ethernet",
            (0x8086, 0x15D8) => "Intel I219-LM Gigabit Ethernet",
            (0x8086, 0x0D4E) => "Intel Ethernet I219",
            (0x8086, 0x125C) => "Intel I210 Gigabit Ethernet",
            (0x8086, 0x1539) => "Intel I211 Gigabit Ethernet",
            (0x8086, 0x10D3) => "Intel 82574L Gigabit Ethernet",
            (0x8086, 0x2723) => "Intel WiFi 6 AX200",
            (0x8086, 0x2725) => "Intel WiFi 6 AX201",
            (0x8086, 0x51F0) => "Intel WiFi 6E AX210",
            (0x8086, 0x272B) => "Intel WiFi 6E AX211",
            (0x8086, 0x7AF0) => "Intel WiFi 6E AX411",
            (0x8086, 0x24FD) => "Intel WiFi 5 AC 9560",
            (0x8086, 0x2526) => "Intel WiFi 5 AC 9260",
            (0x10EC, 0x8168) => "Realtek RTL8111/8168 Gigabit Ethernet",
            (0x10EC, 0x8125) => "Realtek RTL8125 2.5G Ethernet",
            (0x10EC, 0x8136) => "Realtek RTL810xE Fast Ethernet",
            (0x10EC, 0xB852) => "Realtek RTL8852BE WiFi 6",
            (0x10EC, 0xC852) => "Realtek RTL8852CE WiFi 6E",
            (0x168C, 0x003E) => "Qualcomm Atheros QCA6174 WiFi",
            (0x168C, 0x0042) => "Qualcomm Atheros QCA9377 WiFi",
            (0x168C, 0x003C) => "Qualcomm Atheros QCA9565 WiFi",
            (0x14E4, 0x43A0) => "Broadcom BCM4360 WiFi",
            (0x14E4, 0x43B1) => "Broadcom BCM4352 WiFi",
            (0x14E4, 0x4727) => "Broadcom BCM4313 WiFi",
            (0x8086, 0x0953) => "Intel NVMe SSD DC P3520",
            (0x8086, 0x0A54) => "Intel NVMe SSD 660p",
            (0x8086, 0x0A55) => "Intel NVMe SSD 670p",
            (0x8086, 0xF1A5) => "Intel NVMe SSD DC P4510",
            (0x144D, 0xA808) => "Samsung NVMe SSD 970 EVO/PRO",
            (0x144D, 0xA809) => "Samsung NVMe SSD 980 PRO",
            (0x144D, 0xA80A) => "Samsung NVMe SSD 990 PRO",
            (0x144D, 0xA824) => "Samsung NVMe SSD PM9A1",
            (0x15B7, 0x5002) => "WD Black NVMe SSD",
            (0x15B7, 0x5003) => "WD Blue NVMe SSD",
            (0x8086, 0x02D3) => "Intel Comet Lake SATA AHCI",
            (0x8086, 0x43D3) => "Intel Tiger Lake SATA AHCI",
            (0x8086, 0xA102) => "Intel Sunrise Point SATA AHCI",
            (0x1022, 0x7901) => "AMD FCH SATA Controller",
            (0x1022, 0x7904) => "AMD FCH RAID Controller",
            (0x8086, 0x3E92) => "Intel UHD Graphics 630",
            (0x8086, 0x9BC8) => "Intel UHD Graphics 630",
            (0x8086, 0x4C8A) => "Intel Rocket Lake Graphics",
            (0x8086, 0x4680) => "Intel Alder Lake Graphics",
            (0x10DE, 0x2204) => "NVIDIA GeForce RTX 3090",
            (0x10DE, 0x2206) => "NVIDIA GeForce RTX 3080",
            (0x10DE, 0x2208) => "NVIDIA GeForce RTX 3070",
            (0x10DE, 0x2486) => "NVIDIA GeForce RTX 3060",
            (0x1002, 0x73BF) => "AMD Radeon RX 6900 XT",
            (0x1002, 0x73DF) => "AMD Radeon RX 6700 XT",
            (0x1002, 0x73FF) => "AMD Radeon RX 6600 XT",
            _ => {
                match self.class_code {
                    0x00 => "Unclassified Device",
                    0x01 => "Mass Storage Controller",
                    0x02 => "Network Controller",
                    0x03 => "Display Controller",
                    0x04 => "Multimedia Controller",
                    0x05 => "Memory Controller",
                    0x06 => "Bridge Device",
                    0x07 => "Communication Controller",
                    0x08 => "System Peripheral",
                    0x09 => "Input Device",
                    0x0A => "Docking Station",
                    0x0B => "Processor",
                    0x0C => "Serial Bus Controller",
                    0x0D => "Wireless Controller",
                    0x0E => "Intelligent IO Controller",
                    0x0F => "Satellite Controller",
                    0x10 => "Encryption Controller",
                    0x11 => "Signal Processing Controller",
                    _ => "Unknown PCI Device",
                }
            },
        }
    }
}


/// Configuration-space address word for one register of one function:
/// the enable bit, then bus, device, function and the dword-aligned
/// offset.
pub open spec fn pci_address_spec(bus: u8, device: u8, function: u8, offset: u8) -> u32 {
    (1u32 << 31) | ((bus as u32) << 16) | ((device as u32) << 11) | ((function as u32) << 8) | (
    (offset as u32) & 0xFC)
}

/// Build the configuration-space address word.
pub fn pci_address(bus: u8, device: u8, function: u8, offset: u8) -> (r: u32)
    ensures
        r == pci_address_spec(bus, device, function, offset),
{
    (1u32 << 31) | ((bus as u32) << 16) | ((device as u32) << 11) | ((function as u32) << 8) | (
    (offset as u32) & 0xFC)
}

/// The byte at `offset` within its configuration dword.
pub fn config_byte_of_dword(value: u32, offset: u8) -> (r: u8)
    ensures
        r == (value >> (((offset & 3) as u32) * 8)) & 0xFF,
{
    proof {
        assert(offset & 3 < 4) by (bit_vector);
        assert((value >> (((offset & 3) as u32) * 8)) & 0xFF < 256) by (bit_vector)
            requires
                offset & 3 < 4,
        ;
    }
    ((value >> (((offset & 3) as u32) * 8)) & 0xFF) as u8
}

/// The 16-bit word at `offset` within its configuration dword.
pub fn config_word_of_dword(value: u32, offset: u8) -> (r: u16)
    ensures
        r == (value >> (((offset & 2) as u32) * 8)) & 0xFFFF,
{
    proof {
        assert(offset & 2 < 3) by (bit_vector);
        assert((value >> (((offset & 2) as u32) * 8)) & 0xFFFF < 65536) by (bit_vector)
            requires
                offset & 2 < 3,
        ;
    }
    ((value >> (((offset & 2) as u32) * 8)) & 0xFFFF) as u16
}

/// The configuration dword with the byte at `offset` replaced.
pub fn dword_with_byte(old_value: u32, offset: u8, value: u8) -> (r: u32)
    ensures
        r == (old_value & !(0xFFu32 << (((offset & 3) as u32) * 8))) | ((value as u32) << (((
        offset & 3) as u32) * 8)),
{
    proof {
        assert(offset & 3 < 4) by (bit_vector);
    }
    let shift: u32 = ((offset & 3) as u32) * 8;
    (old_value & !(0xFFu32 << shift)) | ((value as u32) << shift)
}

/// The configuration dword with the 16-bit word at `offset` replaced.
pub fn dword_with_word(old_value: u32, offset: u8, value: u16) -> (r: u32)
    ensures
        r == (old_value & !(0xFFFFu32 << (((offset & 2) as u32) * 8))) | ((value as u32) << (((
        offset & 2) as u32) * 8)),
{
    proof {
        assert(offset & 2 < 3) by (bit_vector);
    }
    let shift: u32 = ((offset & 2) as u32) * 8;
    (old_value & !(0xFFFFu32 << shift)) | ((value as u32) << shift)
}

/// Command register with the bus-master bit set (required for direct
/// memory access); the surrounding system writes it back.
pub fn enable_bus_mastering(command: u16) -> (r: u16)
    ensures
        r == command | 0x04,
{
    command | 0x04
}

/// Command register with the memory-space-enable bit set.
pub fn enable_memory_space(command: u16) -> (r: u16)
    ensures
        r == command | 0x02,
{
    command | 0x02
}

/// Command register with the I/O-space-enable bit set.
pub fn enable_io_space(command: u16) -> (r: u16)
    ensures
        r == command | 0x01,
{
    command | 0x01
}

/// Command register with the interrupt-disable bit set.
pub fn disable_interrupts(command: u16) -> (r: u16)
    ensures
        r == command | 0x0400,
{
    command | 0x0400
}

/// Position of one function's registers in a configuration-space
/// snapshot: 32 devices of 8 functions per bus.
pub open spec fn snapshot_index(bus: int, device: int, function: int) -> int {
    bus * 256 + device * 8 + function
}

/// Devices contributed by functions `1..f` of one multi-function slot,
/// in function order.
pub open spec fn funcs_prefix_spec(s: Seq<PciConfigRegs>, bus: int, device: int, f: int) -> Seq<
    PciDevice,
>
    decreases f,
{
    if f <= 1 {
        Seq::empty()
    } else {
        funcs_prefix_spec(s, bus, device, f - 1) + (match decode_device_spec(
            s[snapshot_index(bus, device, f - 1)],
            bus as u8,
            device as u8,
            (f - 1) as u8,
        ) {
            Some(d) => seq![d],
            None => Seq::<PciDevice>::empty(),
        })
    }
}

/// Devices contributed by one (bus, device) slot: nothing when function
/// 0 does not answer; function 0 alone for a single-function device;
/// function 0 plus whichever of functions 1 to 7 answer for a
/// multi-function device.
pub open spec fn slot_spec(s: Seq<PciConfigRegs>, bus: int, device: int) -> Seq<PciDevice> {
    match decode_device_spec(s[snapshot_index(bus, device, 0)], bus as u8, device as u8, 0) {
        None => Seq::empty(),
        Some(d0) => {
            if d0.header_type & 0x80 != 0 {
                seq![d0] + funcs_prefix_spec(s, bus, device, 8)
            } else {
                seq![d0]
            }
        },
    }
}

/// Devices of the first `n` slots of the snapshot, in scan order (slot
/// `k` is device `k % 32` of bus `k / 32`).
pub open spec fn scan_spec(s: Seq<PciConfigRegs>, n: int) -> Seq<PciDevice>
    decreases n,
{
    if n <= 0 {
        Seq::empty()
    } else {
        scan_spec(s, n - 1) + slot_spec(s, (n - 1) / 32, (n - 1) % 32)
    }
}

/// Walk a snapshot of the whole configuration space (256 buses of 32
/// devices of 8 functions, in address order) and decode every device
/// that answers, scanning the extra functions only of multi-function
/// devices.
pub fn scan_bus(snapshot: &Vec<PciConfigRegs>) -> (r: Vec<PciDevice>)
    requires
        snapshot@.len() == 65536,
    ensures
        r@ == scan_spec(snapshot@, 8192),
{
    let mut devices: Vec<PciDevice> = Vec::new();
    let mut bus: usize = 0;
    while bus < 256
        invariant
            0 <= bus <= 256,
            snapshot@.len() == 65536,
            devices@ == scan_spec(snapshot@, bus as int * 32),
        decreases 256 - bus,
    {
        let mut dev: usize = 0;
        while dev < 32
            invariant
                0 <= dev <= 32,
                0 <= bus < 256,
                snapshot@.len() == 65536,
                devices@ == scan_spec(snapshot@, bus as int * 32 + dev as int),
            decreases 32 - dev,
        {
            let ghost slot = bus as int * 32 + dev as int;
            let ghost pre = devices@;
            proof {
                assert(slot / 32 == bus as int && slot % 32 == dev as int) by (nonlinear_arith)
                    requires
                        slot == bus as int * 32 + dev as int,
                        0 <= dev as int && (dev as int) < 32,
                        0 <= bus as int,
                ;
                assert(0 <= bus as int * 256 + dev as int * 8 + 7 < 65536) by (nonlinear_arith)
                    requires
                        0 <= bus as int && (bus as int) < 256,
                        0 <= dev as int && (dev as int) < 32,
                ;
            }
            let base: usize = bus * 256 + dev * 8;
            match PciDevice::new(bus as u8, dev as u8, 0, &snapshot[base]) {
                None => {
                    proof {
                        assert(devices@ =~= scan_spec(snapshot@, slot + 1));
                    }
                },
                Some(d0) => {
                    devices.push(d0);
                    if d0.header_type & 0x80 != 0 {
                        let mut f: usize = 1;
                        while f < 8
                            invariant
                                1 <= f <= 8,
                                0 <= bus < 256,
                                0 <= dev < 32,
                                snapshot@.len() == 65536,
                                base as int == bus as int * 256 + dev as int * 8,
                                base + 8 <= 65536,
                                devices@ == pre + seq![d0] + funcs_prefix_spec(
                                    snapshot@,
                                    bus as int,
                                    dev as int,
                                    f as int,
                                ),
                            decreases 8 - f,
                        {
                            proof {
                                assert(snapshot_index(bus as int, dev as int, f as int)
                                    == base as int + f as int);
                            }
                            match PciDevice::new(bus as u8, dev as u8, f as u8, &snapshot[base
                                + f]) {
                                Some(df) => {
                                    devices.push(df);
                                    proof {
                                        assert(devices@ =~= pre + seq![d0] + funcs_prefix_spec(
                                            snapshot@,
                                            bus as int,
                                            dev as int,
                                            f as int + 1,
                                        ));
                                    }
                                },
                                None => {
                                    proof {
                                        assert(devices@ =~= pre + seq![d0] + funcs_prefix_spec(
                                            snapshot@,
                                            bus as int,
                                            dev as int,
                                            f as int + 1,
                                        ));
                                    }
                                },
                            }
                            f += 1;
                        }
                        proof {
                            assert(devices@ =~= scan_spec(snapshot@, slot + 1));
                        }
                    } else {
                        proof {
                            assert(devices@ =~= scan_spec(snapshot@, slot + 1));
                        }
                    }
                },
            }
            dev += 1;
        }
        proof {
            assert(bus as int * 32 + 32 == (bus as int + 1) * 32) by (nonlinear_arith);
        }
        bus += 1;
    }
    proof {
        assert(256int * 32 == 8192);
    }
    devices
}

/// The USB controllers among a list of discovered devices, in order.
pub fn scan_usb_controllers(devices: &Vec<PciDevice>) -> (r: Vec<PciDevice>)
    ensures
        r@ == devices@.filter(|d: PciDevice| d.class_code == 0x0C && d.subclass == 0x03),
{
    let mut out: Vec<PciDevice> = Vec::new();
    let mut i: usize = 0;
    while i < devices.len()
        invariant
            0 <= i <= devices@.len(),
            out@ == devices@.take(i as int).filter(
                |d: PciDevice| d.class_code == 0x0C && d.subclass == 0x03,
            ),
        decreases devices@.len() - i,
    {
        proof {
            reveal_with_fuel(Seq::filter, 2);
            assert(devices@.take(i as int + 1).drop_last() =~= devices@.take(i as int));
        }
        let d = devices[i];
        if d.is_usb_controller() {
            out.push(d);
        }
        i += 1;
    }
    proof {
        assert(devices@.take(devices@.len() as int) =~= devices@);
    }
    out
}

/// First device with the given vendor and device identifiers, if any.
pub fn find_device(vendor_id: u16, device_id: u16, devices: &Vec<PciDevice>) -> (r: Option<
    PciDevice,
>)
    ensures
        match r {
            Some(d) => {
                &&& exists|k: int|
                    0 <= k < devices@.len() && devices@[k] == d && (forall|j: int|
                        0 <= j < k ==> !(#[trigger] devices@[j].vendor_id == vendor_id
                            && devices@[j].device_id == device_id))
                &&& d.vendor_id == vendor_id
                &&& d.device_id == device_id
            },
            None => forall|k: int|
                0 <= k < devices@.len() ==> !(#[trigger] devices@[k].vendor_id == vendor_id
                    && devices@[k].device_id == device_id),
        },
{
    let mut i: usize = 0;
    while i < devices.len()
        invariant
            0 <= i <= devices@.len(),
            forall|k: int|
                0 <= k < i ==> !(#[trigger] devices@[k].vendor_id == vendor_id
                    && devices@[k].device_id == device_id),
        decreases devices@.len() - i,
    {
        let d = devices[i];
        if d.vendor_id == vendor_id && d.device_id == device_id {
            return Some(d);
        }
        i += 1;
    }
    None
}

/// Every device with the given class code, in order.
pub fn find_devices_by_class(class_code: u8, devices: &Vec<PciDevice>) -> (r: Vec<PciDevice>)
    ensures
        r@ == devices@.filter(|d: PciDevice| d.class_code == class_code),
{
    let mut out: Vec<PciDevice> = Vec::new();
    let mut i: usize = 0;
    while i < devices.len()
        invariant
            0 <= i <= devices@.len(),
            out@ == devices@.take(i as int).filter(|d: PciDevice| d.class_code == class_code),
        decreases devices@.len() - i,
    {
        proof {
            reveal_with_fuel(Seq::filter, 2);
            assert(devices@.take(i as int + 1).drop_last() =~= devices@.take(i as int));
        }
        let d = devices[i];
        if d.class_code == class_code {
            out.push(d);
        }
        i += 1;
    }
    proof {
        assert(devices@.take(devices@.len() as int) =~= devices@);
    }
    out
}

} // verus!
