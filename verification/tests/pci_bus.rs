use aetherion::pci::{
    PciConfigRegs, PciDevice, PciClass, UsbControllerType, BarType, MemoryType, pci_address,
    config_byte_of_dword, config_word_of_dword, dword_with_byte, dword_with_word,
    enable_bus_mastering, enable_memory_space, enable_io_space, disable_interrupts, scan_bus,
    scan_usb_controllers, find_device, find_devices_by_class,
};

fn empty_regs() -> PciConfigRegs {
    PciConfigRegs {
        reg00: 0xFFFF_FFFF,
        reg08: 0,
        reg0c: 0,
        reg10: 0,
        reg14: 0,
        reg18: 0,
        reg1c: 0,
        reg20: 0,
        reg24: 0,
        reg3c: 0,
    }
}

/// Registers of a USB 3.0 host controller as a test fixture.
fn xhci_regs() -> PciConfigRegs {
    PciConfigRegs {
        reg00: (0x1142u32 << 16) | 0x1B21, // ASMedia XHCI
        reg08: (0x0Cu32 << 24) | (0x03u32 << 16) | (0x30u32 << 8) | 0x01,
        reg0c: 0,
        reg10: 0xFEDC_0004,
        reg14: 0,
        reg18: 0,
        reg1c: 0,
        reg20: 0,
        reg24: 0,
        reg3c: (0x01u32 << 8) | 0x0B,
    }
}

#[test]
fn test_pci_device_decode() {
    let d = PciDevice::new(2, 3, 0, &xhci_regs()).unwrap();
    assert_eq!(d.bus, 2);
    assert_eq!(d.device, 3);
    assert_eq!(d.function, 0);
    assert_eq!(d.vendor_id, 0x1B21);
    assert_eq!(d.device_id, 0x1142);
    assert_eq!(d.class_code, 0x0C);
    assert_eq!(d.subclass, 0x03);
    assert_eq!(d.prog_if, 0x30);
    assert_eq!(d.revision_id, 0x01);
    assert_eq!(d.interrupt_line, 0x0B);
    assert_eq!(d.interrupt_pin, 0x01);
}

#[test]
fn test_pci_device_absent() {
    assert!(PciDevice::new(0, 0, 0, &empty_regs()).is_none());
}

#[test]
fn test_pci_classification() {
    let d = PciDevice::new(0, 1, 0, &xhci_regs()).unwrap();
    assert!(d.is_usb_controller());
    assert!(!d.is_network_controller());
    assert!(!d.is_storage_controller());
    assert!(!d.is_display_controller());
    assert!(!d.is_bluetooth_controller());
    assert!(!d.is_nvme_controller());
    assert!(!d.is_sata_controller());
    assert!(!d.is_wifi_controller());
    assert!(!d.is_ethernet_controller());
    assert_eq!(d.usb_controller_type(), Some(UsbControllerType::Xhci));
}

#[test]
fn test_pci_class_codes() {
    assert_eq!(PciClass::SerialBus.code(), 0x0C);
    assert_eq!(PciClass::Network.code(), 0x02);
    assert_eq!(PciClass::MassStorage.code(), 0x01);
}

#[test]
fn test_bar_type_decoding() {
    let d = PciDevice::new(0, 1, 0, &xhci_regs()).unwrap();
    // bar0 has bit 2 set in the type field: a 64-bit memory region
    match d.get_bar_type(0) {
        Some(BarType::MemorySpace { address, mem_type, prefetchable }) => {
            assert_eq!(address, 0xFEDC_0000);
            assert_eq!(mem_type, MemoryType::Bit64);
            assert!(!prefetchable);
        },
        other => panic!("unexpected bar type {:?}", other),
    }
    // unimplemented and out-of-range registers decode to nothing
    assert_eq!(d.get_bar_type(1), None);
    assert_eq!(d.get_bar_type(6), None);
}

#[test]
fn test_bar_type_io_space() {
    let mut regs = xhci_regs();
    regs.reg10 = 0x0000_C001;
    let d = PciDevice::new(0, 1, 0, &regs).unwrap();
    assert_eq!(d.get_bar_type(0), Some(BarType::IoSpace(0x0000_C000)));
}

#[test]
fn test_device_name_lookup() {
    let d = PciDevice::new(0, 1, 0, &xhci_regs()).unwrap();
    assert_eq!(d.device_name(), "ASMedia USB 3.0 XHCI Controller");
    let mut regs = xhci_regs();
    regs.reg00 = (0x9999u32 << 16) | 0x9999;
    let generic = PciDevice::new(0, 1, 0, &regs).unwrap();
    assert_eq!(generic.device_name(), "Serial Bus Controller");
}

#[test]
fn test_pci_address_encoding() {
    let addr = pci_address(1, 2, 3, 0x3D);
    assert_eq!(addr, (1u32 << 31) | (1 << 16) | (2 << 11) | (3 << 8) | 0x3C);
}

#[test]
fn test_config_dword_access() {
    let dword = 0x4433_2211u32;
    assert_eq!(config_byte_of_dword(dword, 0x09), 0x22);
    assert_eq!(config_word_of_dword(dword, 0x0A), 0x4433);
    assert_eq!(dword_with_byte(dword, 0x09, 0xAA), 0x4433_AA11);
    assert_eq!(dword_with_word(dword, 0x0A, 0xBEEF), 0xBEEF_2211);
}

#[test]
fn test_command_register_updates() {
    assert_eq!(enable_bus_mastering(0x0000), 0x0004);
    assert_eq!(enable_memory_space(0x0000), 0x0002);
    assert_eq!(enable_io_space(0x0000), 0x0001);
    assert_eq!(disable_interrupts(0x0003), 0x0403);
    // already-set bits stay set
    assert_eq!(enable_bus_mastering(0x0407), 0x0407);
}

#[test]
fn test_scan_bus_snapshot() {
    let mut snapshot = vec![empty_regs(); 65536];
    // single-function device at bus 0, device 1
    snapshot[0 * 256 + 1 * 8] = xhci_regs();
    // multi-function device at bus 2, device 4, functions 0 and 2
    let mut mf = xhci_regs();
    mf.reg0c = 0x0080u32 << 16; // multi-function header type
    mf.reg08 = (0x02u32 << 24) | (0x00u32 << 16); // Ethernet
    snapshot[2 * 256 + 4 * 8] = mf;
    let mut f2 = xhci_regs();
    f2.reg08 = (0x01u32 << 24) | (0x08u32 << 16) | (0x02u32 << 8); // NVMe
    snapshot[2 * 256 + 4 * 8 + 2] = f2;
    // function of a single-function device: never scanned
    snapshot[0 * 256 + 1 * 8 + 1] = xhci_regs();

    let devices = scan_bus(&snapshot);
    assert_eq!(devices.len(), 3);
    assert_eq!((devices[0].bus, devices[0].device, devices[0].function), (0, 1, 0));
    assert_eq!((devices[1].bus, devices[1].device, devices[1].function), (2, 4, 0));
    assert_eq!((devices[2].bus, devices[2].device, devices[2].function), (2, 4, 2));

    let usb = scan_usb_controllers(&devices);
    assert_eq!(usb.len(), 1);
    assert_eq!(usb[0].bus, 0);

    let storage = find_devices_by_class(0x01, &devices);
    assert_eq!(storage.len(), 1);
    assert!(storage[0].is_nvme_controller());

    let found = find_device(0x1B21, 0x1142, &devices).unwrap();
    assert_eq!(found.bus, 0);
    assert!(find_device(0xDEAD, 0xBEEF, &devices).is_none());
}
