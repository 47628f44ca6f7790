use aetherion::usb::{UsbDevice, UsbKeyboard, EndpointDescriptor, EndpointTransferType};

fn sample_device() -> UsbDevice {
    UsbDevice {
        vendor_id: 0x046d,
        product_id: 0xc534,
        device_class: 0x03,
        device_subclass: 0x01,
        protocol: 0x01,
        max_packet_size: 8,
        manufacturer: 1,
        product: 2,
        serial_number: 0,
    }
}

#[test]
fn test_usb_device_creation() {
    let device = UsbDevice {
        vendor_id: 0x046d,
        product_id: 0xc534,
        device_class: 0x03,
        device_subclass: 0x01,
        protocol: 0x01,
        max_packet_size: 8,
        manufacturer: 1,
        product: 2,
        serial_number: 0,
    };

    assert_eq!(device.vendor_id, 0x046d);
    assert_eq!(device.device_class, 0x03); // HID class
}

#[test]
fn test_endpoint_descriptor_parsing() {
    let endpoint = EndpointDescriptor {
        length: 7,
        descriptor_type: 5,
        endpoint_address: 0x81, // IN, endpoint 1
        attributes: 0x03,       // Interrupt
        max_packet_size: 8,
        interval: 10,
    };

    assert_eq!(endpoint.endpoint_number(), 1);
    assert!(endpoint.is_in());
    assert_eq!(endpoint.transfer_type(), EndpointTransferType::Interrupt);
}

#[test]
fn test_endpoint_descriptor_out_bulk() {
    let endpoint = EndpointDescriptor {
        length: 7,
        descriptor_type: 5,
        endpoint_address: 0x02, // OUT, endpoint 2
        attributes: 0x02,       // Bulk
        max_packet_size: 64,
        interval: 0,
    };
    assert_eq!(endpoint.endpoint_number(), 2);
    assert!(!endpoint.is_in());
    assert_eq!(endpoint.transfer_type(), EndpointTransferType::Bulk);
}

#[test]
fn test_scancode_to_ascii_lowercase() {
    let keyboard = UsbKeyboard {
        device: sample_device(),
        endpoint: 1,
        buffer: [0; 8],
        modifiers: 0, // No shift
        last_keys: [0; 6],
    };

    assert_eq!(keyboard.scancode_to_ascii(0x04), Some('a'));
    assert_eq!(keyboard.scancode_to_ascii(0x1D), Some('z'));
    assert_eq!(keyboard.scancode_to_ascii(0x2C), Some(' '));
}

#[test]
fn test_scancode_to_ascii_uppercase() {
    let keyboard = UsbKeyboard {
        device: sample_device(),
        endpoint: 1,
        buffer: [0; 8],
        modifiers: 0x02, // Left shift
        last_keys: [0; 6],
    };

    assert_eq!(keyboard.scancode_to_ascii(0x04), Some('A'));
    assert_eq!(keyboard.scancode_to_ascii(0x1D), Some('Z'));
}

#[test]
fn test_scancode_numbers() {
    let keyboard = UsbKeyboard {
        device: sample_device(),
        endpoint: 1,
        buffer: [0; 8],
        modifiers: 0,
        last_keys: [0; 6],
    };

    assert_eq!(keyboard.scancode_to_ascii(0x1E), Some('1'));
    assert_eq!(keyboard.scancode_to_ascii(0x27), Some('0'));
}

#[test]
fn test_scancode_special_keys() {
    let keyboard = UsbKeyboard {
        device: sample_device(),
        endpoint: 1,
        buffer: [0; 8],
        modifiers: 0,
        last_keys: [0; 6],
    };

    assert_eq!(keyboard.scancode_to_ascii(0x28), Some('\n')); // Enter
    assert_eq!(keyboard.scancode_to_ascii(0x2B), Some('\t')); // Tab
    assert_eq!(keyboard.scancode_to_ascii(0x2A), Some('\x08')); // Backspace
}

#[test]
fn test_scancode_shifted_digits() {
    let keyboard = UsbKeyboard {
        device: sample_device(),
        endpoint: 1,
        buffer: [0; 8],
        modifiers: 0x20, // Right shift
        last_keys: [0; 6],
    };
    assert_eq!(keyboard.scancode_to_ascii(0x1E), Some('!'));
    assert_eq!(keyboard.scancode_to_ascii(0x27), Some(')'));
}

#[test]
fn test_scancode_unknown_code() {
    let keyboard = UsbKeyboard {
        device: sample_device(),
        endpoint: 1,
        buffer: [0; 8],
        modifiers: 0,
        last_keys: [0; 6],
    };
    assert_eq!(keyboard.scancode_to_ascii(0x00), None);
    assert_eq!(keyboard.scancode_to_ascii(0xF0), None);
}
