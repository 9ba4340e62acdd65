use fpga_console::devices::{parse_device_line, parse_devices, select_device, SelectionError};

#[test]
fn listing_yields_names_in_order() {
    let r = parse_devices(b"1) CableA (USB)\n2) CableB (USB)\nnoise line\n");
    assert_eq!(r, vec!["CableA (USB)".to_string(), "CableB (USB)".to_string()]);
}

#[test]
fn crlf_listing_and_unterminated_last_line() {
    let r = parse_devices(b"Info: scanning\r\n1) USB-Blaster [1-1]\r\n  010F30DD   10CL025(Y|Z)\r\n12)DE-SoC [2-3]");
    assert_eq!(r, vec!["USB-Blaster [1-1]".to_string(), "DE-SoC [2-3]".to_string()]);
}

#[test]
fn no_devices_is_empty() {
    assert!(parse_devices(b"").is_empty());
    assert!(parse_devices(b"Error: no JTAG hardware available\n").is_empty());
}

#[test]
fn line_pattern_details() {
    assert_eq!(parse_device_line(b"3)name"), Some("name".to_string()));
    assert_eq!(parse_device_line(b"3)   spaced"), Some("spaced".to_string()));
    assert_eq!(parse_device_line(b"3)  "), Some(" ".to_string()));
    assert_eq!(parse_device_line(b"3)"), None);
    assert_eq!(parse_device_line(b") name"), None);
    assert_eq!(parse_device_line(b"x1) name"), None);
    assert_eq!(parse_device_line(b" 1) name"), None);
}

#[test]
fn unicode_digits_and_spaces_follow_the_pattern() {
    assert_eq!(parse_device_line("1)\u{a0}Name".as_bytes()), Some("Name".to_string()));
    assert_eq!(parse_device_line("\u{661}) Arabic".as_bytes()), Some("Arabic".to_string()));
    assert_eq!(parse_device_line("1) caf\u{e9}".as_bytes()), Some("caf\u{e9}".to_string()));
}

#[test]
fn selection_from_empty_list_is_rejected() {
    let none: Vec<String> = Vec::new();
    assert_eq!(select_device(&none, 0), Err(SelectionError::NoDevices));
    assert_eq!(select_device(&none, 5), Err(SelectionError::NoDevices));
}

#[test]
fn selection_index_checks() {
    let devs = vec!["CableA (USB)".to_string(), "CableB (USB)".to_string()];
    assert_eq!(select_device(&devs, 1), Ok("CableB (USB)".to_string()));
    assert_eq!(
        select_device(&devs, 2),
        Err(SelectionError::IndexOutOfRange { index: 2, available: 2 })
    );
}
