use auto_shortcut::inspect::{
    assemble, getProgramArch, inspect, is_gui_program, parse_header, InspectError, PeHeader,
};
use auto_shortcut::scoring::Architecture;

fn put16(image: &mut [u8], at: usize, value: u16) {
    image[at..at + 2].copy_from_slice(&value.to_le_bytes());
}

fn put32(image: &mut [u8], at: usize, value: u32) {
    image[at..at + 4].copy_from_slice(&value.to_le_bytes());
}

/// A PE32+ image that consists of its headers alone.
fn image(machine: u16, subsystem: u16) -> Vec<u8> {
    let mut image = vec![0u8; 512];
    image[0] = b'M';
    image[1] = b'Z';
    let pe = 0x80usize;
    put32(&mut image, 0x3C, pe as u32);
    image[pe..pe + 4].copy_from_slice(b"PE\0\0");
    let coff = pe + 4;
    put16(&mut image, coff, machine);
    put16(&mut image, coff + 2, 0);
    put16(&mut image, coff + 16, 240);
    put16(&mut image, coff + 18, 0x0022);
    let optional = coff + 20;
    put16(&mut image, optional, 0x020B);
    put32(&mut image, optional + 24, 0x0040_0000);
    put32(&mut image, optional + 32, 0x1000);
    put32(&mut image, optional + 36, 0x200);
    put32(&mut image, optional + 56, 0x1000);
    put32(&mut image, optional + 60, 0x200);
    put16(&mut image, optional + 68, subsystem);
    put32(&mut image, optional + 108, 16);
    image
}

#[test]
fn headers_are_read() {
    let gui = image(0x8664, 2);
    assert_eq!(getProgramArch(&gui), Ok(0x8664));
    assert_eq!(is_gui_program(&gui), Ok(true));
    assert_eq!(
        parse_header(&gui),
        Ok(PeHeader { machine: 0x8664, subsystem: Some(2), certificate_size: None })
    );

    let console = image(0xAA64, 3);
    assert_eq!(getProgramArch(&console), Ok(0xAA64));
    assert_eq!(is_gui_program(&console), Ok(false));

    let metadata = inspect(&console, true, false).unwrap();
    assert!(!metadata.is_gui);
    assert!(metadata.has_icon);
    assert!(!metadata.has_description);
    assert!(!metadata.has_signature);
    assert_eq!(metadata.architecture, Architecture::Arm64);
    assert_eq!(metadata.size_bytes, 512);
}

#[test]
fn other_bytes_are_malformed() {
    assert_eq!(getProgramArch(&[]), Err(InspectError::Malformed));
    assert_eq!(getProgramArch(b"not a program"), Err(InspectError::Malformed));
    assert_eq!(is_gui_program(&[0u8; 600]), Err(InspectError::Malformed));
    assert_eq!(inspect(b"MZ", false, false), Err(InspectError::Malformed));
    let mut broken = image(0x8664, 2);
    broken[0x80] = b'X';
    assert_eq!(parse_header(&broken), Err(InspectError::Malformed));
}

#[test]
fn inspection_is_assembled_from_the_header() {
    let header = PeHeader { machine: 0x014c, subsystem: Some(2), certificate_size: Some(4096) };
    assert_eq!(header.gui(), Ok(true));
    assert!(header.signed());
    let metadata = assemble(Ok(header), 2_000_000, false, true).unwrap();
    assert!(metadata.is_gui);
    assert!(metadata.has_signature);
    assert!(metadata.has_description);
    assert!(!metadata.has_icon);
    assert_eq!(metadata.architecture, Architecture::X86);
    assert_eq!(metadata.size_bytes, 2_000_000);

    let unsigned = PeHeader { machine: 0x014c, subsystem: Some(3), certificate_size: Some(0) };
    assert!(!unsigned.signed());
    assert_eq!(unsigned.gui(), Ok(false));

    let bare = PeHeader { machine: 0x8664, subsystem: None, certificate_size: None };
    assert_eq!(bare.gui(), Err(InspectError::NoOptionalHeader));
    assert_eq!(assemble(Ok(bare), 1, true, true), Err(InspectError::NoOptionalHeader));
    assert_eq!(assemble(Err(InspectError::Malformed), 1, true, true), Err(InspectError::Malformed));
}
