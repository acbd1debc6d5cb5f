use vaxtify::dbus::Command as Signal;
use vaxtify::webext::{for_browser, read, Command, ErrorKind};

#[test]
fn protocol_reading() {
    let mut data: &[u8] = &[2, 0, 0, 0, 1, 2, 3, 4];
    let message = read(&mut data).unwrap();
    assert_eq!(message, [1, 2]);
    assert_eq!(data, [3, 4]);
}

#[test]
fn reading_eof() {
    let mut data: &[u8] = &[];
    assert_eq!(read(&mut data).unwrap_err().kind(), ErrorKind::UnexpectedEof);
}

#[test]
fn protocol_writing() {
    let mut data = Vec::new();
    vaxtify::webext::write(&[1, 2], &mut data).unwrap();
    assert_eq!(data, [2, 0, 0, 0, 1, 2]);
}

#[test]
fn reading_short_body() {
    let mut data: &[u8] = &[3, 0, 0, 0, 1, 2];
    assert_eq!(read(&mut data).unwrap_err().kind(), ErrorKind::UnexpectedEof);
    assert_eq!(data, [3, 0, 0, 0, 1, 2]);
}

#[test]
fn reading_long_length() {
    let mut input = Vec::new();
    vaxtify::webext::write(&vec![7u8; 300], &mut input).unwrap();
    assert_eq!(&input[..4], &[44, 1, 0, 0]);
    let mut data: &[u8] = &input;
    assert_eq!(read(&mut data).unwrap(), vec![7u8; 300]);
    assert!(data.is_empty());
}

#[test]
fn frame_length_little_endian() {
    assert_eq!(vaxtify::webext::le_u32(&[1, 2, 3, 4]), 0x04030201);
}

#[test]
fn signals_for_one_browser() {
    assert_eq!(for_browser(&Signal::TabClose { pid: 5, tab: 9 }, 5), Some(Command::Close { tab: 9 }));
    assert_eq!(for_browser(&Signal::TabClose { pid: 5, tab: 9 }, 6), None);
    assert_eq!(for_browser(&Signal::TabCreateEmpty { pid: 6 }, 6), Some(Command::CreateEmpty {}));
    assert_eq!(for_browser(&Signal::Refresh {}, 1), Some(Command::Refresh {}));
}
