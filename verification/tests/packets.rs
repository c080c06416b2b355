use e131_divider::input::validate;
use e131_divider::output::e131_packet;

fn packet(name: &[u8], universe: u16, values: &[u8]) -> Vec<u8> {
    let size = values.len() as u16;
    let mut bytes = vec![
        0x00, 0x10, 0x00, 0x00, 0x41, 0x53, 0x43, 0x2D, 0x45, 0x31, 0x2E, 0x31, 0x37, 0x00, 0x00,
        0x00,
    ];
    bytes.extend_from_slice(&(0x7000 | (110 + size)).to_be_bytes());
    bytes.extend_from_slice(&[0, 0, 0, 4]);
    bytes.extend_from_slice(&[0xcd; 16]);
    bytes.extend_from_slice(&(0x7000 | (88 + size)).to_be_bytes());
    bytes.extend_from_slice(&[0, 0, 0, 2]);
    bytes.extend_from_slice(name);
    bytes.resize(108, 0);
    bytes.extend_from_slice(&[100, 1, 2, 3, 4]);
    bytes.extend_from_slice(&universe.to_be_bytes());
    bytes.extend_from_slice(&(0x7000 | (11 + size)).to_be_bytes());
    bytes.extend_from_slice(&[0x02, 0xa1, 0x00, 0x00, 0x00, 0x01]);
    bytes.extend_from_slice(&(1 + size).to_be_bytes());
    bytes.push(0);
    bytes.extend_from_slice(values);
    bytes
}

fn rejected_with(at: usize, value: u8) {
    let mut bytes = packet(b"desk", 7, &[1, 2, 3]);
    assert_ne!(bytes[at], value);
    bytes[at] = value;
    assert!(validate(&bytes).is_none(), "byte {}", at);
}

#[test]
fn valid_packet_gives_name_universe_and_values() {
    let bytes = packet(b"desk", 0x0207, &[1, 2, 3]);
    let (name, universe, values) = validate(&bytes).unwrap();
    assert_eq!(name.len(), 64);
    assert_eq!(name.trim_end_matches('\0'), "desk");
    assert_eq!(universe, 0x0207);
    assert_eq!(values, &[1, 2, 3]);
}

#[test]
fn packet_without_values_is_valid() {
    let bytes = packet(b"desk", 1, &[]);
    assert_eq!(bytes.len(), 126);
    let (_, universe, values) = validate(&bytes).unwrap();
    assert_eq!(universe, 1);
    assert!(values.is_empty());
}

#[test]
fn name_is_decoded_as_utf8() {
    let bytes = packet("Bühne €".as_bytes(), 1, &[5]);
    let (name, _, _) = validate(&bytes).unwrap();
    assert_eq!(name.trim_end_matches('\0'), "Bühne €");
}

#[test]
fn name_that_is_not_utf8_is_rejected() {
    assert!(validate(&packet(&[0xff, 0xfe], 1, &[5])).is_none());
    // A character cut off by the end of the field
    assert!(validate(&packet(&[0xc3; 64], 1, &[5])).is_none());
}

#[test]
fn short_packets_are_rejected() {
    assert!(validate(&Vec::new()).is_none());
    let bytes = packet(b"desk", 1, &[]);
    assert!(validate(&bytes[..125].to_vec()).is_none());
}

#[test]
fn truncated_and_extended_packets_are_rejected() {
    let mut bytes = packet(b"desk", 1, &[1, 2, 3]);
    bytes.push(4);
    assert!(validate(&bytes).is_none());
    bytes.pop();
    bytes.pop();
    assert!(validate(&bytes).is_none());
}

#[test]
fn root_layer_is_checked() {
    rejected_with(0, 1);
    rejected_with(15, 1);
    // Flags, length and vector
    rejected_with(16, 0x60);
    rejected_with(17, 0);
    rejected_with(21, 3);
}

#[test]
fn framing_layer_is_checked() {
    rejected_with(38, 0xf0);
    rejected_with(39, 0);
    rejected_with(43, 1);
}

#[test]
fn dmp_layer_is_checked() {
    rejected_with(115, 0x80);
    rejected_with(116, 0);
    rejected_with(117, 3);
    rejected_with(122, 2);
    rejected_with(124, 5);
    rejected_with(125, 1);
}

#[test]
fn sender_priority_and_options_are_ignored() {
    let mut bytes = packet(b"desk", 9, &[1]);
    for i in (22..38).chain(108..113) {
        bytes[i] = 0xee;
    }
    let (name, universe, values) = validate(&bytes).unwrap();
    assert_eq!((name.trim_end_matches('\0'), universe, values), ("desk", 9, &[1u8][..]));
}

#[test]
fn packets_for_more_than_a_universe_are_rejected() {
    let longest = packet(b"desk", 1, &[1u8; 512]);
    assert_eq!(longest.len(), 638);
    let (_, _, values) = validate(&longest).unwrap();
    assert_eq!(values, &[1u8; 512]);
    let longer = packet(b"desk", 1, &[1u8; 513]);
    assert_eq!(longer.len(), 639);
    assert!(validate(&longer).is_none());
    assert!(validate(&packet(b"desk", 1, &vec![1u8; 0xfff - 110])).is_none());
}

#[test]
fn sent_packet_is_valid() {
    let mut data = [0u8; 512];
    data[0] = 1;
    data[511] = 255;
    let packet = e131_packet(&data, 0x1234, 77);
    let bytes = packet.to_vec();
    let (name, universe, values) = validate(&bytes).unwrap();
    assert_eq!(name.trim_end_matches('\0'), "E1.31 Divider");
    assert_eq!(name.len(), 64);
    assert_eq!(universe, 0x1234);
    assert_eq!(values, &data[..]);
}

#[test]
fn sent_packet_has_the_bytes_of_its_fields() {
    let packet = e131_packet(&[7u8; 512], 0x0102, 200);
    assert_eq!(packet[..18], [0, 16, 0, 0, 65, 83, 67, 45, 69, 49, 46, 49, 55, 0, 0, 0, 0x72, 0x6e]);
    assert_eq!(packet[111], 200);
    assert_eq!(packet[113..115], [1, 2]);
    assert_eq!(packet[115..126], [0x72, 0x0b, 0x02, 0xa1, 0, 0, 0, 1, 2, 1, 0]);
    assert!(packet[126..].iter().all(|&value| value == 7));
}
