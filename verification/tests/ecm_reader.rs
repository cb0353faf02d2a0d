use newcamd_lib::ecm_reader::{check_url, EcmReader};

const PID: u16 = 0x1234;

fn section(table_id: u8, content: u8) -> Vec<u8> {
    vec![table_id, 0x30, 0x05, content, 1, 2, 3, 4]
}

fn packet(pid: u16, counter: u8, section: &[u8]) -> Vec<u8> {
    let mut packet = vec![0x47, 0x40 | (pid >> 8) as u8, pid as u8, 0x10 | counter, 0];
    packet.extend_from_slice(section);
    packet.resize(188, 0xFF);
    packet
}

fn stream(packets: &[Vec<u8>]) -> Vec<u8> {
    packets.concat()
}

#[test]
fn ecms_are_found_in_a_stream() {
    let mut reader = EcmReader::new(PID);
    let chunk = stream(&[packet(PID, 0, &section(0x80, 9)), packet(PID, 1, &section(0x81, 8))]);
    assert_eq!(reader.read(&chunk), [section(0x80, 9), section(0x81, 8)]);
}

#[test]
fn an_ecm_is_requested_when_its_parity_changes() {
    let mut reader = EcmReader::new(PID);
    let chunk = stream(&[
        packet(PID, 0, &section(0x80, 1)),
        packet(PID, 1, &section(0x80, 2)),
        packet(PID, 2, &section(0x81, 3)),
        packet(PID, 3, &section(0x81, 4)),
        packet(PID, 4, &section(0x80, 5)),
    ]);
    assert_eq!(
        reader.read(&chunk),
        [section(0x80, 1), section(0x81, 3), section(0x80, 5)]
    );
    assert!(reader.read(&packet(PID, 5, &section(0x80, 6))).is_empty());
    assert_eq!(reader.read(&packet(PID, 6, &section(0x81, 7))), [section(0x81, 7)]);
}

#[test]
fn other_sections_and_other_pids_do_not_count() {
    let mut reader = EcmReader::new(PID);
    let chunk = stream(&[
        packet(PID, 0, &section(0x82, 1)),
        packet(0x0034, 0, &section(0x80, 2)),
        packet(PID, 1, &section(0x00, 3)),
        packet(PID, 2, &section(0x81, 4)),
    ]);
    assert_eq!(reader.read(&chunk), [section(0x81, 4)]);
}

#[test]
fn it_makes_no_difference_how_a_stream_arrives() {
    let chunk = stream(&[
        packet(PID, 0, &section(0x80, 1)),
        packet(0x0100, 0, &section(0x80, 2)),
        packet(PID, 1, &section(0x81, 3)),
        packet(PID, 2, &section(0x80, 4)),
    ]);
    let whole = EcmReader::new(PID).read(&chunk);
    assert_eq!(whole.len(), 3);
    for size in [1usize, 7, 100, 188, 189, 500] {
        let mut reader = EcmReader::new(PID);
        let mut parts = Vec::new();
        for part in chunk.chunks(size) {
            parts.extend(reader.read(part));
        }
        assert_eq!(parts, whole);
    }
}

#[test]
fn a_section_may_span_packets() {
    let mut long = vec![0x80, 0x30, 200];
    long.extend((0..200u8).map(|i| i));
    let mut second = vec![0x47, (PID >> 8) as u8, PID as u8, 0x11];
    second.extend_from_slice(&long[183..]);
    second.resize(188, 0xFF);
    let mut first = packet(PID, 0, &long[..183]);
    first.truncate(188);
    let mut reader = EcmReader::new(PID);
    assert!(reader.read(&first).is_empty());
    assert_eq!(reader.read(&second), [long]);
}

#[test]
fn sections_are_selected_by_parity() {
    let mut reader = EcmReader::new(PID);
    assert!(!reader.take_section(&[]));
    assert!(!reader.take_section(&[0x82]));
    assert!(reader.take_section(&[0x81]));
    assert!(!reader.take_section(&[0x81]));
    assert!(reader.take_section(&[0x80]));
    let selected = reader.select_ecms(vec![vec![0x80, 1], vec![0x81, 2], vec![0x81, 3], vec![]]);
    assert_eq!(selected, [vec![0x81, 2]]);
}

#[test]
fn only_http_is_supported() {
    assert_eq!(check_url("http://example.org/stream"), Ok(()));
    for url in ["https://example.org", "HTTP://example.org", "http:/", ""] {
        assert_eq!(check_url(url), Err("only http:// URLs are supported".to_string()));
    }
}
