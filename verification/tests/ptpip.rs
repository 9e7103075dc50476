use dusklapse::camera::ptpip::{
    command_ack, event_ack, frame_packet, is_jpeg, on_event_channel_packet, operation_payload,
    parse_device_info, parse_event, parse_header, parse_object_info, parse_prop_desc,
    parse_u32_array, prop_value_payload, described_property, response_outcome, utf16z,
    EventChannelAction, Exchange, Form, PtpValue, Reader, Step, Transactions, EVENT,
    FORMAT_EXIF_JPEG, FORMAT_JFIF, INIT_COMMAND_ACK, INIT_EVENT_ACK, INIT_FAIL,
    OP_GET_DEVICE_PROP_DESC, PROBE_REQUEST, TYPE_UINT16, TYPE_UINT32, TYPE_UINT8,
};
use dusklapse::camera::error::CameraError;

#[test]
fn reads_a_ptp_string() {
    // count 3 (including terminator), then "Z6\0" as UTF-16LE.
    let data = [3, b'Z', 0, b'6', 0, 0, 0];
    assert_eq!(Reader::new(&data).ptp_string().unwrap(), "Z6");
}

#[test]
fn an_empty_ptp_string_is_a_bare_zero() {
    let data = [0u8];
    assert_eq!(Reader::new(&data).ptp_string().unwrap(), "");
}

#[test]
fn a_truncated_reply_is_an_error_not_a_panic() {
    let data = [9, b'Z', 0];
    assert!(Reader::new(&data).ptp_string().is_err());
    assert!(Reader::new(&[1u8]).u32().is_err());
}

#[test]
fn reads_a_uint16_array() {
    let mut data = 3u32.to_le_bytes().to_vec();
    for value in [0x1001u16, 0x1002, 0x9207] {
        data.extend_from_slice(&value.to_le_bytes());
    }
    assert_eq!(
        Reader::new(&data).u16_array().unwrap(),
        vec![0x1001, 0x1002, 0x9207]
    );
}

/// Byte-for-byte against a real Z 6 reply for FNumber: UINT16, writable, enum of 20 values,
/// currently f/2.8.
#[test]
fn parses_a_prop_desc_enumeration() {
    let values: [u16; 20] = [
        180, 200, 220, 250, 280, 320, 350, 400, 450, 500, 560, 630, 710, 800, 900, 1000, 1100,
        1300, 1400, 1600,
    ];

    let mut data = Vec::new();
    data.extend_from_slice(&0x5007u16.to_le_bytes()); // FNumber
    data.extend_from_slice(&TYPE_UINT16.to_le_bytes());
    data.push(1); // writable
    data.extend_from_slice(&280u16.to_le_bytes()); // factory default
    data.extend_from_slice(&280u16.to_le_bytes()); // current
    data.push(2); // enumeration
    data.extend_from_slice(&(values.len() as u16).to_le_bytes());
    for value in values {
        data.extend_from_slice(&value.to_le_bytes());
    }

    let desc = parse_prop_desc(&data).unwrap();
    assert_eq!(desc.property, 0x5007);
    assert!(desc.writable);
    assert_eq!(desc.current, PtpValue::U16(280));
    match desc.form {
        Form::Enumeration(items) => {
            assert_eq!(items.len(), 20);
            assert_eq!(items[0], PtpValue::U16(180));
            assert_eq!(items[19], PtpValue::U16(1600));
        }
        other => panic!("expected an enumeration, got {other:?}"),
    }
}

#[test]
fn parses_an_object_handle_array() {
    let mut data = 3u32.to_le_bytes().to_vec();
    for handle in [0x0000_0001u32, 0x2900_0011, 0xFFFF_0000] {
        data.extend_from_slice(&handle.to_le_bytes());
    }
    assert_eq!(
        parse_u32_array(&data).unwrap(),
        vec![0x0000_0001, 0x2900_0011, 0xFFFF_0000]
    );
}

/// An empty card is a valid answer, not an error.
#[test]
fn parses_an_empty_object_handle_array() {
    assert_eq!(
        parse_u32_array(&0u32.to_le_bytes()).unwrap(),
        Vec::<u32>::new()
    );
}

/// A count the payload cannot hold must be refused rather than believed.
#[test]
fn refuses_an_object_handle_count_the_payload_cannot_hold() {
    let mut data = 1_000_000u32.to_le_bytes().to_vec();
    data.extend_from_slice(&7u32.to_le_bytes());
    assert!(parse_u32_array(&data).is_err());
}

#[test]
fn parses_object_info_and_identifies_a_jpeg() {
    let mut data = Vec::new();
    data.extend_from_slice(&0x0001_0001u32.to_le_bytes()); // storage id
    data.extend_from_slice(&FORMAT_EXIF_JPEG.to_le_bytes());
    data.extend_from_slice(&0u16.to_le_bytes()); // protection
    data.extend_from_slice(&1_234_567u32.to_le_bytes()); // compressed size
    data.extend_from_slice(&FORMAT_EXIF_JPEG.to_le_bytes()); // thumb format
    data.extend_from_slice(&8_000u32.to_le_bytes()); // thumb size
    data.extend_from_slice(&160u32.to_le_bytes()); // thumb width
    data.extend_from_slice(&120u32.to_le_bytes()); // thumb height
    data.extend_from_slice(&6048u32.to_le_bytes()); // image width
    data.extend_from_slice(&4024u32.to_le_bytes()); // image height
    data.extend_from_slice(&24u32.to_le_bytes()); // bit depth
    data.extend_from_slice(&0u32.to_le_bytes()); // parent
    data.extend_from_slice(&0u16.to_le_bytes()); // association type
    data.extend_from_slice(&0u32.to_le_bytes()); // association desc
    data.extend_from_slice(&1u32.to_le_bytes()); // sequence number
    // Filename "A.JPG" as a PTP string: 6 chars including the terminator.
    data.push(6);
    for unit in "A.JPG\0".encode_utf16() {
        data.extend_from_slice(&unit.to_le_bytes());
    }

    let info = parse_object_info(&data).unwrap();
    assert_eq!(info.filename, "A.JPG");
    assert_eq!(info.compressed_size, 1_234_567);
    assert_eq!((info.pixel_width, info.pixel_height), (6048, 4024));
    assert!(is_jpeg(info.format));
}

#[test]
fn nikon_raw_is_not_mistaken_for_a_jpeg() {
    // 0xB101 is Nikon's vendor format for NEF; 0x3000 is "undefined".
    assert!(!is_jpeg(0xB101));
    assert!(!is_jpeg(0x3000));
    assert!(!is_jpeg(0x3801 + 1));
    assert!(is_jpeg(FORMAT_EXIF_JPEG));
    assert!(is_jpeg(FORMAT_JFIF));
}

#[test]
fn encodes_the_handshake_name_as_null_terminated_utf16() {
    assert_eq!(utf16z("Z6"), vec![b'Z', 0, b'6', 0, 0, 0]);
}

#[test]
fn operation_payload_matches_the_wire_layout() {
    let payload = operation_payload(1, OP_GET_DEVICE_PROP_DESC, 7, &[0x500D]);
    assert_eq!(&payload[0..4], &1u32.to_le_bytes()); // data phase
    assert_eq!(&payload[4..6], &0x1014u16.to_le_bytes()); // opcode
    assert_eq!(&payload[6..10], &7u32.to_le_bytes()); // transaction
    assert_eq!(&payload[10..14], &0x500Du32.to_le_bytes()); // param 1
    assert_eq!(payload.len(), 14);
}

// ---------------------------------------------------------------------------------------------

fn ptp_string(text: &str) -> Vec<u8> {
    let units: Vec<u16> = text.encode_utf16().collect();
    let mut out = vec![(units.len() + 1) as u8];
    for unit in units {
        out.extend_from_slice(&unit.to_le_bytes());
    }
    out.extend_from_slice(&[0, 0]);
    out
}

fn u16_array(values: &[u16]) -> Vec<u8> {
    let mut out = (values.len() as u32).to_le_bytes().to_vec();
    for value in values {
        out.extend_from_slice(&value.to_le_bytes());
    }
    out
}

#[test]
fn parses_a_device_info_dataset() {
    let mut data = Vec::new();
    data.extend_from_slice(&100u16.to_le_bytes()); // standard version
    data.extend_from_slice(&0x0000_000Au32.to_le_bytes()); // vendor extension id
    data.extend_from_slice(&100u16.to_le_bytes()); // vendor extension version
    data.extend(ptp_string("microsoft.com: 1.0"));
    data.extend_from_slice(&0u16.to_le_bytes()); // functional mode
    data.extend(u16_array(&[0x1001, 0x1002]));
    data.extend(u16_array(&[0x4002]));
    data.extend(u16_array(&[0x5007, 0x500D]));
    data.extend(u16_array(&[]));
    data.extend(u16_array(&[0x3801]));
    data.extend(ptp_string("Nikon Corporation"));
    data.extend(ptp_string("Z 6"));
    data.extend(ptp_string("V3.80"));
    data.extend(ptp_string("00000000000000000000000006068685"));

    let info = parse_device_info(&data).unwrap();
    assert_eq!(info.manufacturer, "Nikon Corporation");
    assert_eq!(info.model, "Z 6");
    assert_eq!(info.device_version, "V3.80");
    assert_eq!(info.vendor_extension_id, 0x0A);
    assert_eq!(info.operations, vec![0x1001, 0x1002]);
    assert_eq!(info.events, vec![0x4002]);
    assert_eq!(info.properties, vec![0x5007, 0x500D]);

    // Cut short anywhere, it is an error rather than a partial identity.
    assert!(parse_device_info(&data[..data.len() - 3]).is_err());
}

#[test]
fn a_string_with_an_unpaired_surrogate_is_refused() {
    let data = [2u8, 0x00, 0xD8, 0, 0];
    let error = Reader::new(&data).ptp_string().unwrap_err();
    assert_eq!(error.kind(), "protocol");
}

#[test]
fn a_string_beyond_the_basic_plane_is_decoded() {
    let data = ptp_string("a\u{1F305}");
    assert_eq!(Reader::new(&data).ptp_string().unwrap(), "a\u{1F305}");
}

#[test]
fn an_event_carries_its_code_and_whole_parameters() {
    let mut body = 0x4006u16.to_le_bytes().to_vec();
    body.extend_from_slice(&99u32.to_le_bytes()); // transaction
    body.extend_from_slice(&0x500Du32.to_le_bytes());
    body.extend_from_slice(&[1, 2]); // half a parameter, dropped
    let event = parse_event(&body).unwrap();
    assert_eq!(event.code, 0x4006);
    assert_eq!(event.params, vec![0x500D]);
    assert!(parse_event(&[1, 2, 3]).is_none());
}

#[test]
fn a_framed_packet_announces_its_own_length_and_type() {
    let frame = frame_packet(PROBE_REQUEST, &[1, 2, 3]);
    assert_eq!(frame.len(), 11);
    let (kind, body_len) = parse_header(&frame[..8]).unwrap();
    assert_eq!(kind, PROBE_REQUEST);
    assert_eq!(body_len, 3);
    assert_eq!(&frame[8..], &[1, 2, 3]);
}

#[test]
fn a_header_shorter_than_itself_is_impossible() {
    let mut header = 7u32.to_le_bytes().to_vec();
    header.extend_from_slice(&EVENT.to_le_bytes());
    match parse_header(&header) {
        Err(CameraError::Protocol(message)) => {
            assert_eq!(message, "packet claims an impossible length of 7 bytes")
        }
        other => panic!("expected a protocol error, got {other:?}"),
    }
}

#[test]
fn the_init_command_payload_is_guid_name_and_version() {
    let payload = dusklapse::camera::ptpip::init_command_payload("Dusklapse");
    assert_eq!(&payload[..16], b"dusklapse\x00\x01\x00\x00\x00\x00\x01");
    assert_eq!(&payload[16..18], &[b'D', 0]);
    assert_eq!(&payload[payload.len() - 4..], &0x0001_0000u32.to_le_bytes());
    assert_eq!(payload.len(), 16 + 2 * 10 + 4);
}

#[test]
fn a_refused_handshake_reports_the_reason() {
    let error = command_ack(INIT_FAIL, &0x0000_2019u32.to_le_bytes())
        .err()
        .unwrap();
    match error {
        CameraError::Rejected { status, message } => {
            assert_eq!(status, 0x2019);
            assert!(message.contains("connect-to-computer"));
        }
        other => panic!("{other:?}"),
    }
    // No reason at all is reported as zero.
    match command_ack(INIT_FAIL, &[]).err().unwrap() {
        CameraError::Rejected { status, .. } => assert_eq!(status, 0),
        other => panic!("{other:?}"),
    }
    match command_ack(9, &[]).err().unwrap() {
        CameraError::Protocol(message) => {
            assert_eq!(message, "expected Init_Command_Ack, got packet type 9")
        }
        other => panic!("{other:?}"),
    }
}

#[test]
fn an_accepted_handshake_yields_the_connection_number() {
    let mut body = 7u32.to_le_bytes().to_vec();
    body.extend_from_slice(&[0xAA; 16]);
    for unit in "Z 6\0".encode_utf16() {
        body.extend_from_slice(&unit.to_le_bytes());
    }
    let ack = command_ack(INIT_COMMAND_ACK, &body).unwrap();
    assert_eq!(ack.connection, 7);
    assert_eq!(ack.camera_name, "Z 6");
    // A body too short to carry its GUID is a short reply.
    assert!(command_ack(INIT_COMMAND_ACK, &body[..10]).is_err());
    assert!(event_ack(INIT_EVENT_ACK).is_ok());
    assert!(event_ack(INIT_FAIL).is_err());
}

#[test]
fn transaction_ids_count_up_and_wrap() {
    let mut ids = Transactions::new();
    assert_eq!(ids.take(), 0);
    assert_eq!(ids.take(), 1);
    assert_eq!(ids.take(), 2);
}

fn collect(opcode: u16, packets: &[(u32, Vec<u8>)]) -> Result<Vec<u8>, CameraError> {
    let mut exchange = Exchange::new(opcode);
    for (kind, body) in packets {
        match exchange.accept(*kind, body) {
            Step::Pending(next) => exchange = next,
            Step::Done(result) => return result,
        }
    }
    panic!("the exchange never finished")
}

#[test]
fn a_data_phase_is_collected_until_the_response() {
    let mut first = 5u32.to_le_bytes().to_vec();
    first.extend_from_slice(&[1, 2, 3]);
    let mut last = 5u32.to_le_bytes().to_vec();
    last.extend_from_slice(&[4]);
    let result = collect(
        0x1009,
        &[
            (9, vec![0; 12]),
            (10, first),
            (8, vec![0; 10]),
            (12, last),
            (7, 0x2001u16.to_le_bytes().to_vec()),
        ],
    );
    assert_eq!(result.unwrap(), vec![1, 2, 3, 4]);
}

#[test]
fn each_response_code_means_what_it_says() {
    let busy = collect(0x1016, &[(7, 0x2019u16.to_le_bytes().to_vec())]);
    assert!(matches!(busy, Err(CameraError::Busy)));

    match collect(0x1014, &[(7, 0x2005u16.to_le_bytes().to_vec())]) {
        Err(CameraError::Unavailable(m)) => assert_eq!(m, "operation 0x1014"),
        other => panic!("{other:?}"),
    }
    match response_outcome(0x200A, 0x1014, vec![]) {
        Err(CameraError::Unavailable(m)) => assert_eq!(m, "this setting"),
        other => panic!("{other:?}"),
    }
    match response_outcome(0x2002, 0x1016, vec![]) {
        Err(CameraError::Rejected { status, message }) => {
            assert_eq!(status, 0x2002);
            assert_eq!(message, "operation 0x1016 failed with PTP response 0x2002");
        }
        other => panic!("{other:?}"),
    }
    match collect(0x1001, &[(3, vec![])]) {
        Err(CameraError::Protocol(m)) => {
            assert_eq!(m, "unexpected packet type 3 during operation 0x1001")
        }
        other => panic!("{other:?}"),
    }
}

#[test]
fn the_event_channel_answers_probes_and_publishes_events() {
    assert!(matches!(
        on_event_channel_packet(PROBE_REQUEST, &[]),
        EventChannelAction::AnswerProbe
    ));
    let mut body = 0x400Du16.to_le_bytes().to_vec();
    body.extend_from_slice(&1u32.to_le_bytes());
    match on_event_channel_packet(EVENT, &body) {
        EventChannelAction::Publish(event) => assert_eq!(event.code, 0x400D),
        _ => panic!("expected an event"),
    }
    assert!(matches!(
        on_event_channel_packet(EVENT, &[1]),
        EventChannelAction::Ignore
    ));
    assert!(matches!(
        on_event_channel_packet(99, &body),
        EventChannelAction::Ignore
    ));
}

#[test]
fn a_value_is_written_at_its_declared_width() {
    assert_eq!(prop_value_payload(0x5007, TYPE_UINT8, 0x1234).unwrap(), vec![0x34]);
    assert_eq!(
        prop_value_payload(0x5007, TYPE_UINT16, 0x1234_5678).unwrap(),
        vec![0x78, 0x56]
    );
    assert_eq!(
        prop_value_payload(0x500D, TYPE_UINT32, 300_000).unwrap(),
        300_000u32.to_le_bytes().to_vec()
    );
    match prop_value_payload(0x5007, 0xFFFF, 1) {
        Err(CameraError::Protocol(m)) => {
            assert_eq!(m, "cannot write property 0x5007 of data type 0xffff")
        }
        other => panic!("{other:?}"),
    }
}

#[test]
fn a_description_of_another_property_is_refused() {
    let mut data = Vec::new();
    data.extend_from_slice(&0x5007u16.to_le_bytes());
    data.extend_from_slice(&TYPE_UINT16.to_le_bytes());
    data.push(1);
    data.extend_from_slice(&280u16.to_le_bytes());
    data.extend_from_slice(&280u16.to_le_bytes());
    data.push(0);
    assert_eq!(described_property(0x5007, &data).unwrap().property, 0x5007);
    match described_property(0x500D, &data) {
        Err(CameraError::Protocol(m)) => {
            assert_eq!(m, "asked about property 0x500d but the camera described 0x5007")
        }
        other => panic!("{other:?}"),
    }
}

#[test]
fn a_handshake_name_reads_back_as_written() {
    for name in ["Dusklapse", "Z 6", "\u{1F305} dusk", ""] {
        let bytes = utf16z(name);
        let mut reader = Reader::new(&bytes);
        assert_eq!(reader.utf16z().unwrap(), name);
        assert_eq!(reader.remaining(), 0);
    }
}

fn protocol_message(error: CameraError) -> String {
    match error {
        CameraError::Protocol(message) => message,
        other => panic!("expected a protocol error, got {other:?}"),
    }
}

/// Each way a dataset can be unreadable says which it was.
#[test]
fn a_refused_dataset_says_why() {
    let mut data = 5u32.to_le_bytes().to_vec();
    data.extend_from_slice(&[0, 0, 0, 0]);
    assert_eq!(
        protocol_message(parse_u32_array(&data).unwrap_err()),
        "object handle array claims 5 entries but carries 4 bytes"
    );

    // A descriptor whose value type has no fixed width is refused at its first value.
    let desc = [0x07, 0x50, 0x04, 0x40, 0x01, 0, 0, 0, 0];
    assert_eq!(
        protocol_message(parse_prop_desc(&desc).unwrap_err()),
        "unsupported PTP data type 0x4004"
    );

    // An ObjectInfo cut inside its preamble ran out of data.
    assert_eq!(
        protocol_message(parse_object_info(&[0u8; 20]).unwrap_err()),
        "the camera's reply ended sooner than its structure implies"
    );

    let malformed = [2u8, 0x00, 0xD8, 0, 0];
    assert_eq!(
        protocol_message(Reader::new(&malformed).ptp_string().unwrap_err()),
        "malformed string from camera: invalid utf-16: lone surrogate found"
    );
}

/// What a camera reported, widened and written back at the declared width, reads back the same.
#[test]
fn a_reported_value_survives_being_written_back() {
    for (datatype, value) in [
        (0x0001u16, PtpValue::I8(-3)),
        (0x0002, PtpValue::U8(200)),
        (0x0003, PtpValue::I16(-2)),
        (0x0004, PtpValue::U16(320)),
        (0x0005, PtpValue::I32(-70000)),
        (0x0006, PtpValue::U32(300_000)),
    ] {
        let bytes = prop_value_payload(0x500F, datatype, value.as_u32()).unwrap();
        let mut reader = Reader::new(&bytes);
        assert_eq!(reader.typed(datatype).unwrap(), value);
        assert_eq!(reader.remaining(), 0);
    }
}

/// What is left can always be taken, exactly; more than that is refused and moves nothing.
#[test]
fn take_uses_up_exactly_what_remains() {
    let data = [1u8, 2, 3, 4, 5];
    let mut reader = Reader::new(&data);
    assert_eq!(reader.take(2).unwrap(), &[1u8, 2][..]);
    assert_eq!(reader.remaining(), 3);
    assert!(reader.take(4).is_err());
    assert_eq!(reader.remaining(), 3);
    assert!(reader.take(usize::MAX).is_err());
    assert_eq!(reader.take(3).unwrap(), &[3u8, 4, 5][..]);
    assert_eq!(reader.remaining(), 0);
}
