use dusklapse::camera::error::CameraError;
use dusklapse::camera::model::{CameraEvent, Dial};
use dusklapse::camera::ptpip::{PtpEvent, TYPE_UINT16, TYPE_UINT32};
use dusklapse::camera::sony::{
    after_snapshot, ReadyStep, READY_ATTEMPTS,
    destination_to_change, hex_list, iso_label, mapper, memory_state, parse_all_props,
    plan_write, profile, settled, shutter_fraction, writable, KnownProps, MemoryState,
    SdioHandshake, SdioRequest, ENABLED, EVENT_SONY_CAPTURED, EVENT_SONY_OBJECT_ADDED,
    FORM_ENUMERATION, FORM_NONE, FORM_RANGE, GET_SET, ISO_AUTO, PROP_F_NUMBER, PROP_ISO,
    PROP_SHUTTER_SPEED, TYPE_ARRAY_FLAG, TYPE_STR, TYPE_UINT64,
};

/// Offered on the connect screen, unlike the mock camera.
#[test]
fn the_profile_is_shown_like_any_other_vendor() {
    assert!(!profile().developer_only);
    assert!(profile().implemented);
}

#[test]
fn iso_ignores_the_noise_reduction_flag() {
    assert_eq!(iso_label(3200), "3200");
    // Same ISO with multi-frame noise reduction set in the top byte.
    assert_eq!(iso_label(0x0100_0C80), "3200");
    assert_eq!(iso_label(ISO_AUTO), "Auto");
}

fn seconds(raw: u32) -> Option<f32> {
    shutter_fraction(raw).map(|(numerator, denominator)| numerator as f32 / denominator as f32)
}

#[test]
fn a_shutter_speed_is_a_fraction() {
    // 1/100 s, the encoding libgphoto2 documents.
    assert_eq!(seconds(0x0001_0064), Some(0.01));
    // 6 s, the exposure the ramp reaches at dusk.
    assert_eq!(seconds(0x0006_0001), Some(6.0));
    // 1/8000 s at the fast end.
    assert_eq!(seconds(0x0001_1F40), Some(1.0 / 8000.0));
}

#[test]
fn a_zero_denominator_is_not_a_time() {
    assert_eq!(shutter_fraction(0x0001_0000), None);
}

/// A descriptor with an enumeration, built by hand to the layout in the module docs.
#[test]
fn a_descriptor_with_an_enumeration_is_read_whole() {
    let mut data = vec![0u8; 8]; // header: count, then a zero word
    data.extend_from_slice(&0x5007u16.to_le_bytes()); // code
    data.extend_from_slice(&TYPE_UINT16.to_le_bytes()); // data type
    data.push(0x01); // get/set
    data.push(0x01); // enabled
    data.extend_from_slice(&280u16.to_le_bytes()); // default
    data.extend_from_slice(&400u16.to_le_bytes()); // current
    data.push(FORM_ENUMERATION);
    data.extend_from_slice(&3u16.to_le_bytes());
    for value in [280u16, 400, 560] {
        data.extend_from_slice(&value.to_le_bytes());
    }

    let props = parse_all_props(&data).unwrap();
    assert_eq!(props.len(), 1);
    assert_eq!(props[0].code, 0x5007);
    assert_eq!(props[0].current, 400);
    assert_eq!(props[0].values, vec![280, 400, 560]);
}

/// An enumeration followed by a second one, and a record after it.
#[test]
fn a_second_enumeration_replaces_the_first_and_the_run_continues() {
    let mut data = vec![0u8; 8];
    // First record: an enumeration of two, then a replacement list of three.
    data.extend_from_slice(&0x5005u16.to_le_bytes());
    data.extend_from_slice(&TYPE_UINT16.to_le_bytes());
    data.push(0x01);
    data.push(0x01);
    data.extend_from_slice(&2u16.to_le_bytes()); // default
    data.extend_from_slice(&4u16.to_le_bytes()); // current
    data.push(FORM_ENUMERATION);
    data.extend_from_slice(&2u16.to_le_bytes());
    for value in [2u16, 4] {
        data.extend_from_slice(&value.to_le_bytes());
    }
    // The secondary list: a small count where a property code would be 0x5xxx or 0xDxxx.
    data.extend_from_slice(&3u16.to_le_bytes());
    for value in [2u16, 4, 8] {
        data.extend_from_slice(&value.to_le_bytes());
    }
    // Second record, which only parses if the list above was consumed.
    data.extend_from_slice(&0x5007u16.to_le_bytes());
    data.extend_from_slice(&TYPE_UINT16.to_le_bytes());
    data.push(0x01);
    data.push(0x01);
    data.extend_from_slice(&280u16.to_le_bytes());
    data.extend_from_slice(&400u16.to_le_bytes());
    data.push(FORM_NONE);

    let props = parse_all_props(&data).unwrap();
    assert_eq!(
        props.len(),
        2,
        "the record after the secondary list must still parse"
    );
    assert_eq!(
        props[0].values,
        vec![2, 4, 8],
        "the second list is the one that counts"
    );
    assert_eq!(props[1].code, 0x5007);
    assert_eq!(props[1].current, 400);
}

/// A property code following an enumeration must not be mistaken for a secondary count.
#[test]
fn a_following_property_code_is_left_alone() {
    let mut data = vec![0u8; 8];
    data.extend_from_slice(&0x5005u16.to_le_bytes());
    data.extend_from_slice(&TYPE_UINT16.to_le_bytes());
    data.push(0x01);
    data.push(0x01);
    data.extend_from_slice(&2u16.to_le_bytes());
    data.extend_from_slice(&2u16.to_le_bytes());
    data.push(FORM_ENUMERATION);
    data.extend_from_slice(&1u16.to_le_bytes());
    data.extend_from_slice(&2u16.to_le_bytes());
    // 0xD20D is a property code, well above the limit, so it starts a record.
    data.extend_from_slice(&0xD20Du16.to_le_bytes());
    data.extend_from_slice(&TYPE_UINT32.to_le_bytes());
    data.push(0x01);
    data.push(0x01);
    data.extend_from_slice(&0x0006_0001u32.to_le_bytes());
    data.extend_from_slice(&0x0006_0001u32.to_le_bytes());
    data.push(FORM_NONE);

    let props = parse_all_props(&data).unwrap();
    assert_eq!(props.len(), 2);
    assert_eq!(props[0].values, vec![2]);
    assert_eq!(props[1].code, 0xD20D);
    assert_eq!(seconds(props[1].current), Some(6.0));
}

/// Record 29 on a ZV-E10 is a text property, and stopping there cost the other 67.
#[test]
fn a_text_property_is_stepped_over_rather_than_stopping_the_run() {
    let mut data = vec![0u8; 8];
    // A string property: default and current are both PTP strings.
    data.extend_from_slice(&0xD223u16.to_le_bytes());
    data.extend_from_slice(&TYPE_STR.to_le_bytes());
    data.push(0x01);
    data.push(0x01);
    for text in ["ab", "cd"] {
        // A PTP string counts characters including the terminator.
        data.push(text.len() as u8 + 1);
        for character in text.chars() {
            data.extend_from_slice(&(character as u16).to_le_bytes());
        }
        data.extend_from_slice(&0u16.to_le_bytes());
    }
    data.push(FORM_NONE);
    // The record that used to be unreachable.
    data.extend_from_slice(&PROP_ISO.to_le_bytes());
    data.extend_from_slice(&TYPE_UINT32.to_le_bytes());
    data.push(0x01);
    data.push(0x01);
    data.extend_from_slice(&3200u32.to_le_bytes());
    data.extend_from_slice(&3200u32.to_le_bytes());
    data.push(FORM_NONE);

    let props = parse_all_props(&data).unwrap();
    assert_eq!(
        props.len(),
        2,
        "the record after the text property must parse"
    );
    assert_eq!(props[1].code, PROP_ISO);
    assert_eq!(props[1].current, 3200);
}

/// An empty string carries no characters at all, only its count.
#[test]
fn an_empty_text_property_is_stepped_over_too() {
    let mut data = vec![0u8; 8];
    data.extend_from_slice(&0xD223u16.to_le_bytes());
    data.extend_from_slice(&TYPE_STR.to_le_bytes());
    data.push(0x01);
    data.push(0x01);
    data.push(0); // default: no characters
    data.push(0); // current: no characters
    data.push(FORM_NONE);
    data.extend_from_slice(&PROP_F_NUMBER.to_le_bytes());
    data.extend_from_slice(&TYPE_UINT16.to_le_bytes());
    data.push(0x01);
    data.push(0x01);
    data.extend_from_slice(&280u16.to_le_bytes());
    data.extend_from_slice(&280u16.to_le_bytes());
    data.push(FORM_NONE);

    let props = parse_all_props(&data).unwrap();
    assert_eq!(props.len(), 2);
    assert_eq!(props[1].code, PROP_F_NUMBER);
}

/// Record 56 on a ZV-E10 is a UINT64, and refusing it cost the remaining forty.
#[test]
fn a_wide_property_is_stepped_over_rather_than_stopping_the_run() {
    let mut data = vec![0u8; 8];
    data.extend_from_slice(&0xD24Au16.to_le_bytes());
    data.extend_from_slice(&TYPE_UINT64.to_le_bytes());
    data.push(0x01);
    data.push(0x01);
    data.extend_from_slice(&1u64.to_le_bytes()); // default
    data.extend_from_slice(&2u64.to_le_bytes()); // current
    data.push(FORM_NONE);
    // The record that used to be unreachable.
    data.extend_from_slice(&PROP_SHUTTER_SPEED.to_le_bytes());
    data.extend_from_slice(&TYPE_UINT32.to_le_bytes());
    data.push(0x01);
    data.push(0x01);
    data.extend_from_slice(&0x0006_0001u32.to_le_bytes());
    data.extend_from_slice(&0x0006_0001u32.to_le_bytes());
    data.push(FORM_NONE);

    let props = parse_all_props(&data).unwrap();
    assert_eq!(props.len(), 2);
    assert_eq!(props[1].code, PROP_SHUTTER_SPEED);
    assert_eq!(seconds(props[1].current), Some(6.0));
}

/// An array carries a 32-bit count in front of its elements.
#[test]
fn an_array_property_is_stepped_over_by_its_own_length() {
    let mut data = vec![0u8; 8];
    data.extend_from_slice(&0xD283u16.to_le_bytes());
    data.extend_from_slice(&(TYPE_ARRAY_FLAG | TYPE_UINT16).to_le_bytes());
    data.push(0x01);
    data.push(0x01);
    for count in [2u32, 3] {
        data.extend_from_slice(&count.to_le_bytes());
        for value in 0..count as u16 {
            data.extend_from_slice(&value.to_le_bytes());
        }
    }
    data.push(FORM_NONE);
    data.extend_from_slice(&PROP_F_NUMBER.to_le_bytes());
    data.extend_from_slice(&TYPE_UINT16.to_le_bytes());
    data.push(0x01);
    data.push(0x01);
    data.extend_from_slice(&280u16.to_le_bytes());
    data.extend_from_slice(&280u16.to_le_bytes());
    data.push(FORM_NONE);

    let props = parse_all_props(&data).unwrap();
    assert_eq!(props.len(), 2);
    assert_eq!(props[1].code, PROP_F_NUMBER);
    assert_eq!(props[1].current, 280);
}

/// Either capture event counts as a frame, because which one arrives depends on where the
/// camera saves and only one of them ever does.
#[test]
fn both_capture_events_count_as_a_frame() {
    let event = |code| PtpEvent {
        code,
        params: Vec::new(),
    };

    assert_eq!(
        mapper().accept(&event(EVENT_SONY_CAPTURED), 0),
        Some(CameraEvent::FrameRecorded)
    );
    assert_eq!(
        mapper().accept(&event(EVENT_SONY_OBJECT_ADDED), 0),
        Some(CameraEvent::FrameRecorded)
    );
}

/// `DevicePropChanged` fires constantly as dials move and never says which one.
#[test]
fn a_property_change_is_not_a_frame() {
    let event = PtpEvent {
        code: 0xC203,
        params: vec![0],
    };
    assert_eq!(mapper().accept(&event, 0), None);
}

/// RAW+JPEG announces twice within a second. The twin must not advance the ramp.
#[test]
fn a_second_announcement_of_the_same_frame_is_ignored() {
    let mut map = mapper();
    let event = PtpEvent {
        code: EVENT_SONY_OBJECT_ADDED,
        params: Vec::new(),
    };

    assert_eq!(map.accept(&event, 0), Some(CameraEvent::FrameRecorded));
    assert_eq!(
        map.accept(&event, 1_000_000),
        None,
        "the file's twin is the same frame"
    );
}

/// Half a second after a frame, the next announcement is a new frame.
#[test]
fn the_next_frame_after_the_debounce_is_counted() {
    let mut map = mapper();
    let event = PtpEvent {
        code: EVENT_SONY_CAPTURED,
        params: Vec::new(),
    };
    assert_eq!(map.accept(&event, 1_000), Some(CameraEvent::FrameRecorded));
    assert_eq!(map.accept(&event, 1_000 + 499_999_999), None);
    assert_eq!(
        map.accept(&event, 1_000 + 500_000_000),
        Some(CameraEvent::FrameRecorded)
    );
}

/// The two flag bytes are the only statement a camera makes about whether a write will take.
#[test]
fn a_property_is_writable_only_when_offered_and_settable() {
    assert!(writable(GET_SET, ENABLED));
    // Read-only property, however available it is.
    assert!(!writable(0, ENABLED));
    // Greyed out, and shown but not offered.
    assert!(!writable(GET_SET, 0));
    assert!(!writable(GET_SET, 2));
}

/// A range yields no selectable values, the same rule the Nikon backend follows.
#[test]
fn a_range_yields_nothing_to_choose_from() {
    let mut data = vec![0u8; 8];
    data.extend_from_slice(&0xD20Du16.to_le_bytes());
    data.extend_from_slice(&TYPE_UINT32.to_le_bytes());
    data.push(0x01);
    data.push(0x01);
    data.extend_from_slice(&0x0001_0064u32.to_le_bytes()); // default
    data.extend_from_slice(&0x0001_0064u32.to_le_bytes()); // current
    data.push(FORM_RANGE);
    for value in [1u32, 100, 1] {
        data.extend_from_slice(&value.to_le_bytes());
    }

    let props = parse_all_props(&data).unwrap();
    assert_eq!(props.len(), 1);
    assert!(props[0].values.is_empty());
    assert_eq!(props[0].current, 0x0001_0064);
}

/// Several descriptors run together with no separator, which is how the camera sends them.
#[test]
fn descriptors_are_read_one_after_another() {
    let mut data = vec![0u8; 8];
    for (code, current) in [(0x5007u16, 280u16), (0xD500, 7)] {
        data.extend_from_slice(&code.to_le_bytes());
        data.extend_from_slice(&TYPE_UINT16.to_le_bytes());
        data.push(0x01);
        data.push(0x01);
        data.extend_from_slice(&current.to_le_bytes());
        data.extend_from_slice(&current.to_le_bytes());
        data.push(FORM_NONE);
    }

    let props = parse_all_props(&data).unwrap();
    assert_eq!(props.len(), 2);
    assert_eq!(props[1].code, 0xD500);
}

/// A type this code cannot measure ends the run rather than desynchronising it. Everything
/// parsed before that point is still returned.
#[test]
fn an_unreadable_type_stops_the_run_without_losing_what_came_before() {
    let mut data = vec![0u8; 8];
    data.extend_from_slice(&0x5007u16.to_le_bytes());
    data.extend_from_slice(&TYPE_UINT16.to_le_bytes());
    data.push(0x01);
    data.push(0x01);
    data.extend_from_slice(&280u16.to_le_bytes());
    data.extend_from_slice(&280u16.to_le_bytes());
    data.push(FORM_NONE);
    // A string property, whose width this code cannot compute.
    data.extend_from_slice(&0xD500u16.to_le_bytes());
    data.extend_from_slice(&0xFFFFu16.to_le_bytes());
    data.push(0x01);
    data.push(0x01);

    let props = parse_all_props(&data).unwrap();
    assert_eq!(props.len(), 1);
    assert_eq!(props[0].code, 0x5007);
}

#[test]
fn an_empty_inventory_is_an_error_rather_than_no_properties() {
    // Silently reporting zero properties would look like a camera with no controls.
    assert!(parse_all_props(&[0u8; 8]).is_err());
}

// ---------------------------------------------------------------------------------------------

fn record(code: u16, current: u16) -> Vec<u8> {
    let mut data = Vec::new();
    data.extend_from_slice(&code.to_le_bytes());
    data.extend_from_slice(&TYPE_UINT16.to_le_bytes());
    data.push(0x01);
    data.push(0x01);
    data.extend_from_slice(&current.to_le_bytes());
    data.extend_from_slice(&current.to_le_bytes());
    data.push(FORM_NONE);
    data
}

fn inventory(records: &[(u16, u16)]) -> Vec<dusklapse::camera::sony::SonyProp> {
    let mut data = vec![0u8; 8];
    for (code, current) in records {
        data.extend(record(*code, *current));
    }
    parse_all_props(&data).unwrap()
}

#[test]
fn a_write_is_planned_from_the_last_inventory() {
    let mut known = KnownProps::new();
    known.record(&inventory(&[(PROP_F_NUMBER, 280)]));

    let write = plan_write(&known, Dial::Aperture, "400").unwrap();
    assert_eq!(write.property, PROP_F_NUMBER);
    assert_eq!(write.was, 280);
    assert_eq!(write.raw, 400);
    assert_eq!(write.payload, 400u16.to_le_bytes().to_vec());

    match plan_write(&known, Dial::Aperture, "f/4") {
        Err(CameraError::ValueNotSelectable { dial, value }) => {
            assert_eq!(dial, "Aperture");
            assert_eq!(value, "f/4");
        }
        other => panic!("{:?}", other.err()),
    }
    match plan_write(&known, Dial::Iso, "400") {
        Err(CameraError::Unavailable(m)) => assert_eq!(m, "property 0xd21e"),
        other => panic!("{:?}", other.err()),
    }
}

#[test]
fn the_picture_in_memory_is_fetched_only_once_it_is_finished() {
    assert_eq!(memory_state(&inventory(&[(0x5007, 280)])), MemoryState::NotReported);
    assert_eq!(
        memory_state(&inventory(&[(0xD215, 0x0001)])),
        MemoryState::InProgress(1)
    );
    assert_eq!(
        memory_state(&inventory(&[(0xD215, 0x8002)])),
        MemoryState::Ready { waiting: 2 }
    );
}

#[test]
fn the_store_destination_is_changed_only_when_it_keeps_no_copy() {
    assert_eq!(destination_to_change(&inventory(&[(0x5007, 280)])), None);
    assert_eq!(destination_to_change(&inventory(&[(0xD222, 0x11)])), None);
    assert_eq!(
        destination_to_change(&inventory(&[(0x5007, 280), (0xD222, 0x10)])),
        Some(1)
    );
}

#[test]
fn a_write_has_settled_once_the_old_value_is_gone() {
    assert!(!settled(&inventory(&[(PROP_F_NUMBER, 280)]), PROP_F_NUMBER, 280));
    assert!(settled(&inventory(&[(PROP_F_NUMBER, 400)]), PROP_F_NUMBER, 280));
    assert!(settled(&[], PROP_F_NUMBER, 280));
}

#[test]
fn codes_are_listed_in_hex() {
    assert_eq!(hex_list(&[]), "none");
    assert_eq!(hex_list(&[0x5007, 0xD20D]), "0x5007 0xd20d");
}

#[test]
fn the_sdio_handshake_retries_the_extension_info_until_it_answers() {
    let mut handshake = SdioHandshake::new();
    let mut sent = Vec::new();
    let mut empty_answers = 3;
    loop {
        match handshake.request() {
            SdioRequest::Send { opcode, params } => {
                sent.push((opcode, params));
                let reply_len = if opcode == 0x9202 && empty_answers > 0 {
                    empty_answers -= 1;
                    0
                } else {
                    4
                };
                handshake.answered(reply_len).unwrap();
            }
            SdioRequest::Open => break,
        }
    }
    assert_eq!(sent.len(), 7);
    assert_eq!(sent[0], (0x9201, vec![1, 0, 0]));
    assert_eq!(sent[1], (0x9201, vec![2, 0, 0]));
    assert_eq!(sent[2], (0x9202, vec![0x12c, 1]));
    assert_eq!(sent[6], (0x9201, vec![3, 0, 0]));
}

#[test]
fn an_extension_info_that_never_answers_ends_the_handshake() {
    let mut handshake = SdioHandshake::new();
    handshake.answered(0).unwrap();
    handshake.answered(0).unwrap();
    for _ in 0..19 {
        handshake.answered(0).unwrap();
    }
    match handshake.answered(0) {
        Err(CameraError::Protocol(m)) => assert!(m.contains("never returned its extension info")),
        other => panic!("{other:?}"),
    }
}


/// The copy in memory is fetched only once it is finished, and the wait ends at the last try.
#[test]
fn the_picture_in_memory_is_waited_for_then_fetched_or_given_up() {
    assert_eq!(after_snapshot(MemoryState::NotReported, 1), ReadyStep::Unreported);
    assert_eq!(
        after_snapshot(MemoryState::Ready { waiting: 2 }, 5),
        ReadyStep::Fetch { waiting: 2 }
    );
    assert_eq!(after_snapshot(MemoryState::InProgress(3), 1), ReadyStep::Wait);
    assert_eq!(after_snapshot(MemoryState::InProgress(3), READY_ATTEMPTS - 1), ReadyStep::Wait);
    assert_eq!(
        after_snapshot(MemoryState::InProgress(3), READY_ATTEMPTS),
        ReadyStep::Stuck { count: 3 }
    );
}
