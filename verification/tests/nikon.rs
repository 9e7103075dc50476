use dusklapse::camera::error::CameraError;
use dusklapse::camera::model::{CameraEvent, Dial};
use dusklapse::camera::nikon::{
    battery_status, check_write, dial_property, enumerated, map_event, non_empty, parse_value,
    property_dial, PROP_EXPOSURE_INDEX,
};
use dusklapse::camera::ptpip::{
    Form, PropDesc, PtpEvent, PtpValue, EVENT_CAPTURE_COMPLETE, EVENT_DEVICE_PROP_CHANGED,
    EVENT_OBJECT_ADDED,
};

fn event(code: u16, params: &[u32]) -> PtpEvent {
    PtpEvent {
        code,
        params: params.to_vec(),
    }
}

/// The parameter values are the ones a Z 6 actually sent, in decimal as they appeared in the log.
#[test]
fn maps_dial_changes_to_the_dial_that_moved() {
    assert_eq!(
        map_event(&event(EVENT_DEVICE_PROP_CHANGED, &[20493])), // 0x500D
        Some(CameraEvent::DialChanged {
            dial: Dial::Shutter
        })
    );
    assert_eq!(
        map_event(&event(EVENT_DEVICE_PROP_CHANGED, &[20487])), // 0x5007
        Some(CameraEvent::DialChanged {
            dial: Dial::Aperture
        })
    );
    assert_eq!(
        map_event(&event(EVENT_DEVICE_PROP_CHANGED, &[20495])), // 0x500F
        Some(CameraEvent::DialChanged { dial: Dial::Iso })
    );
}

/// Focus chatter is the reason the filter exists.
#[test]
fn ignores_the_focus_chatter() {
    for property in [20490u32, 20508] {
        // 0x500A FocusMode, 0x501C FocusMeteringMode
        assert_eq!(map_event(&event(EVENT_DEVICE_PROP_CHANGED, &[property])), None);
    }
    // And a property-changed with no parameter must not panic.
    assert_eq!(map_event(&event(EVENT_DEVICE_PROP_CHANGED, &[])), None);
}

/// One frame per exposure, not one per written file.
#[test]
fn counts_frames_by_capture_not_by_file() {
    assert_eq!(
        map_event(&event(EVENT_CAPTURE_COMPLETE, &[0])),
        Some(CameraEvent::FrameRecorded)
    );
    // RAW+JPEG emits this twice per frame, so it must not become a frame event.
    assert_eq!(map_event(&event(EVENT_OBJECT_ADDED, &[689539863])), None);
}

#[test]
fn strips_nikons_zero_padded_serial() {
    assert_eq!(
        non_empty("00000000000000000000000006068685".trim_start_matches('0')),
        Some("6068685".to_string())
    );
    // All zeros must not collapse to an empty string masquerading as a serial.
    assert_eq!(non_empty("0000".trim_start_matches('0')), None);
}

// ---------------------------------------------------------------------------------------------

#[test]
fn every_dial_property_names_its_dial() {
    for dial in Dial::ALL {
        assert_eq!(property_dial(dial_property(dial)), Some(dial));
    }
    assert_eq!(property_dial(0x500A), None);
}

fn iso_desc(writable: bool, form: Form) -> PropDesc {
    PropDesc {
        property: PROP_EXPOSURE_INDEX,
        datatype: 0x0004,
        writable,
        current: PtpValue::U16(320),
        form,
    }
}

#[test]
fn a_range_form_yields_no_selectable_values() {
    let desc = iso_desc(
        true,
        Form::Range {
            min: PtpValue::U16(100),
            max: PtpValue::U16(6400),
            step: PtpValue::U16(1),
        },
    );
    assert!(enumerated(&desc).is_empty());
    let listed = iso_desc(true, Form::Enumeration(vec![PtpValue::U16(100), PtpValue::U16(200)]));
    assert_eq!(enumerated(&listed), vec![100, 200]);
}

#[test]
fn a_write_must_be_writable_and_offered() {
    let listed = iso_desc(true, Form::Enumeration(vec![PtpValue::U16(100), PtpValue::U16(200)]));
    assert!(check_write(Dial::Iso, "200", 200, &listed).is_ok());
    match check_write(Dial::Iso, "300", 300, &listed) {
        Err(CameraError::ValueNotSelectable { dial, value }) => {
            assert_eq!(dial, "ISO");
            assert_eq!(value, "300");
        }
        other => panic!("{other:?}"),
    }
    match check_write(Dial::Iso, "200", 200, &iso_desc(false, Form::Any)) {
        Err(CameraError::Unavailable(m)) => {
            assert_eq!(m, "ISO - the camera reports it as read-only right now")
        }
        other => panic!("{other:?}"),
    }
    assert!(check_write(Dial::Iso, "12345", 12345, &iso_desc(true, Form::Any)).is_ok());
    assert_eq!(parse_value(Dial::Iso, "320").unwrap(), 320);
    assert!(matches!(
        parse_value(Dial::Iso, "auto"),
        Err(CameraError::ValueNotSelectable { .. })
    ));
}

#[test]
fn battery_is_capped_and_absent_charge_is_no_error() {
    let mut desc = iso_desc(true, Form::Any);
    desc.current = PtpValue::U8(140);
    let status = battery_status(Ok(desc)).unwrap().unwrap();
    assert_eq!(status.percent, Some(100));
    assert_eq!(status.label, "100%");

    let mut low = iso_desc(true, Form::Any);
    low.current = PtpValue::U8(35);
    assert_eq!(battery_status(Ok(low)).unwrap().unwrap().label, "35%");

    assert!(battery_status(Err(CameraError::Unavailable("x".into())))
        .unwrap()
        .is_none());
    assert!(battery_status(Err(CameraError::Busy)).is_err());
}
