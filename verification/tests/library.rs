use dusklapse::camera::error::CameraError;
use dusklapse::camera::histogram::{dimensions, grey_histogram, rgb_histogram, size_in_pixels};
use dusklapse::camera::mock::{camera_info, offers, MockState};
use dusklapse::camera::model::{CameraTarget, Dial, Histogram, PreviewInfo, Vendor};
use dusklapse::camera::patience::{after_attempt, Patience, RETRY_INTERVAL_NANOS};
use dusklapse::ramp::{dial_order, RampMode};

#[test]
fn the_simulator_round_trips_a_dial_change() {
    let mut camera = MockState::new();
    camera.set(Dial::Shutter, "1/30").unwrap();
    assert_eq!(camera.current(Dial::Shutter), "1/30");
    assert_eq!(camera.current(Dial::Iso), "400");
}

#[test]
fn the_simulator_refuses_a_value_it_does_not_offer() {
    let mut camera = MockState::new();
    let error = camera.set(Dial::Iso, "50").unwrap_err();
    assert_eq!(error.kind(), "valueNotSelectable");
    assert_eq!(camera.current(Dial::Iso), "400");
    assert!(offers(Dial::Aperture, "f2.8"));
    assert!(!offers(Dial::Aperture, "f/2.8"));
}

#[test]
fn the_simulated_battery_drains_a_percent_per_ten_frames() {
    let mut camera = MockState::new();
    assert_eq!(camera.battery().percent, Some(100));
    for _ in 0..25 {
        camera.record_shot();
    }
    let battery = camera.battery();
    assert_eq!(battery.percent, Some(98));
    assert_eq!(battery.label, "98%");
    let info = camera_info("1.2.3");
    assert_eq!(info.firmware.as_deref(), Some("1.2.3"));
}

#[test]
fn a_greyscale_frame_gives_four_identical_curves() {
    let histogram = grey_histogram(&[0, 128, 255, 128]);
    assert_eq!(histogram.pixels, 4);
    assert_eq!(histogram.red, histogram.luma);
    assert_eq!(histogram.green, histogram.luma);
    assert_eq!(histogram.blue, histogram.luma);
    assert_eq!(histogram.luma[128], 2);
    assert_eq!(histogram.luma.iter().sum::<u32>(), 4);
}

#[test]
fn a_colour_frame_counts_each_channel_separately() {
    // Two pixels: pure red, then pure blue; a trailing byte that is no pixel.
    let histogram = rgb_histogram(&[255, 0, 0, 0, 0, 255, 9], &[54, 18]);
    assert_eq!(histogram.pixels, 2);
    assert_eq!(histogram.red[255], 1);
    assert_eq!(histogram.red[0], 1);
    assert_eq!(histogram.blue[255], 1);
    assert_eq!(histogram.green[0], 2);
    assert_eq!(histogram.luma[54], 1);
    assert_eq!(histogram.luma[18], 1);
    for channel in [&histogram.red, &histogram.green, &histogram.blue, &histogram.luma] {
        assert_eq!(channel.len(), Histogram::BINS);
        assert_eq!(channel.iter().sum::<u32>(), 2);
    }
}

#[test]
fn an_empty_histogram_has_every_bin() {
    let histogram = Histogram::empty();
    assert_eq!(histogram.red.len(), 256);
    assert_eq!(histogram.pixels, 0);
}

/// A frame header with nothing after it: enough to know the size, nothing to decode.
fn header_only_jpeg(width: u16, height: u16) -> Vec<u8> {
    let mut bytes = vec![0xFF, 0xD8, 0xFF, 0xC0, 0x00, 0x11, 0x08];
    bytes.extend_from_slice(&height.to_be_bytes());
    bytes.extend_from_slice(&width.to_be_bytes());
    bytes.push(3);
    for id in 1..=3u8 {
        bytes.extend_from_slice(&[id, 0x11, 0x00]);
    }
    bytes
}

#[test]
fn the_size_comes_from_the_jpeg_header() {
    assert_eq!(dimensions(&header_only_jpeg(640, 480)), Some((640, 480)));
    assert_eq!(dimensions(b"definitely not a jpeg"), None);
    assert_eq!(size_in_pixels(Some((6000, 4000))), Some((6000, 4000)));
    assert_eq!(size_in_pixels(None), None);
}

#[test]
fn a_busy_camera_is_asked_again_within_the_budget() {
    let budget = 2 * RETRY_INTERVAL_NANOS;
    assert!(matches!(after_attempt(Err(CameraError::Busy), 0, budget), Patience::Retry));
    assert!(matches!(
        after_attempt(Err(CameraError::Busy), budget - RETRY_INTERVAL_NANOS + 1, budget),
        Patience::Finish(Err(CameraError::Busy))
    ));
    // No budget still means one attempt, and no retry.
    assert!(matches!(
        after_attempt(Err(CameraError::Busy), 0, 0),
        Patience::Finish(Err(CameraError::Busy))
    ));
    // A real refusal is not retried, and success is success.
    assert!(matches!(
        after_attempt(Err(CameraError::Rejected { status: 0x2002, message: "no".into() }), 0, budget),
        Patience::Finish(Err(CameraError::Rejected { .. }))
    ));
    assert!(matches!(after_attempt(Ok(()), 0, budget), Patience::Finish(Ok(()))));
}

#[test]
fn sunrise_spends_the_dials_in_the_reverse_order() {
    assert_eq!(dial_order(RampMode::Sunset), [Dial::Shutter, Dial::Aperture, Dial::Iso]);
    assert_eq!(dial_order(RampMode::Sunrise), [Dial::Iso, Dial::Aperture, Dial::Shutter]);
}

#[test]
fn every_error_has_its_own_kind() {
    let errors = [
        CameraError::NotConnected,
        CameraError::UnsupportedVendor { vendor: Vendor::Sony },
        CameraError::Transport("x".into()),
        CameraError::Rejected { status: 1, message: "x".into() },
        CameraError::Busy,
        CameraError::Protocol("x".into()),
        CameraError::Unavailable("x".into()),
        CameraError::ValueNotSelectable { dial: "ISO", value: "x".into() },
    ];
    let kinds: Vec<&str> = errors.iter().map(|e| e.kind()).collect();
    assert_eq!(
        kinds,
        vec![
            "notConnected",
            "unsupportedVendor",
            "transport",
            "rejected",
            "busy",
            "protocol",
            "unavailable",
            "valueNotSelectable"
        ]
    );
}

#[test]
fn vendors_and_dials_have_their_names_and_ports() {
    assert_eq!(Vendor::Canon.default_port(), 8080);
    assert_eq!(Vendor::Nikon.default_port(), 15740);
    assert_eq!(Vendor::Mock.label(), "Simulator");
    assert_eq!(Dial::Iso.label(), "ISO");
    let target = CameraTarget::new(Vendor::Nikon, "192.168.1.1", 15740);
    assert_eq!(target.host, "192.168.1.1");
}

#[test]
fn preview_metadata_reports_the_image_size() {
    let info = PreviewInfo::of("IMG_0001.JPG".into(), (6000, 4000), 1_234_567);
    assert_eq!(info.bytes, 1_234_567);
    assert_eq!((info.width, info.height), (6000, 4000));
}
