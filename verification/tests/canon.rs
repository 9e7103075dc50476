use dusklapse::camera::canon::{
    content_url, endpoint_suffix, explain, falls_back, file_name, frames_in, is_jpeg_path,
    polling_url, refusal, resolve_endpoints, settled, explain_unreachable, BatteryResponse,
    PollingResponse, Rendition, Setting, Watch,
};
use dusklapse::camera::error::CameraError;
use dusklapse::camera::model::{CameraTarget, Dial, Vendor};

fn a_setting() -> Setting {
    Setting {
        value: Some("1/250".into()),
        ability: vec!["1/250".into()],
    }
}

fn refused() -> CameraError {
    CameraError::Rejected {
        status: 503,
        message: "Mode not supported".into(),
    }
}

/// A manual lens leaves the aperture unreadable for as long as it is mounted. Losing the other
/// two dials over it would make the camera useless for a case that works perfectly well.
#[test]
fn one_unreadable_dial_does_not_cost_the_others() {
    let settled = settled(Ok(Some(a_setting())), Err(refused()), Ok(Some(a_setting())))
        .expect("two working dials are still a usable camera");

    assert!(settled[0].is_some(), "shutter survives");
    assert!(settled[1].is_none(), "aperture is simply absent");
    assert!(settled[2].is_some(), "ISO survives");
}

/// All three failing is not a dial problem, and showing empty dials would hide a camera that
/// has gone off the network.
#[test]
fn a_camera_that_answers_nothing_is_an_error() {
    assert!(settled(Err(refused()), Err(refused()), Err(refused())).is_err());
}

#[test]
fn three_working_dials_come_back_whole() {
    let settled = settled(
        Ok(Some(a_setting())),
        Ok(Some(a_setting())),
        Ok(Some(a_setting())),
    )
    .unwrap();
    assert!(settled.iter().all(Option::is_some));
}

#[test]
fn each_ccapi_version_is_asked_the_way_it_expects() {
    // 1.0.0 takes `continue`, whose default already means answer now.
    assert_eq!(
        polling_url("http://192.168.1.2:8080/ccapi/ver100/event/polling"),
        "http://192.168.1.2:8080/ccapi/ver100/event/polling"
    );
    // 1.1.0 and later take `timeout`.
    assert_eq!(
        polling_url("http://192.168.1.2:8080/ccapi/ver110/event/polling"),
        "http://192.168.1.2:8080/ccapi/ver110/event/polling?timeout=immediately"
    );
    assert_eq!(
        polling_url("http://192.168.1.2:8080/ccapi/ver130/event/polling"),
        "http://192.168.1.2:8080/ccapi/ver130/event/polling?timeout=immediately"
    );
}

#[test]
fn both_shapes_of_content_entry_become_one_url() {
    let target = CameraTarget::new(Vendor::Canon, "192.168.1.2", 8080);
    let expected = "http://192.168.1.2:8080/ccapi/ver100/contents/sd/100CANON/IMG_0002.JPG";

    // A path, as ver1.1.0 and later report it.
    assert_eq!(
        content_url(&target, "/ccapi/ver100/contents/sd/100CANON/IMG_0002.JPG"),
        expected
    );
    // A whole URL, as ver1.0.0 reports it - left exactly as it came.
    assert_eq!(content_url(&target, expected), expected);
}

#[test]
fn only_jpeg_paths_are_fetched() {
    assert!(is_jpeg_path(
        "/ccapi/ver110/contents/sd/100CANON/IMG_0042.JPG"
    ));
    assert!(is_jpeg_path(
        "/ccapi/ver110/contents/sd/100CANON/IMG_0042.jpeg"
    ));
    // The RAW companion, which must never be pulled.
    assert!(!is_jpeg_path(
        "/ccapi/ver110/contents/sd/100CANON/IMG_0042.CR3"
    ));
    assert!(!is_jpeg_path(
        "/ccapi/ver110/contents/sd/100CANON/MVI_0042.MP4"
    ));
}

/// RAW+JPEG writes two files for one exposure, grouped back into the frame they came from.
#[test]
fn a_raw_and_its_jpeg_are_one_frame() {
    let added = [
        "/ccapi/ver110/contents/sd/100CANON/IMG_0042.CR3".to_string(),
        "/ccapi/ver110/contents/sd/100CANON/IMG_0042.JPG".to_string(),
    ];

    let frames = frames_in(&added);
    assert_eq!(frames.len(), 1, "one exposure, one frame");
    assert_eq!(
        frames[0].jpeg.as_deref(),
        Some("/ccapi/ver110/contents/sd/100CANON/IMG_0042.JPG"),
        "the small file is the one to fetch"
    );
}

/// Two exposures can land in one answer when they fall inside the same poll.
#[test]
fn separate_exposures_stay_separate_frames() {
    let added = [
        "/ccapi/ver110/contents/sd/100CANON/IMG_0042.JPG".to_string(),
        "/ccapi/ver110/contents/sd/100CANON/IMG_0043.JPG".to_string(),
    ];
    assert_eq!(frames_in(&added).len(), 2);
}

/// Shooting RAW alone is still a frame; there is simply nothing to measure it with.
#[test]
fn a_raw_only_frame_counts_but_offers_no_preview() {
    let added = ["/ccapi/ver110/contents/sd/100CANON/IMG_0042.CR3".to_string()];

    let frames = frames_in(&added);
    assert_eq!(frames.len(), 1);
    assert!(frames[0].jpeg.is_none());
}

/// A ring turned on the body must reach the app.
#[test]
fn a_changed_dial_is_reported() {
    let answer = PollingResponse {
        addedcontents: Vec::new(),
        tv: true,
        av: false,
        iso: true,
    };

    assert!(!answer.is_quiet());
    assert_eq!(answer.changed_dials(), vec![Dial::Shutter, Dial::Iso]);
}

/// Between frames the camera answers with nothing to report, which is not an event.
#[test]
fn an_empty_answer_is_quiet() {
    let answer = PollingResponse {
        addedcontents: Vec::new(),
        tv: false,
        av: false,
        iso: false,
    };
    assert!(answer.is_quiet());
    assert!(answer.changed_dials().is_empty());
}

#[test]
fn a_mode_refusal_says_what_to_do_about_it() {
    let explained = explain(503, "Mode not supported".into());
    assert!(explained.starts_with("Mode not supported"), "{explained}");
    assert!(explained.contains("set it to M"), "{explained}");
}

/// Canon's own wording is usually the clearest thing available; only the one case is wrapped.
#[test]
fn other_refusals_are_passed_through_untouched() {
    assert_eq!(
        explain(400, "Invalid parameter".into()),
        "Invalid parameter"
    );
    // A 503 about something other than the mode is not this problem.
    assert_eq!(explain(503, "Device busy".into()), "Device busy");
}

#[test]
fn endpoint_suffix_strips_the_version_segment() {
    assert_eq!(
        endpoint_suffix("/ccapi/ver100/shooting/settings/tv"),
        Some("shooting/settings/tv")
    );
    assert_eq!(
        endpoint_suffix("/ccapi/ver130/deviceinformation"),
        Some("deviceinformation")
    );
    // Not a CCAPI path, or nothing left after the version.
    assert_eq!(endpoint_suffix("/other/ver100/thing"), None);
    assert_eq!(endpoint_suffix("/ccapi/ver100"), None);
}

#[test]
fn newer_api_versions_win() {
    let paths = [
        "/ccapi/ver100/shooting/settings/iso".to_string(),
        "/ccapi/ver130/shooting/settings/iso".to_string(),
    ];

    let target = CameraTarget::new(Vendor::Canon, "192.168.1.2", 8080);
    let endpoints = resolve_endpoints(&target, &paths);

    assert_eq!(
        endpoints.endpoint("shooting/settings/iso").ok(),
        Some("http://192.168.1.2:8080/ccapi/ver130/shooting/settings/iso")
    );
    assert_eq!(endpoints.len(), 1);
}

#[test]
fn battery_keywords_and_percentages_both_work() {
    let keyword = BatteryResponse {
        level: "half".into(),
    }
    .into_status();
    assert_eq!(keyword.percent, Some(50));

    let numeric = BatteryResponse { level: "63".into() }.into_status();
    assert_eq!(numeric.percent, Some(63));

    let unknown = BatteryResponse {
        level: "unknown".into(),
    }
    .into_status();
    assert_eq!(unknown.percent, None);
    assert_eq!(unknown.label, "unknown");
}

// ---------------------------------------------------------------------------------------------

#[test]
fn a_missing_endpoint_is_unavailable() {
    let target = CameraTarget::new(Vendor::Canon, "10.0.0.2", 8080);
    let endpoints = resolve_endpoints(&target, &["/ccapi/ver100/deviceinformation".to_string()]);
    match endpoints.endpoint("devicestatus/battery") {
        Err(CameraError::Unavailable(m)) => assert_eq!(m, "devicestatus/battery"),
        other => panic!("{other:?}"),
    }
    assert_eq!(
        endpoints.endpoint("deviceinformation").unwrap(),
        "http://10.0.0.2:8080/ccapi/ver100/deviceinformation"
    );
}

#[test]
fn the_first_answer_sets_the_baseline_and_announces_no_frame() {
    let mut watch = Watch::new();
    let quiet = PollingResponse {
        addedcontents: Vec::new(),
        tv: false,
        av: false,
        iso: false,
    };
    assert!(watch.answered(&quiet).is_none());

    let on_card = PollingResponse {
        addedcontents: vec!["/ccapi/ver110/contents/sd/100CANON/IMG_0001.JPG".into(); 3],
        tv: false,
        av: false,
        iso: false,
    };
    let first = watch.answered(&on_card).unwrap();
    assert!(first.describe);
    assert!(first.frames.is_empty());
    assert_eq!(first.already_on_card, 3);

    let new_frame = PollingResponse {
        addedcontents: vec![
            "/ccapi/ver110/contents/sd/100CANON/IMG_0002.CR3".into(),
            "/ccapi/ver110/contents/sd/100CANON/IMG_0002.JPG".into(),
        ],
        tv: true,
        av: false,
        iso: false,
    };
    let next = watch.answered(&new_frame).unwrap();
    assert!(!next.describe);
    assert_eq!(next.frames.len(), 1);
    assert_eq!(next.dials, vec![Dial::Shutter]);
}

#[test]
fn a_failing_poll_is_reported_loudly_once() {
    let mut watch = Watch::new();
    assert!(watch.failed());
    assert!(!watch.failed());
}

#[test]
fn a_refusal_carries_the_cameras_own_words() {
    match refusal(503, Some("Mode not supported".into()), "{}", "503 Service Unavailable") {
        CameraError::Rejected { status, message } => {
            assert_eq!(status, 503);
            assert!(message.starts_with("Mode not supported. The camera's mode dial"));
        }
        other => panic!("{other:?}"),
    }
    match refusal(404, None, "  not here \n", "404 Not Found") {
        CameraError::Rejected { message, .. } => assert_eq!(message, "not here"),
        other => panic!("{other:?}"),
    }
    match refusal(500, None, "   ", "500 Internal Server Error") {
        CameraError::Rejected { message, .. } => assert_eq!(message, "500 Internal Server Error"),
        other => panic!("{other:?}"),
    }
}

#[test]
fn an_unreachable_camera_is_explained() {
    match explain_unreachable(CameraError::Transport("connection refused".into()), "10.0.0.2", 8080) {
        CameraError::Transport(m) => {
            assert!(m.starts_with("connection refused. Nothing answered at 10.0.0.2:8080"));
            assert!(m.contains("CCAPI ships dormant"));
        }
        other => panic!("{other:?}"),
    }
    assert!(matches!(
        explain_unreachable(CameraError::Busy, "10.0.0.2", 8080),
        CameraError::Busy
    ));
}

#[test]
fn only_a_refused_display_copy_falls_back_to_the_file() {
    let bad_request = CameraError::Rejected {
        status: 400,
        message: String::new(),
    };
    assert!(falls_back(Rendition::Display, &bad_request));
    assert!(!falls_back(Rendition::Main, &bad_request));
    assert!(!falls_back(Rendition::Display, &refused()));
    assert_eq!(Rendition::Display.kind(), "display");
    assert_eq!(Rendition::Main.kind(), "main");
}

#[test]
fn a_file_name_is_the_last_segment() {
    let name: String = file_name(&"/ccapi/ver110/contents/sd/100CANON/IMG_0042.JPG".chars().collect::<Vec<_>>())
        .into_iter()
        .collect();
    assert_eq!(name, "IMG_0042.JPG");
}
