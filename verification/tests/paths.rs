use camera::clock::{MAX_MILLIS, MIN_MILLIS};
use camera::paths::{
    is_event_file, keyframe, keyframe_event, keyframes, last_keyframe, segment_name, to_path,
};

#[test]
fn keyframe_names_the_two_second_window() {
    // 1700000000000 ms is 2023-11-14 22:13:20 UTC: second 20, window 10.
    assert_eq!(
        keyframe("/mnt/usb/storage", 1_700_000_000_000),
        Some("/mnt/usb/storage/keyframes/2023/11/14/22/13/10.jpg".to_string())
    );
}

#[test]
fn keyframe_before_1970() {
    // One millisecond before the epoch is 1969-12-31 23:59:59.999.
    assert_eq!(
        keyframe("s", -1),
        Some("s/keyframes/1969/12/31/23/59/29.jpg".to_string())
    );
}

#[test]
fn keyframe_storage_with_trailing_slash_or_empty() {
    assert_eq!(
        keyframe("/data/", 0),
        Some("/data/keyframes/1970/1/1/0/0/0.jpg".to_string())
    );
    assert_eq!(keyframe("", 0), Some("keyframes/1970/1/1/0/0/0.jpg".to_string()));
}

#[test]
fn keyframe_is_none_exactly_outside_chrono_range() {
    assert_eq!(
        keyframe("", MIN_MILLIS),
        Some("keyframes/-262143/1/1/0/0/0.jpg".to_string())
    );
    assert_eq!(
        keyframe("", MAX_MILLIS),
        Some("keyframes/262142/12/31/23/59/29.jpg".to_string())
    );
    assert_eq!(keyframe("", MIN_MILLIS - 1), None);
    assert_eq!(keyframe("", MAX_MILLIS + 1), None);
    assert_eq!(keyframe("", i64::MAX), None);
}

#[test]
fn same_window_same_keyframe() {
    let t = 1_700_000_000_000i64;
    assert_eq!(keyframe("/s", t), keyframe("/s", t + 1999));
    assert_ne!(keyframe("/s", t), keyframe("/s", t + 2000));
    assert_eq!(keyframe("/s", -2000), keyframe("/s", -1));
    assert_ne!(keyframe("/s", -1), keyframe("/s", 0));
}

#[test]
fn to_path_files_archive_segments() {
    assert_eq!(
        to_path("/st", 1_700_000_003_500, "archive", "mp4"),
        Some("/st/archive/2023/11/14/22/13/11.mp4".to_string())
    );
}

#[test]
fn keyframes_maps_url_to_storage() {
    assert_eq!(
        keyframes("/mnt/st", "/camera/keyframes/2024/1/2/3/4/5.jpg"),
        "/mnt/st/keyframes/2024/1/2/3/4/5.jpg"
    );
}

#[test]
fn last_keyframe_falls_back_to_no_signal() {
    assert_eq!(
        last_keyframe(Some("/x/keyframes/1.jpg".to_string()), "/data"),
        "/x/keyframes/1.jpg"
    );
    assert_eq!(last_keyframe(None, "/data"), "/data/camera/_ASSETS/no_signal.jpg");
    assert_eq!(last_keyframe(None, "data/"), "data/camera/_ASSETS/no_signal.jpg");
}

#[test]
fn segment_names_count_up() {
    assert_eq!(segment_name("/st/capture", 0), "/st/capture/0.mp4");
    assert_eq!(segment_name("/st/capture", 12), "/st/capture/12.mp4");
}

#[test]
fn keyframe_event_gives_paths_relative_to_storage() {
    let e = keyframe_event("/st", 1_700_000_000_000).unwrap();
    assert_eq!(e.mp4, "/st/archive/2023/11/14/22/13/10.mp4");
    assert_eq!(e.jpg, "/st/keyframes/2023/11/14/22/13/10.jpg");
    assert_eq!(e.mp4_rel, "/archive/2023/11/14/22/13/10.mp4");
    assert_eq!(e.jpg_rel, "/keyframes/2023/11/14/22/13/10.jpg");
    assert_eq!(e.timestamp, 1_700_000_000_000);
    assert!(keyframe_event("/st", MAX_MILLIS + 1).is_none());
}

#[test]
fn event_files_are_json() {
    assert!(is_event_file("10.json"));
    assert!(!is_event_file("10.jpg"));
    assert!(!is_event_file("json"));
    assert!(is_event_file(".json"));
}

#[test]
fn keyframe_url_leads_back_to_keyframe_file() {
    let e = keyframe_event("/mnt/usb/storage", 1_700_000_001_234).unwrap();
    let url = format!("/camera{}", e.jpg_rel);
    assert_eq!(keyframes("/mnt/usb/storage", &url), e.jpg);
}

#[test]
fn different_windows_different_keyframes() {
    // The last window of 2023 and the first of 2024 differ only in the date.
    let end = 1_704_067_198_000; // 2023-12-31 23:59:58 UTC
    assert_eq!(
        keyframe("/s", end),
        Some("/s/keyframes/2023/12/31/23/59/29.jpg".to_string())
    );
    assert_eq!(
        keyframe("/s", end + 2000),
        Some("/s/keyframes/2024/1/1/0/0/0.jpg".to_string())
    );
    // A leap day, and the same time of day one day apart.
    assert_eq!(
        keyframe("/s", 1_709_164_800_000),
        Some("/s/keyframes/2024/2/29/0/0/0.jpg".to_string())
    );
    assert_ne!(keyframe("/s", 1_709_164_800_000), keyframe("/s", 1_709_164_800_000 + 86_400_000));
    assert_eq!(
        keyframe("/s", 1_709_164_800_000 + 86_400_000),
        Some("/s/keyframes/2024/3/1/0/0/0.jpg".to_string())
    );
    assert_ne!(keyframe("/s", 1_700_000_001_999), keyframe("/s", 1_700_000_002_000));
    assert_eq!(keyframe("/s", 1_700_000_001_999), keyframe("/s", 1_700_000_000_000));
}
