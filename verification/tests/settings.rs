use camera::settings::{flag_setting, int_setting, runtime_settings, StoredSettings};

fn none() -> StoredSettings {
    StoredSettings {
        dvr: None,
        motion: None,
        motion_sensitivity: None,
        motion_noise_cancel: None,
        framerate: None,
        rotation: None,
        storage: None,
    }
}

#[test]
fn missing_settings_take_defaults() {
    let r = runtime_settings(none()).expect("defaults");
    assert!(!r.dvr);
    assert!(!r.motion);
    assert_eq!(r.motion_sensitivity, 8);
    assert_eq!(r.motion_noise_cancel, 4);
    assert_eq!(r.framerate, 30);
    assert_eq!(r.rotation, 0);
    assert_eq!(r.storage, "runtime/camera/storage");
}

#[test]
fn stored_settings_are_read() {
    let mut s = none();
    s.dvr = Some("true".to_string());
    s.motion = Some("yes".to_string());
    s.framerate = Some("15".to_string());
    s.rotation = Some("-90".to_string());
    s.storage = Some("/mnt/cam".to_string());
    let r = runtime_settings(s).expect("all integers");
    assert!(r.dvr);
    assert!(!r.motion);
    assert_eq!(r.framerate, 15);
    assert_eq!(r.rotation, -90);
    assert_eq!(r.motion_sensitivity, 8);
    assert_eq!(r.storage, "/mnt/cam");
}

#[test]
fn unreadable_integer_setting_is_refused() {
    let mut s = none();
    s.motion_noise_cancel = Some("four".to_string());
    assert!(runtime_settings(s).is_none());
}

#[test]
fn switch_is_on_only_for_true() {
    assert!(flag_setting(&Some("true".to_string())));
    assert!(!flag_setting(&Some("True".to_string())));
    assert!(!flag_setting(&Some("true ".to_string())));
    assert!(!flag_setting(&Some("".to_string())));
    assert!(!flag_setting(&None));
}

#[test]
fn integer_setting_or_default() {
    assert_eq!(int_setting(&None, 30), Some(30));
    assert_eq!(int_setting(&Some("+7".to_string()), 30), Some(7));
    assert_eq!(int_setting(&Some("".to_string()), 30), None);
    assert_eq!(int_setting(&Some("9223372036854775808".to_string()), 30), None);
}
