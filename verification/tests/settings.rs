use sound_analysis::settings::{batch_bins, check_timing, inject_url, window_frames, SettingsError};

#[test]
fn zero_window_is_refused() {
    assert_eq!(check_timing(0, 1000), Err(SettingsError::ZeroWindow));
    assert_eq!(check_timing(0, 0), Err(SettingsError::ZeroWindow));
}

#[test]
fn interval_must_stay_below_field_lifetime() {
    assert_eq!(check_timing(20, 0), Err(SettingsError::IntervalOutOfRange));
    assert_eq!(check_timing(20, 5000), Err(SettingsError::IntervalOutOfRange));
    assert_eq!(check_timing(20, 4999), Ok(()));
    assert_eq!(check_timing(20, 1), Ok(()));
    assert_eq!(check_timing(20, 1000), Ok(()));
}

#[test]
fn window_frames_follow_rate_and_length() {
    assert_eq!(window_frames(44100, 20), 882);
    assert_eq!(window_frames(48000, 10), 480);
    assert_eq!(window_frames(44100, 10), 441);
    // Under one frame rounds up to one.
    assert_eq!(window_frames(10, 1), 1);
    assert_eq!(window_frames(0, 20), 1);
}

#[test]
fn batch_bins_follow_interval() {
    assert_eq!(batch_bins(1000, 20), 50);
    assert_eq!(batch_bins(1000, 30), 33);
    assert_eq!(batch_bins(10, 20), 1);
}

#[test]
fn inject_url_is_built_from_host_and_port() {
    assert_eq!(inject_url("127.0.0.1", 18080), "http://127.0.0.1:18080/inject");
    assert_eq!(inject_url("localhost", 0), "http://localhost:0/inject");
    assert_eq!(inject_url("h", 65535), "http://h:65535/inject");
}
