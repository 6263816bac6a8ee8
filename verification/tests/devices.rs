use sound_analysis::devices::{
    device_line, listing_order, output_device_lines, pick_containing, pick_output_device, PickError,
};

fn names(list: &[&str]) -> Vec<String> {
    list.iter().map(|s| s.to_string()).collect()
}

#[test]
fn single_match_ignores_case() {
    let n = names(&["Speakers (Realtek)", "BlackHole 2ch", "HDMI Output"]);
    assert_eq!(pick_output_device(&n, "blackhole"), Ok(1));
    assert_eq!(pick_output_device(&n, "REALTEK"), Ok(0));
}

#[test]
fn no_match_is_an_error() {
    let n = names(&["Speakers", "HDMI"]);
    assert_eq!(pick_output_device(&n, "usb"), Err(PickError::NoMatch));
    assert_eq!(pick_output_device(&Vec::new(), "usb"), Err(PickError::NoMatch));
}

#[test]
fn several_matches_are_counted() {
    let n = names(&["USB Audio A", "Speakers", "usb audio B", "USB Headset"]);
    assert_eq!(pick_output_device(&n, "usb"), Err(PickError::Ambiguous(3)));
    assert_eq!(pick_output_device(&n, "audio"), Err(PickError::Ambiguous(2)));
}

#[test]
fn empty_request_matches_every_name() {
    let n = names(&["A", "B"]);
    assert_eq!(pick_output_device(&n, ""), Err(PickError::Ambiguous(2)));
    assert_eq!(pick_output_device(&names(&["Only"]), ""), Ok(0));
}

#[test]
fn non_ascii_names_match_case_insensitively() {
    let n = names(&["扬声器 (Realtek)", "ÉCOUTEURS"]);
    assert_eq!(pick_output_device(&n, "écouteurs"), Ok(1));
    assert_eq!(pick_output_device(&n, "扬声器"), Ok(0));
}

#[test]
fn listing_is_sorted_and_stable() {
    let n = names(&["b", "a", "b", "C", "a"]);
    assert_eq!(listing_order(&n), vec![3, 1, 4, 0, 2]);
    assert_eq!(listing_order(&Vec::new()), Vec::<usize>::new());
}

#[test]
fn listing_orders_by_code_point() {
    let n = names(&["ab", "a", "é", "z", ""]);
    assert_eq!(listing_order(&n), vec![4, 1, 0, 3, 2]);
}

#[test]
fn default_device_is_marked() {
    assert_eq!(device_line("Speakers", true), "[默认] Speakers");
    assert_eq!(device_line("Speakers", false), "Speakers");
    let n = names(&["Speakers", "BlackHole 2ch"]);
    let lines = output_device_lines(&n, &vec![true, false]);
    assert_eq!(lines, vec!["BlackHole 2ch".to_string(), "[默认] Speakers".to_string()]);
}

#[test]
fn containing_pick_is_case_sensitive() {
    let n = names(&["speakers", "BlackHole 2ch"]);
    assert_eq!(pick_containing(&n, "Black"), Ok(1));
    assert_eq!(pick_containing(&n, "black"), Err(PickError::NoMatch));
    assert_eq!(pick_containing(&n, "a"), Err(PickError::Ambiguous(2)));
    assert_eq!(pick_containing(&n, "2ch"), Ok(1));
}

#[test]
fn request_longer_than_every_name_matches_none() {
    let n = names(&["ab", "a"]);
    assert_eq!(pick_output_device(&n, "abc"), Err(PickError::NoMatch));
}

#[test]
fn ascii_request_and_its_upper_case_pick_alike() {
    let n = names(&["Speakers (Realtek)", "HDMI Output"]);
    assert_eq!(pick_output_device(&n, "speak"), Ok(0));
    assert_eq!(pick_output_device(&n, "SPEAK"), Ok(0));
    assert_eq!(pick_output_device(&n, "usb"), pick_output_device(&n, "USB"));
}
