use radio_conductor::timefmt::{default_tab_name, format_time};

#[test]
fn under_an_hour_is_mm_ss() {
    assert_eq!(format_time(0), "00:00");
    assert_eq!(format_time(59), "00:59");
    assert_eq!(format_time(75), "01:15");
    assert_eq!(format_time(600), "10:00");
    assert_eq!(format_time(3599), "59:59");
}

#[test]
fn from_an_hour_on_is_hh_mm_ss() {
    assert_eq!(format_time(3600), "01:00:00");
    assert_eq!(format_time(3725), "01:02:05");
    assert_eq!(format_time(86399), "23:59:59");
    // Hours can exceed two digits.
    assert_eq!(format_time(360_000), "100:00:00");
}

#[test]
fn tab_names_count_from_their_number() {
    assert_eq!(default_tab_name(1), "Tab 1");
    assert_eq!(default_tab_name(12), "Tab 12");
    assert_eq!(default_tab_name(305), "Tab 305");
}
