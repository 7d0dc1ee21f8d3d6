use basalytics::text::{same_text, text_precedes};

#[test]
fn same_text_compares_every_byte() {
    assert!(same_text("", ""));
    assert!(same_text("browser", "browser"));
    assert!(!same_text("browser", "browse"));
    assert!(!same_text("browser", "browseR"));
    assert!(same_text("naïve ✓", "naïve ✓"));
    assert!(!same_text("naïve", "naive"));
}

#[test]
fn text_order_is_that_of_the_bytes() {
    assert!(text_precedes("", ""));
    assert!(text_precedes("", "a"));
    assert!(!text_precedes("a", ""));
    assert!(text_precedes("abc", "abc"));
    assert!(text_precedes("abc", "abd"));
    assert!(!text_precedes("abd", "abc"));
    assert!(text_precedes("ab", "abc"));
    assert!(!text_precedes("abc", "ab"));
    assert!(text_precedes("Z", "a"));
    assert!(text_precedes("z", "é"));
}

#[test]
fn timestamps_of_one_format_order_as_in_time() {
    assert!(text_precedes("2023-07-10T12:00:00+00:00", "2023-07-10T12:00:01+00:00"));
    assert!(text_precedes("2023-07-10T23:59:59+00:00", "2023-07-11T00:00:00+00:00"));
    assert!(text_precedes("2022-12-31T23:59:59+00:00", "2023-01-01T00:00:00+00:00"));
    assert!(!text_precedes("2023-07-11T00:00:00+00:00", "2023-07-10T23:59:59+00:00"));
}
