use backlight::controller::Backlight;
use backlight::decimal::format_value;
use backlight::error::BacklightError;

fn fresh(current: u64, max: u64, writable: bool) -> Backlight {
    Backlight::new(current, Some(format_value(max)), writable).unwrap()
}

#[test]
fn construction_reads_the_maximum_endpoint() {
    let b = fresh(400, 852, true);
    assert_eq!(b.min_brightness, 0);
    assert_eq!(b.max_brightness, 852);
    assert_eq!(b.span, 852);
    assert_eq!(b.current, Some(400));
    assert!(b.has_write_permission);
}

#[test]
fn construction_fails_without_maximum_endpoint() {
    assert_eq!(Backlight::new(400, None, true), Err(BacklightError::IoError));
}

#[test]
fn construction_fails_on_unreadable_maximum() {
    assert_eq!(
        Backlight::new(400, Some(b"garbage".to_vec()), true),
        Err(BacklightError::FormatError)
    );
}

#[test]
fn set_passes_an_in_range_value_through() {
    let mut b = fresh(400, 852, true);
    assert_eq!(b.set(300), Ok(300));
    assert_eq!(b.current, Some(300));
}

#[test]
fn set_clamps_above_the_maximum() {
    let mut b = fresh(50, 1000, true);
    let written = b.set(1000 + 1000).unwrap();
    assert_eq!(written, 1000);
    assert_eq!(b.get(&format_value(written)), Ok(1000));
}

#[test]
fn set_twice_reads_back_as_once() {
    let mut b = fresh(50, 1000, true);
    let first = b.set(700).unwrap();
    let after_one = b.get(&format_value(first)).unwrap();
    let second = b.set(700).unwrap();
    let after_two = b.get(&format_value(second)).unwrap();
    assert_eq!(first, second);
    assert_eq!(after_one, after_two);
}

#[test]
fn set_without_permission_fails_and_changes_nothing() {
    let mut b = fresh(50, 1000, false);
    let before = b.current;
    assert_eq!(b.set(700), Err(BacklightError::PermissionError));
    assert_eq!(b.set(0), Err(BacklightError::PermissionError));
    assert_eq!(b.current, before);
    // nothing was handed back to write, so the device still shows its old text
    assert_eq!(b.get(b"50"), Ok(50));
}

#[test]
fn bright_maps_percentages_exactly() {
    let mut b = fresh(0, 1000, true);
    assert_eq!(b.bright(0), Ok(0));
    assert_eq!(b.bright(50), Ok(500));
    assert_eq!(b.bright(33), Ok(330));
    assert_eq!(b.bright(100), Ok(1000));
}

#[test]
fn bright_rounds_down() {
    let mut b = fresh(0, 977, true);
    // round_down(977 * 33 / 100) == round_down(322.41)
    assert_eq!(b.bright(33), Ok(322));
    assert_eq!(b.get(&format_value(322)), Ok(322));
}

#[test]
fn bright_clamps_percentages_outside_the_range() {
    let mut b = fresh(0, 1000, true);
    assert_eq!(b.bright(-1000), Ok(0));
    assert_eq!(b.bright(150), Ok(1000));
}

#[test]
fn percent_then_get_stays_in_range() {
    for percent in 0..=100i64 {
        let mut b = fresh(0, 852, true);
        let written = b.bright(percent).unwrap();
        assert!(written <= 852);
        assert_eq!(written as i64, 852 * percent / 100);
        assert_eq!(b.get(&format_value(written)), Ok(written));
    }
}

#[test]
fn auto_dims_when_brighter_than_two_percent() {
    let mut b = fresh(50, 1000, true);
    // 5% is above the 2% threshold
    let written = b.auto().unwrap();
    assert_eq!(written, 0);
    assert_eq!(b.get(&format_value(written)), Ok(0));
}

#[test]
fn auto_brightens_when_at_most_two_percent() {
    let mut b = fresh(10, 1000, true);
    // 1% is below the 2% threshold
    let written = b.auto().unwrap();
    assert_eq!(written, 1000);
    assert_eq!(b.get(&format_value(written)), Ok(1000));
}

#[test]
fn auto_threshold_is_exactly_two_percent_of_the_span() {
    // span 150: two percent is 3; a cached 3 does not exceed it, a cached 4 does
    let mut at_threshold = fresh(3, 150, true);
    assert_eq!(at_threshold.auto(), Ok(150));
    let mut above_threshold = fresh(4, 150, true);
    assert_eq!(above_threshold.auto(), Ok(0));
}

#[test]
fn bright_hundredths_carries_fractional_percents() {
    let mut b = fresh(0, 1000, true);
    // 50.5% of 1000
    assert_eq!(b.bright_hundredths(5050), Ok(505));
    // 0.33% of 1000 rounds down
    assert_eq!(b.bright_hundredths(33), Ok(3));
    let mut odd = fresh(0, 977, true);
    // round_down(977 * 50.5 / 100) == round_down(493.385)
    assert_eq!(odd.bright_hundredths(5050), Ok(493));
}

#[test]
fn bright_hundredths_clamps_like_bright() {
    let mut b = fresh(0, 1000, true);
    assert_eq!(b.bright_hundredths(-100), Ok(0));
    assert_eq!(b.bright_hundredths(10000), Ok(1000));
    assert_eq!(b.bright_hundredths(15000), Ok(1000));
}

#[test]
fn bright_hundredths_agrees_with_bright_on_whole_percents() {
    for percent in 0..=100i64 {
        let mut by_percent = fresh(0, 977, true);
        let mut by_hundredths = fresh(0, 977, true);
        assert_eq!(
            by_percent.bright(percent),
            by_hundredths.bright_hundredths(100 * percent)
        );
    }
}

#[test]
fn auto_brightens_without_a_cached_value() {
    let mut b = fresh(0, 1000, true);
    b.current = None;
    assert_eq!(b.auto(), Ok(1000));
}

#[test]
fn get_rejects_malformed_text_and_keeps_the_cache() {
    let mut b = fresh(400, 852, true);
    assert_eq!(b.get(b"not a number"), Err(BacklightError::FormatError));
    assert_eq!(b.current, Some(400));
}

#[test]
fn get_refreshes_the_cache() {
    let mut b = fresh(400, 852, true);
    assert_eq!(b.get(b"123\n"), Ok(123));
    assert_eq!(b.current, Some(123));
}
