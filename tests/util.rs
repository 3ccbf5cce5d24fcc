use dmserv::member::hex_to_color;
use dmserv::text::format_significant_duration;
use poise::serenity_prelude as serenity;

#[test]
fn hex_to_color_test() {
    assert_eq!(
        hex_to_color(Some("#EEEEEE".to_string())),
        serenity::Colour::new(15658734).0
    );
    assert_eq!(
        hex_to_color(Some("unparseable".to_string())),
        serenity::colours::roles::DEFAULT.0
    );
    assert_eq!(hex_to_color(None), serenity::colours::roles::DEFAULT.0);
}

#[test]
fn format_significant_duration_test() {
    assert_eq!(format_significant_duration(2 * 86_400 + 4 * 3_600), "2d 4h");
    assert_eq!(format_significant_duration(5 * 3_600 + 5 * 60 + 5), "5h 5m");
    assert_eq!(format_significant_duration(20 * 60 + 1), "20m 1s");
    assert_eq!(format_significant_duration(0), "0s");
}

#[test]
fn hex_colors_of_other_forms() {
    assert_eq!(hex_to_color(Some("112233".to_string())), 0x112233);
    assert_eq!(hex_to_color(Some("##aBc".to_string())), 0xabc);
    assert_eq!(hex_to_color(Some("#+10".to_string())), 0x10);
    assert_eq!(hex_to_color(Some("#".to_string())), 0x99AAB5);
    assert_eq!(hex_to_color(Some("#1FFFFFFFF".to_string())), 0x99AAB5);
    assert_eq!(hex_to_color(Some("#12 34".to_string())), 0x99AAB5);
}

#[test]
fn durations_at_unit_edges() {
    assert_eq!(format_significant_duration(59), "59s");
    assert_eq!(format_significant_duration(60), "1m 0s");
    assert_eq!(format_significant_duration(3_600), "1h 0m");
    assert_eq!(format_significant_duration(86_400), "1d 0h");
    assert_eq!(format_significant_duration(123 * 86_400 + 59), "123d 0h");
    assert_eq!(
        format_significant_duration(u64::MAX),
        "213503982334601d 7h"
    );
}
