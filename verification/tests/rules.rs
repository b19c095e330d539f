use learn_rust::accounting::transaction_type;
use learn_rust::text::same_text;
use learn_rust::weather::weather_icon;

#[test]
fn texts_are_the_same_when_their_characters_are() {
    assert!(same_text("", ""));
    assert!(same_text("rain", "rain"));
    assert!(same_text("caf\u{e9} \u{1f327}", "caf\u{e9} \u{1f327}"));
    assert!(!same_text("rain", "Rain"));
    assert!(!same_text("rain", "rains"));
    assert!(!same_text("rain", ""));
    assert!(!same_text("", "rain"));
    assert!(!same_text("caf\u{e9}", "cafe"));
    assert!(!same_text("ab", "ba"));
}

#[test]
fn each_known_weather_has_its_sign() {
    assert_eq!(weather_icon("clear sky"), "\u{2600}\u{fe0f}");
    assert_eq!(weather_icon("few clouds"), "\u{1f324}");
    assert_eq!(weather_icon("scattered clouds"), "\u{2601}\u{fe0f}");
    assert_eq!(
        weather_icon("broken clouds"),
        "\u{2601}\u{fe0f}\u{2601}\u{fe0f}"
    );
    assert_eq!(weather_icon("shower rain"), "\u{1f327}");
    assert_eq!(weather_icon("rain"), "\u{1f327}");
    assert_eq!(weather_icon("thunderstorm"), "\u{26a1}\u{fe0f}");
    assert_eq!(weather_icon("snow"), "\u{2744}\u{fe0f}");
    assert_eq!(weather_icon("mist"), "\u{1f32b}");
}

#[test]
fn unknown_weather_has_the_sign_of_a_few_clouds() {
    assert_eq!(weather_icon(""), "\u{1f324}");
    assert_eq!(weather_icon("Rain"), "\u{1f324}");
    assert_eq!(weather_icon("light rain"), "\u{1f324}");
    assert_eq!(weather_icon("snow "), "\u{1f324}");
}

#[test]
fn an_amount_above_zero_is_a_deposit() {
    assert_eq!(transaction_type(true), "deposit");
    assert_eq!(transaction_type(false), "withdraw");
}
