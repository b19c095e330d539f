//! How the weather of a place is shown.

use vstd::prelude::*;
use super::text::same_text;

verus! {

/// The sign that stands for a description of the weather; the sign for a
/// few clouds where the description is not one of those known.
pub open spec fn icon_for(description: Seq<char>) -> Seq<char> {
    if description == "clear sky"@ {
        "\u{2600}\u{fe0f}"@
    } else if description == "few clouds"@ {
        "\u{1f324}"@
    } else if description == "scattered clouds"@ {
        "\u{2601}\u{fe0f}"@
    } else if description == "broken clouds"@ {
        "\u{2601}\u{fe0f}\u{2601}\u{fe0f}"@
    } else if description == "shower rain"@ {
        "\u{1f327}"@
    } else if description == "rain"@ {
        "\u{1f327}"@
    } else if description == "thunderstorm"@ {
        "\u{26a1}\u{fe0f}"@
    } else if description == "snow"@ {
        "\u{2744}\u{fe0f}"@
    } else if description == "mist"@ {
        "\u{1f32b}"@
    } else {
        "\u{1f324}"@
    }
}

/// The sign that stands for a description of the weather.
pub fn weather_icon(description: &str) -> (icon: &'static str)
    ensures
        icon@ == icon_for(description@),
{
    if same_text(description, "clear sky") {
        "\u{2600}\u{fe0f}"
    } else if same_text(description, "few clouds") {
        "\u{1f324}"
    } else if same_text(description, "scattered clouds") {
        "\u{2601}\u{fe0f}"
    } else if same_text(description, "broken clouds") {
        "\u{2601}\u{fe0f}\u{2601}\u{fe0f}"
    } else if same_text(description, "shower rain") {
        "\u{1f327}"
    } else if same_text(description, "rain") {
        "\u{1f327}"
    } else if same_text(description, "thunderstorm") {
        "\u{26a1}\u{fe0f}"
    } else if same_text(description, "snow") {
        "\u{2744}\u{fe0f}"
    } else if same_text(description, "mist") {
        "\u{1f32b}"
    } else {
        "\u{1f324}"
    }
}

} // verus!
