//! Name normalization and the backend normalization tables.

use fontmanager::pango::StretchClass;
use fontmanager::pango::WeightClass;
use fontmanager::pango::stretch_thousandths;
use fontmanager::pango::weight_value;
use fontmanager::text::normalize_family_chars;
use fontmanager::text::str_le;

fn normalized(s: &str) -> String {
    normalize_family_chars(s).iter().collect()
}

#[test]
fn normalize_strips_quotes_and_trims() {
    assert_eq!(normalized("'Comic Sans MS'  "), "Comic Sans MS");
    assert_eq!(normalized("  Arial"), "Arial");
    assert_eq!(normalized("Arial"), "Arial");
}

#[test]
fn normalize_strips_inner_quotes() {
    assert_eq!(normalized("O'Brien Display"), "OBrien Display");
}

#[test]
fn normalize_all_whitespace_is_empty() {
    assert_eq!(normalized("   "), "");
    assert_eq!(normalized(""), "");
    assert_eq!(normalized("''"), "");
}

#[test]
fn normalize_keeps_inner_whitespace() {
    assert_eq!(normalized("  DejaVu Sans Mono "), "DejaVu Sans Mono");
}

#[test]
fn str_le_orders_lexicographically() {
    assert!(str_le("Arial", "Arial"));
    assert!(str_le("Arial", "Courier"));
    assert!(!str_le("Courier", "Arial"));
    assert!(str_le("Arial", "Arial Black"));
    assert!(!str_le("Arial Black", "Arial"));
    // by code point: upper-case sorts before lower-case
    assert!(str_le("Zebra", "arial"));
}

#[test]
fn stretch_table_values() {
    assert_eq!(stretch_thousandths(StretchClass::UltraCondensed), 500);
    assert_eq!(stretch_thousandths(StretchClass::ExtraCondensed), 625);
    assert_eq!(stretch_thousandths(StretchClass::Condensed), 750);
    assert_eq!(stretch_thousandths(StretchClass::SemiCondensed), 875);
    assert_eq!(stretch_thousandths(StretchClass::Normal), 1000);
    assert_eq!(stretch_thousandths(StretchClass::SemiExpanded), 1125);
    assert_eq!(stretch_thousandths(StretchClass::Expanded), 1250);
    assert_eq!(stretch_thousandths(StretchClass::ExtraExpanded), 1500);
    assert_eq!(stretch_thousandths(StretchClass::UltraExpanded), 2000);
}

#[test]
fn weight_table_values() {
    assert_eq!(weight_value(WeightClass::Thin), 100);
    assert_eq!(weight_value(WeightClass::Ultralight), 200);
    assert_eq!(weight_value(WeightClass::Semilight), 250);
    assert_eq!(weight_value(WeightClass::Light), 300);
    assert_eq!(weight_value(WeightClass::Book), 350);
    assert_eq!(weight_value(WeightClass::Normal), 400);
    assert_eq!(weight_value(WeightClass::Medium), 500);
    assert_eq!(weight_value(WeightClass::Semibold), 600);
    assert_eq!(weight_value(WeightClass::Bold), 700);
    assert_eq!(weight_value(WeightClass::Ultrabold), 800);
    assert_eq!(weight_value(WeightClass::Heavy), 900);
}
