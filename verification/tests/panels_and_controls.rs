//! Panels, search behavior, tabular rendering, and action help lines.

use whimsy::controls::Action;
use whimsy::panel::{BeaPanel, Card, HashPanel, Panel, SearchConfig, Year};
use whimsy::parcels::Owner;
use whimsy::table::Columnar;

#[test]
fn action_help_lines() {
    assert_eq!(Action::CloseWindow.help(), "Close window");
    assert_eq!(Action::ToggleFullscreen.help(), "Toggle fullscreen");
    assert_eq!(Action::PrintHelp.help(), "Print help");
}

#[test]
fn years_wrap_in_order() {
    let years = Year::years(&[2019, 2020, 2021]);
    assert_eq!(years.len(), 3);
    assert_eq!(years[0], Year(2019));
    assert_eq!(years[2], Year(2021));
}

#[test]
fn year_search_matches_digits() {
    let y = Year(2024);
    let config = SearchConfig::default();
    assert!(y.contains("202", config));
    assert!(y.contains("2024", config));
    assert!(!y.contains("2025", config));
    let negative = Year(-44);
    assert!(negative.contains("-44", config));
}

#[test]
fn panel_filter_keeps_matching_entries() {
    let mut panel = Panel::new(Year::years(&[1999, 2020, 2021, 2199]));
    assert_eq!(panel.selected, 0);
    assert!(panel.value.is_none());
    panel.contains("20");
    let kept: Vec<Year> = panel.data.clone();
    assert_eq!(kept, vec![Year(2020), Year(2021)]);
}

#[test]
fn panel_filter_on_text_folds_case() {
    let entries = vec![
        "Baker Street".to_string(),
        "Mill Road".to_string(),
        "bakery lane".to_string(),
    ];
    let mut panel = Panel::new(entries);
    panel.contains("BAKE");
    assert_eq!(panel.data.len(), 2);
    assert_eq!(panel.data[0], "Baker Street");
    assert_eq!(panel.data[1], "bakery lane");
}

#[test]
fn panel_filter_folds_unicode_case() {
    // folding is the standard library's Unicode mapping, not an
    // ASCII-only one
    let entries = vec!["\u{c4}PFEL".to_string(), "BIRNEN".to_string()];
    let mut panel = Panel::new(entries);
    panel.contains("\u{e4}pfel");
    assert_eq!(panel.data.len(), 1);
    assert_eq!(panel.data[0], "\u{c4}PFEL");
}

#[test]
fn hash_panel_filter_folds_unicode_case() {
    // the entry text is Unicode lowercased; the fragment stays as
    // written
    let mut panel = HashPanel::new(vec![(1, "\u{d6}STLICH".to_string())]);
    panel.contains("\u{f6}stlich");
    assert_eq!(panel.data.len(), 1);
    let mut gone = HashPanel::new(vec![(1, "\u{d6}STLICH".to_string())]);
    gone.contains("\u{d6}STLICH");
    assert_eq!(gone.data.len(), 0);
}

#[test]
fn hash_panel_entry_contains_is_case_sensitive() {
    let key = "CAINC5N".to_string();
    let value = "Personal income".to_string();
    assert!(HashPanel::<String, String>::entry_contains("income", (&key, &value)));
    assert!(HashPanel::<String, String>::entry_contains("CAINC", (&key, &value)));
    assert!(!HashPanel::<String, String>::entry_contains("cainc", (&key, &value)));
}

#[test]
fn hash_panel_filter_folds_entry_text_only() {
    let mut panel = HashPanel::new(vec![
        (41001, "Baker County".to_string()),
        (41003, "Benton County".to_string()),
        (41005, "Clackamas County".to_string()),
    ]);
    assert!(panel.key.is_none());
    // the entry text is folded to lower case before matching
    panel.contains("ba");
    assert_eq!(panel.data.len(), 1);
    assert_eq!(panel.data[0].0, 41001);
}

#[test]
fn bea_panel_reverses_years() {
    let panel = BeaPanel::new(
        vec![2019, 2020, 2021],
        vec![("CAINC5N-1".to_string(), "Income".to_string())],
        vec![(41001, "Baker".to_string())],
    );
    let times: Vec<Year> = panel.times.data.clone();
    assert_eq!(times, vec![Year(2021), Year(2020), Year(2019)]);
    assert_eq!(panel.codes.data.len(), 1);
    assert_eq!(panel.fips.data.len(), 1);
}

#[test]
fn owner_renders_two_columns() {
    let named = Owner { name: Some("Ada".to_string()), id: "P-1".to_string() };
    assert_eq!(named.values(), vec!["Ada".to_string(), "P-1".to_string()]);
    let anonymous = Owner { name: None, id: "P-2".to_string() };
    assert_eq!(anonymous.values(), vec!["None".to_string(), "P-2".to_string()]);
    assert_eq!(Owner::headers().len(), 2);
}
