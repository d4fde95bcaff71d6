use kaesar_view::context::scale_by_dpi;
use kaesar_view::view::{Align, EntryId, EntryKind, IdFeeder, SliderId};

#[test]
fn slider_labels() {
    assert_eq!(SliderId::LightIntensity.label(), "Intensity");
    assert_eq!(SliderId::LightWarmth.label(), "Warmth");
    assert_eq!(SliderId::FontSize.label(), "Font Size");
    assert_eq!(SliderId::ContrastExponent.label(), "Contrast Exponent");
    assert_eq!(SliderId::ContrastGrey.label(), "Contrast Grey");
}

#[test]
fn align_offsets() {
    assert_eq!(Align::Left(5).offset(20, 100), 5);
    assert_eq!(Align::Right(5).offset(20, 100), 75);
    assert_eq!(Align::Center.offset(21, 100), 39);
    assert_eq!(Align::Center.offset(101, 100), 0);
    assert_eq!(Align::Center.offset(103, 100), -1);
}

#[test]
fn entry_texts() {
    let entries = vec![
        EntryKind::Message("Hello".to_string(), None),
        EntryKind::Command("Quit".to_string(), EntryId::Quit),
        EntryKind::CheckBox("Fuzzy".to_string(), EntryId::ToggleFuzzy, true),
        EntryKind::RadioButton("Large".to_string(), EntryId::SetFontSize(12), false),
        EntryKind::SubMenu("Sort".to_string(), vec![EntryKind::Separator]),
        EntryKind::More(vec![]),
        EntryKind::Separator,
    ];
    let texts: Vec<&str> = entries.iter().map(|e| e.text()).collect();
    assert_eq!(texts, vec!["Hello", "Quit", "Fuzzy", "Large", "Sort", "More", ""]);
    let separators: Vec<bool> = entries.iter().map(|e| e.is_separator()).collect();
    assert_eq!(separators, vec![false, false, false, false, false, false, true]);
}

#[test]
fn entry_states() {
    let mut check = EntryKind::CheckBox("Fuzzy".to_string(), EntryId::ToggleFuzzy, true);
    assert_eq!(check.get(), Some(true));
    check.set(false);
    assert_eq!(check.get(), Some(false));
    assert_eq!(check.text(), "Fuzzy");
    let mut radio = EntryKind::RadioButton("Large".to_string(), EntryId::SetFontSize(12), false);
    radio.set(true);
    assert_eq!(radio.get(), Some(true));
    let mut command = EntryKind::Command("Quit".to_string(), EntryId::Quit);
    command.set(true);
    assert_eq!(command.get(), None);
    assert_eq!(command.text(), "Quit");
}

#[test]
fn entries_are_copied_deeply() {
    let menu = EntryKind::SubMenu(
        "Sort".to_string(),
        vec![EntryKind::CheckBox("Reverse".to_string(), EntryId::ReverseOrder, true)],
    );
    let copy = menu.clone();
    match copy {
        EntryKind::SubMenu(text, entries) => {
            assert_eq!(text, "Sort");
            assert_eq!(entries.len(), 1);
            assert_eq!(entries[0].get(), Some(true));
        }
        _ => panic!("not a submenu"),
    }
}

#[test]
fn ids_come_one_after_another() {
    let mut feeder = IdFeeder::new(1);
    assert_eq!(feeder.next(), 1);
    assert_eq!(feeder.next(), 2);
    assert_eq!(feeder.next(), 3);
}

#[test]
fn lengths_scale_with_resolution() {
    assert_eq!(scale_by_dpi(12, 300), 12);
    assert_eq!(scale_by_dpi(12, 212), 8);
    assert_eq!(scale_by_dpi(2, 167), 1);
}

#[test]
fn a_copied_menu_keeps_its_nested_entries() {
    let entry = EntryKind::SubMenu(
        "Library".to_string(),
        vec![
            EntryKind::Message("Hello".to_string(), Some("world".to_string())),
            EntryKind::Command("Open".to_string(), EntryId::Load(std::path::PathBuf::from("/a/b.pdf"))),
            EntryKind::More(vec![EntryKind::RadioButton(
                "Target".to_string(),
                EntryId::SetSearchTarget(Some("x".to_string())),
                true,
            )]),
            EntryKind::Separator,
        ],
    );
    let copy = entry.clone();
    assert_eq!(format!("{:?}", copy), format!("{:?}", entry));
    assert_eq!(EntryId::CopyTo(std::path::PathBuf::from("/c"), 3).clone(), EntryId::CopyTo(std::path::PathBuf::from("/c"), 3));
}

#[test]
fn views_take_consecutive_ids() {
    let mut feeder = IdFeeder::new(u64::MAX);
    assert_eq!(feeder.next(), u64::MAX);
    assert_eq!(feeder.next(), 0);
}
