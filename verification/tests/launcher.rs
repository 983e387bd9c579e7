use fenrir::catalog::{
    entry_from_fields, filter_entries, handle_key, icon_candidates, icon_commit,
    icon_needs_repaint, name_matches, resolve_icon_path, strip_exec_tokens, AppEntry, KeyInput,
    UiAction, UiState,
};

fn entry(name: &str) -> AppEntry {
    AppEntry {
        name: name.to_string(),
        exec_cmd: format!("{} %U", name),
        icon_path: None,
        comment: String::new(),
        terminal: false,
    }
}

#[test]
fn filtering_is_case_insensitive_substring() {
    let entries = vec![entry("Firefox"), entry("Terminal"), entry("files")];
    assert_eq!(filter_entries(&entries, &b"fi".to_vec()), vec![0, 2]);
    assert_eq!(filter_entries(&entries, &b"FI".to_vec()), vec![0, 2]);
    assert_eq!(filter_entries(&entries, &b"term".to_vec()), vec![1]);
    assert_eq!(filter_entries(&entries, &b"".to_vec()), vec![0, 1, 2]);
    assert!(filter_entries(&entries, &b"zzz".to_vec()).is_empty());
}

#[test]
fn name_matching_examples() {
    assert!(name_matches("Firefox", &b"IREF".to_vec()));
    assert!(!name_matches("Firefox", &b"fox2".to_vec()));
    assert!(name_matches("anything", &b"".to_vec()));
}

#[test]
fn typing_appends_and_resets_selection() {
    let mut st = UiState::new();
    st.selected = 4;
    let act = handle_key(&mut st, KeyInput::Char('a'), 9);
    assert_eq!(act, UiAction::Continue);
    assert_eq!(st.filter, b"a".to_vec());
    assert_eq!(st.selected, 0);
    handle_key(&mut st, KeyInput::Char('\u{e9}'), 9);
    assert_eq!(st.filter, "a\u{e9}".as_bytes().to_vec());
}

#[test]
fn backspace_trims_filter() {
    let mut st = UiState::new();
    handle_key(&mut st, KeyInput::Char('a'), 1);
    handle_key(&mut st, KeyInput::Char('b'), 1);
    handle_key(&mut st, KeyInput::Backspace, 1);
    assert_eq!(st.filter, b"a".to_vec());
    handle_key(&mut st, KeyInput::Backspace, 1);
    handle_key(&mut st, KeyInput::Backspace, 1);
    assert_eq!(st.filter, Vec::<u8>::new());
}

#[test]
fn selection_is_clamped_to_filtered_bounds() {
    let mut st = UiState::new();
    assert_eq!(handle_key(&mut st, KeyInput::Up, 3), UiAction::Continue);
    assert_eq!(st.selected, 0);
    handle_key(&mut st, KeyInput::Down, 3);
    handle_key(&mut st, KeyInput::Down, 3);
    assert_eq!(st.selected, 2);
    handle_key(&mut st, KeyInput::Down, 3);
    assert_eq!(st.selected, 2);
    handle_key(&mut st, KeyInput::Up, 3);
    assert_eq!(st.selected, 1);
    handle_key(&mut st, KeyInput::Down, 0);
    assert_eq!(st.selected, 1);
}

#[test]
fn enter_launches_only_a_real_selection() {
    let mut st = UiState::new();
    assert_eq!(handle_key(&mut st, KeyInput::Enter, 0), UiAction::Continue);
    st.selected = 2;
    assert_eq!(handle_key(&mut st, KeyInput::Enter, 5), UiAction::Launch(2));
    assert_eq!(handle_key(&mut st, KeyInput::Esc, 5), UiAction::Exit);
    assert_eq!(handle_key(&mut st, KeyInput::Other, 5), UiAction::Continue);
}

#[test]
fn placeholder_tokens_are_stripped() {
    assert_eq!(strip_exec_tokens("firefox %u"), b"firefox ".to_vec());
    assert_eq!(
        strip_exec_tokens("vlc %U --started-from-file %F"),
        b"vlc  --started-from-file ".to_vec()
    );
    assert_eq!(strip_exec_tokens("top"), b"top".to_vec());
    assert_eq!(strip_exec_tokens("a %z b"), b"a %z b".to_vec());
    assert_eq!(strip_exec_tokens("tail %"), b"tail %".to_vec());
}

#[test]
fn icon_candidate_paths() {
    let c = icon_candidates("firefox");
    assert_eq!(c.len(), 2);
    assert_eq!(c[0], "/usr/share/icons/hicolor/48x48/apps/firefox.png");
    assert_eq!(c[1], "/usr/share/pixmaps/firefox.png");
}

#[test]
fn icon_resolution_picks_first_existing() {
    let c = icon_candidates("x");
    assert_eq!(resolve_icon_path(&c, &vec![true, true]), Some(c[0].clone()));
    assert_eq!(resolve_icon_path(&c, &vec![false, true]), Some(c[1].clone()));
    assert_eq!(resolve_icon_path(&c, &vec![false, false]), None);
}

#[test]
fn hidden_entries_are_skipped() {
    assert!(entry_from_fields(
        "a".to_string(),
        "a".to_string(),
        None,
        String::new(),
        false,
        true
    )
    .is_none());
    let e = entry_from_fields(
        "Files".to_string(),
        "files %U".to_string(),
        Some("/tmp/i.png".to_string()),
        "browse".to_string(),
        true,
        false,
    )
    .expect("visible entry");
    assert_eq!(e.name, "Files");
    assert!(e.terminal);
}

#[test]
fn three_ticks_paint_twice_and_blank_once() {
    // Selecting entry A (with an icon), then B (without), then A again must
    // paint exactly twice, with one blank-only pass in between.
    let icon_a = Some("/usr/share/pixmaps/a.png".to_string());
    let no_icon: Option<String> = None;
    let mut last: Option<String> = None;
    let mut paints = 0;
    let mut blank_only = 0;

    for current in [&icon_a, &no_icon, &icon_a] {
        if icon_needs_repaint(&last, current) {
            // The region is blanked first on every repaint.
            match current {
                Some(_) => paints += 1,
                None => blank_only += 1,
            }
            icon_commit(&mut last, current, current.is_some());
        }
    }
    assert_eq!(paints, 2);
    assert_eq!(blank_only, 1);
    assert_eq!(last, icon_a);
}

#[test]
fn unchanged_selection_never_repaints() {
    let icon_a = Some("/usr/share/pixmaps/a.png".to_string());
    let mut last: Option<String> = None;
    assert!(icon_needs_repaint(&last, &icon_a));
    icon_commit(&mut last, &icon_a, true);
    assert!(!icon_needs_repaint(&last, &icon_a));
    let mut none_last: Option<String> = None;
    let no_icon: Option<String> = None;
    assert!(!icon_needs_repaint(&none_last, &no_icon));
    icon_commit(&mut none_last, &no_icon, false);
    assert_eq!(none_last, None);
}

#[test]
fn failed_paint_keeps_previous_path() {
    let icon_a = Some("a.png".to_string());
    let icon_b = Some("b.png".to_string());
    let mut last = icon_a.clone();
    icon_commit(&mut last, &icon_b, false);
    assert_eq!(last, icon_a);
}

#[test]
fn wide_characters_append_their_utf8_bytes() {
    let mut st = UiState::new();
    handle_key(&mut st, KeyInput::Char('\u{20ac}'), 1);
    handle_key(&mut st, KeyInput::Char('\u{10348}'), 1);
    assert_eq!(st.filter, "\u{20ac}\u{10348}".as_bytes().to_vec());
}
