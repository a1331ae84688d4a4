use kepler::app::{App, CommandEntry, KeyCode, KeyEvent, KeyEventKind, KeyModifiers};

fn press(code: KeyCode) -> KeyEvent {
    KeyEvent::new(code, KeyModifiers::none())
}

fn entry(name: &str, path: &str) -> CommandEntry {
    CommandEntry { name: name.into(), path: path.into() }
}

fn listed_names(app: &App) -> Vec<String> {
    app.matches().iter().map(|&i| app.commands()[i].name.clone()).collect()
}

fn type_text(app: &mut App, text: &str) {
    for c in text.chars() {
        let _ = app.handle_key(press(KeyCode::Char(c)));
    }
}

#[test]
fn edits_query_and_exits() {
    let mut app = App::default();

    let _ = app.handle_key(KeyEvent::new(KeyCode::Char('r'), KeyModifiers::none()));
    let _ = app.handle_key(KeyEvent::new(KeyCode::Backspace, KeyModifiers::none()));
    let _ = app.handle_key(KeyEvent::new(KeyCode::Esc, KeyModifiers::none()));

    assert!(app.query().is_empty());
    assert!(app.should_exit());
}

#[test]
fn enter_returns_the_selected_command() {
    let command = CommandEntry { name: "rg".into(), path: "/usr/bin/rg".into() };
    let mut app = App::new(vec![command]);

    let _ = app.handle_key(KeyEvent::new(KeyCode::Enter, KeyModifiers::none()));

    assert_eq!(app.selection(), Some("rg"));
    assert!(app.should_exit());
}

#[test]
fn empty_query_lists_every_command_alphabetically() {
    let app = App::new(vec![entry("zip", "/bin/zip"), entry("awk", "/bin/awk"), entry("ls", "/bin/ls")]);
    assert_eq!(listed_names(&app), vec!["awk", "ls", "zip"]);
    assert_eq!(app.selected(), 0);
}

#[test]
fn exact_match_then_prefix_then_substring() {
    let mut app = App::new(vec![
        entry("xgrep", "/bin/xgrep"),
        entry("grep-extra", "/bin/grep-extra"),
        entry("grep", "/bin/grep"),
        entry("egrep", "/bin/egrep"),
        entry("ls", "/bin/ls"),
    ]);
    type_text(&mut app, "grep");
    assert_eq!(listed_names(&app), vec!["grep", "grep-extra", "egrep", "xgrep"]);
}

#[test]
fn matching_ignores_case() {
    let mut app = App::new(vec![entry("GNU-Make", "/bin/GNU-Make"), entry("cmake", "/bin/cmake")]);
    type_text(&mut app, "MAKE");
    assert_eq!(listed_names(&app), vec!["cmake", "GNU-Make"]);
}

#[test]
fn no_match_gives_empty_list_and_enter_stays() {
    let mut app = App::new(vec![entry("ls", "/bin/ls")]);
    type_text(&mut app, "zz");
    assert!(app.matches().is_empty());
    assert_eq!(app.handle_key(press(KeyCode::Enter)), None);
    assert!(!app.should_exit());
    assert_eq!(app.selection(), None);
}

#[test]
fn typing_then_erasing_restores_the_list() {
    let mut app = App::new(vec![entry("ls", "/bin/ls"), entry("lsof", "/bin/lsof"), entry("cat", "/bin/cat")]);
    type_text(&mut app, "l");
    let before = listed_names(&app);
    type_text(&mut app, "s");
    let _ = app.handle_key(press(KeyCode::Backspace));
    assert_eq!(app.query(), "l");
    assert_eq!(listed_names(&app), before);
    assert_eq!(app.selected(), 0);
}

#[test]
fn backspace_on_empty_query_keeps_it_empty() {
    let mut app = App::new(vec![entry("ls", "/bin/ls")]);
    let _ = app.handle_key(press(KeyCode::Backspace));
    assert_eq!(app.query(), "");
    assert_eq!(app.matches().len(), 1);
}

#[test]
fn up_and_down_stay_within_the_matches() {
    let mut app = App::new(vec![entry("a", "/a"), entry("b", "/b")]);
    let _ = app.handle_key(press(KeyCode::Up));
    assert_eq!(app.selected(), 0);
    let _ = app.handle_key(press(KeyCode::Down));
    assert_eq!(app.selected(), 1);
    let _ = app.handle_key(press(KeyCode::Down));
    assert_eq!(app.selected(), 1);
    let _ = app.handle_key(press(KeyCode::Up));
    assert_eq!(app.selected(), 0);
}

#[test]
fn enter_picks_the_highlighted_match() {
    let mut app = App::new(vec![entry("a", "/a"), entry("b", "/b")]);
    let _ = app.handle_key(press(KeyCode::Down));
    assert_eq!(app.handle_key(press(KeyCode::Enter)), None);
    assert_eq!(app.selection(), Some("b"));
    assert!(app.should_exit());
}

#[test]
fn control_c_exits_but_other_control_chars_are_ignored() {
    let mut app = App::new(vec![entry("ls", "/bin/ls")]);
    let _ = app.handle_key(KeyEvent::new(KeyCode::Char('x'), KeyModifiers::control()));
    let _ = app.handle_key(KeyEvent::new(KeyCode::Char('y'), KeyModifiers::alt()));
    assert_eq!(app.query(), "");
    assert!(!app.should_exit());
    assert_eq!(app.handle_key(KeyEvent::new(KeyCode::Char('c'), KeyModifiers::control())), None);
    assert!(app.should_exit());
    assert_eq!(app.selection(), None);
}

#[test]
fn alt_c_does_not_exit() {
    let mut app = App::new(vec![entry("ls", "/bin/ls")]);
    let _ = app.handle_key(KeyEvent::new(KeyCode::Char('c'), KeyModifiers::alt()));
    assert!(!app.should_exit());
    assert_eq!(app.query(), "");
}

#[test]
fn releases_and_repeats_are_ignored() {
    let mut app = App::new(vec![entry("ls", "/bin/ls")]);
    for kind in [KeyEventKind::Release, KeyEventKind::Repeat] {
        let key = KeyEvent { code: KeyCode::Esc, modifiers: KeyModifiers::none(), kind };
        assert_eq!(app.handle_key(key), None);
        assert!(!app.should_exit());
    }
}

#[test]
fn other_keys_change_nothing_but_still_ask_for_help() {
    let mut app = App::new(vec![entry("ls", "/bin/ls")]);
    assert_eq!(app.handle_key(press(KeyCode::Other)), Some("/bin/ls".to_string()));
    assert_eq!(app.query(), "");
}

#[test]
fn help_is_requested_until_cached() {
    let mut app = App::new(vec![entry("ls", "/bin/ls"), entry("cat", "/bin/cat")]);
    assert_eq!(app.help_request(), Some("/bin/cat".to_string()));
    assert_eq!(app.selected_help(), None);
    app.cache_help("/bin/cat".to_string(), "Usage: cat".to_string());
    assert_eq!(app.help_request(), None);
    assert_eq!(app.selected_help(), Some("Usage: cat"));
    assert_eq!(app.handle_key(press(KeyCode::Down)), Some("/bin/ls".to_string()));
    assert_eq!(app.selected_help(), None);
    app.cache_help("/bin/ls".to_string(), "Usage: ls".to_string());
    app.cache_help("/bin/ls".to_string(), "Usage: ls [OPTION]".to_string());
    assert_eq!(app.selected_help(), Some("Usage: ls [OPTION]"));
    assert_eq!(app.handle_key(press(KeyCode::Up)), None);
    assert_eq!(app.selected_help(), Some("Usage: cat"));
}

#[test]
fn selected_command_follows_the_selection() {
    let mut app = App::new(vec![entry("a", "/a"), entry("b", "/b")]);
    assert_eq!(app.selected_command().map(|c| c.path.as_str()), Some("/a"));
    let _ = app.handle_key(press(KeyCode::Down));
    assert_eq!(app.selected_command().map(|c| c.path.as_str()), Some("/b"));
    type_text(&mut app, "zzz");
    assert_eq!(app.selected_command(), None);
    assert_eq!(app.help_request(), None);
}

#[test]
fn refresh_matches_resets_the_selection() {
    let mut app = App::new(vec![entry("a", "/a"), entry("b", "/b")]);
    let _ = app.handle_key(press(KeyCode::Down));
    app.refresh_matches();
    assert_eq!(app.selected(), 0);
    assert_eq!(listed_names(&app), vec!["a", "b"]);
}

#[test]
fn help_cached_under_an_equivalent_path_is_served() {
    let mut app = App::new(vec![entry("rg", "/usr/bin/rg")]);
    assert_eq!(app.help_request(), Some("/usr/bin/rg".to_string()));
    app.cache_help("/usr//bin/./rg/".to_string(), "Usage: rg".to_string());
    assert_eq!(app.help_request(), None);
    assert_eq!(app.selected_help(), Some("Usage: rg"));
    app.cache_help("/usr/bin/rg".to_string(), "Usage: rg [OPTIONS]".to_string());
    assert_eq!(app.selected_help(), Some("Usage: rg [OPTIONS]"));
}

#[test]
fn help_cached_under_another_path_is_not_served() {
    let mut app = App::new(vec![entry("rg", "/usr/bin/rg")]);
    app.cache_help("usr/bin/rg".to_string(), "relative".to_string());
    app.cache_help("/usr/bin/../bin/rg".to_string(), "parent".to_string());
    app.cache_help("/usr/bin/rga".to_string(), "other".to_string());
    assert_eq!(app.selected_help(), None);
    assert_eq!(app.help_request(), Some("/usr/bin/rg".to_string()));
}
