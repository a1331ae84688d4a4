use kepler::app::{App, CommandEntry, KeyCode, KeyEvent, KeyModifiers};

fn press(code: KeyCode) -> KeyEvent {
    KeyEvent::new(code, KeyModifiers::none())
}

#[test]
fn type_then_erase_gives_back_the_matches() {
    let commands = vec![
        CommandEntry { name: "Make".into(), path: "/a/Make".into() },
        CommandEntry { name: "make".into(), path: "/b/make".into() },
        CommandEntry { name: "cmake".into(), path: "/b/cmake".into() },
    ];
    let mut app = App::new(commands);
    let _ = app.handle_key(press(KeyCode::Char('m')));
    let before: Vec<String> = app.matches().iter().map(|&i| app.commands()[i].name.to_lowercase()).collect();
    let _ = app.handle_key(press(KeyCode::Char('a')));
    let _ = app.handle_key(press(KeyCode::Backspace));
    let after: Vec<String> = app.matches().iter().map(|&i| app.commands()[i].name.to_lowercase()).collect();
    assert_eq!(before, after);
    assert_eq!(after, vec!["make", "make", "cmake"]);
}

#[test]
fn down_then_up_returns() {
    let commands = vec![
        CommandEntry { name: "a".into(), path: "/a".into() },
        CommandEntry { name: "b".into(), path: "/b".into() },
    ];
    let mut app = App::new(commands);
    let _ = app.handle_key(press(KeyCode::Down));
    let _ = app.handle_key(press(KeyCode::Up));
    assert_eq!(app.selected(), 0);
}

#[test]
fn typing_never_adds_a_match() {
    let commands = vec![
        CommandEntry { name: "grep".into(), path: "/grep".into() },
        CommandEntry { name: "git".into(), path: "/git".into() },
        CommandEntry { name: "ls".into(), path: "/ls".into() },
    ];
    let mut app = App::new(commands);
    let mut previous: Vec<usize> = app.matches().clone();
    for c in "gre".chars() {
        let _ = app.handle_key(press(KeyCode::Char(c)));
        assert!(app.matches().iter().all(|m| previous.contains(m)));
        previous = app.matches().clone();
    }
    assert_eq!(previous, vec![0]);
}

#[test]
fn new_lists_every_command_by_lowercase_name() {
    let commands = vec![
        CommandEntry { name: "b".into(), path: "/b".into() },
        CommandEntry { name: "C".into(), path: "/C".into() },
        CommandEntry { name: "a".into(), path: "/a".into() },
    ];
    let app = App::new(commands);
    assert_eq!(app.matches(), &vec![2, 0, 1]);
    assert_eq!(app.selected_command().map(|c| c.name.as_str()), Some("a"));
}
