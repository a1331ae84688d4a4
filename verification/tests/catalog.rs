use kepler::catalog::{
    combine_output, executable_files, help_from_text, help_text, merge_listings, read_limited,
    FileInfo, HelpError, HELP_LIMIT,
};

fn pair(name: &str, path: &str) -> (String, String) {
    (name.to_string(), path.to_string())
}

fn file(name: &str, is_file: bool, mode: u32) -> FileInfo {
    FileInfo { name: name.into(), path: format!("/d/{name}"), is_file, mode }
}

#[test]
fn keeps_first_path_match_across_directories() {
    let first = vec![pair("alpha", "/first/alpha")];
    let second = vec![pair("alpha", "/second/alpha"), pair("beta", "/second/beta")];
    let commands = merge_listings(vec![first, second]);

    assert_eq!(commands.len(), 2);
    assert_eq!(commands[0].path, "/first/alpha");
    assert_eq!(commands[1].name, "beta");
}

#[test]
fn merged_commands_are_sorted_by_name() {
    let a = vec![pair("zsh", "/a/zsh"), pair("cat", "/a/cat")];
    let b = vec![pair("Cat", "/b/Cat"), pair("awk", "/b/awk"), pair("cat", "/b/cat")];
    let names: Vec<String> = merge_listings(vec![a, b]).into_iter().map(|c| c.name).collect();
    assert_eq!(names, vec!["Cat", "awk", "cat", "zsh"]);
    assert!(merge_listings(vec![]).is_empty());
}

#[test]
fn only_executable_regular_files_are_commands() {
    let files = vec![
        file("ignored", true, 0o644),
        file("beta", true, 0o755),
        file("dir", false, 0o755),
        file("alpha", true, 0o100),
        file("group", true, 0o010),
    ];
    let commands = executable_files(files);
    assert_eq!(
        commands,
        vec![pair("alpha", "/d/alpha"), pair("beta", "/d/beta"), pair("group", "/d/group")]
    );
}

#[test]
fn read_limited_cuts_at_the_limit() {
    let limit = HELP_LIMIT as usize;
    let (kept, truncated) = read_limited(vec![7; limit + 1]);
    assert!(truncated);
    assert_eq!(kept.len(), limit);
    let (kept, truncated) = read_limited(vec![7; limit]);
    assert!(!truncated);
    assert_eq!(kept.len(), limit);
    let (kept, truncated) = read_limited(b"abc".to_vec());
    assert!(!truncated);
    assert_eq!(kept, b"abc");
}

#[test]
fn stderr_goes_on_its_own_line() {
    assert_eq!(combine_output(b"out".to_vec(), b"err".to_vec()), b"out\nerr");
    assert_eq!(combine_output(b"".to_vec(), b"err".to_vec()), b"err");
    assert_eq!(combine_output(b"out".to_vec(), b"".to_vec()), b"out");
}

#[test]
fn help_is_trimmed() {
    let text: Vec<char> = "\n  Usage: ls [OPTION]\u{3000}\t\n".chars().collect();
    assert_eq!(help_from_text(&text, false, false), Ok("Usage: ls [OPTION]".to_string()));
}

#[test]
fn help_notes_timeouts_and_truncation() {
    let text: Vec<char> = "Usage".chars().collect();
    assert_eq!(
        help_from_text(&text, true, true),
        Ok("Usage\n\n[Stopped after 800 ms]".to_string())
    );
    assert_eq!(
        help_from_text(&text, false, true),
        Ok("Usage\n\n[Output truncated at 64 KiB]".to_string())
    );
}

#[test]
fn blank_help_is_an_error() {
    let blank: Vec<char> = " \n\t ".chars().collect();
    assert_eq!(help_from_text(&blank, true, false), Err(HelpError::TimedOut));
    assert_eq!(help_from_text(&blank, false, true), Err(HelpError::NoText));
    assert_eq!(HelpError::TimedOut.message(), "help command timed out");
    assert_eq!(HelpError::NoText.message(), "help command returned no text");
}

#[test]
fn help_text_decodes_both_streams() {
    let help = help_text(b"Usage: x\n".to_vec(), false, "  caf\u{e9}".as_bytes().to_vec(), true, false);
    assert_eq!(help, Ok("Usage: x\n\n  caf\u{e9}\n\n[Output truncated at 64 KiB]".to_string()));
    let lossy = help_text(vec![b'a', 0xff, b'b'], false, vec![], false, false);
    assert_eq!(lossy, Ok("a\u{fffd}b".to_string()));
    assert_eq!(help_text(vec![], false, vec![], false, false), Err(HelpError::NoText));
}

#[test]
fn trim_drops_exactly_the_characters_std_calls_white_space() {
    for code in 0u32..=0x3100 {
        if let Some(c) = char::from_u32(code) {
            let trimmed = kepler::catalog::trim_chars(&vec![c]);
            assert_eq!(trimmed.is_empty(), c.is_whitespace(), "U+{:04X}", code);
        }
    }
    let text: Vec<char> = "\u{3000}\u{85} ls \u{2009}\t".chars().collect();
    assert_eq!(kepler::catalog::trim_chars(&text), vec!['l', 's']);
}
