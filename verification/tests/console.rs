use sardips::console::{
    command_auto_complete, common_prefix, complete_word, console_key_press, key_text,
    submit_line, tab_completion, ConsoleKey, DevConsoleCommand, DevConsoleHistory,
    DevConsoleHistoryEntry,
};

fn strings(v: &[&str]) -> Vec<String> {
    v.iter().map(|s| s.to_string()).collect()
}

#[test]
fn common_prefix_of_candidates() {
    assert_eq!(common_prefix(&strings(&["spawn_pet", "spawn_poop", "spawn_food"])), "spawn_");
    // One candidate loses its last character: the prefix is cut back by one.
    assert_eq!(common_prefix(&strings(&["give_money"])), "give_mone");
    assert_eq!(common_prefix(&strings(&["abc", "xyz"])), "");
}

#[test]
fn words_complete_from_candidates() {
    let names = strings(&["apple", "apricot", "banana"]);
    assert_eq!(complete_word(&names, "ap"), Some("ap".to_string()));
    assert_eq!(complete_word(&names, "b"), Some("banana".to_string()));
    assert_eq!(complete_word(&names, "c"), None);
}

#[test]
fn tab_completes_commands_and_food() {
    assert_eq!(tab_completion("giv", None), Some("give_money".to_string()));
    assert_eq!(tab_completion("  clear_all_p  ", None), Some("clear_all_pets".to_string()));
    assert_eq!(tab_completion("spawn_p", None), Some("spawn_p".to_string()));
    assert_eq!(tab_completion("zzz", None), None);
    let foods = strings(&["Apple", "Avocado", "Bread"]);
    assert_eq!(tab_completion("spawn_food Br", Some(&foods)), Some("spawn_food Bread".to_string()));
    assert_eq!(tab_completion("spawn_pet Br", Some(&foods)), None);
    assert_eq!(tab_completion("a b c", Some(&foods)), None);
    assert_eq!(
        command_auto_complete("spawn_food", "A", Some(&foods)),
        Some("spawn_food A".to_string())
    );
    assert_eq!(command_auto_complete("spawn_food", "A", None), None);
}

#[test]
fn every_command_has_its_name() {
    let names = DevConsoleCommand::commands();
    assert_eq!(names.len(), 11);
    assert_eq!(DevConsoleCommand::SpawnPoop.command_str(), "spawn_poop");
    assert!(names.contains(&"discover_complete_dipdex".to_string()));
}

#[test]
fn submitting_reads_the_command() {
    let mut history = DevConsoleHistory::new();
    let mut text = "give_money 250".to_string();
    let command = submit_line(&mut text, &mut history);
    assert!(matches!(command, Some(DevConsoleCommand::GiveMoney(250))));
    assert_eq!(text, "");
    assert_eq!(history.history.len(), 1);

    let mut text = "give_money".to_string();
    assert!(matches!(submit_line(&mut text, &mut history), Some(DevConsoleCommand::GiveMoney(100))));

    let mut text = "give_money lots".to_string();
    assert!(submit_line(&mut text, &mut history).is_none());

    let mut text = "spawn_pet   Rock".to_string();
    match submit_line(&mut text, &mut history) {
        Some(DevConsoleCommand::SpawnPet(name)) => assert_eq!(name, "Rock"),
        _ => panic!("expected a pet"),
    }
    let mut text = "spawn_pet".to_string();
    assert!(submit_line(&mut text, &mut history).is_none());
    assert_eq!(history.history.len(), 5);
}

#[test]
fn unknown_commands_are_reported() {
    let mut history = DevConsoleHistory::new();
    let mut text = "fly away".to_string();
    assert!(submit_line(&mut text, &mut history).is_none());
    assert_eq!(history.history.len(), 2);
    match &history.history[0] {
        DevConsoleHistoryEntry::CommandOutput(o) => assert_eq!(o, "Unknown command: \"fly\""),
        _ => panic!("expected output"),
    }
    match &history.history[1] {
        DevConsoleHistoryEntry::UserInput(i) => assert_eq!(i, "fly away"),
        _ => panic!("expected input"),
    }
    assert_eq!(history.get_last_user_input(), Some(&"fly away".to_string()));
}

#[test]
fn blank_lines_do_nothing() {
    let mut history = DevConsoleHistory::new();
    let mut text = "   ".to_string();
    assert!(submit_line(&mut text, &mut history).is_none());
    assert_eq!(text, "   ");
    assert!(history.history.is_empty());
    assert_eq!(history.get_last_user_input(), None);
}

#[test]
fn history_remembers_the_last_input() {
    let mut history = DevConsoleHistory::new();
    history.push_user_input("first".to_string());
    history.push_command_output("ok".to_string());
    assert_eq!(history.get_last_user_input(), Some(&"first".to_string()));
}

#[test]
fn keys_type_their_text() {
    assert_eq!(key_text(ConsoleKey::Letter(0), false), Some("a"));
    assert_eq!(key_text(ConsoleKey::Letter(25), true), Some("Z"));
    assert_eq!(key_text(ConsoleKey::Digit(1), true), Some("!"));
    assert_eq!(key_text(ConsoleKey::Digit(0), false), Some("0"));
    assert_eq!(key_text(ConsoleKey::Minus, true), Some("_"));
    assert_eq!(key_text(ConsoleKey::Space, true), Some(" "));
    assert_eq!(key_text(ConsoleKey::Period, true), Some(">"));
    assert_eq!(key_text(ConsoleKey::Tab, false), None);
}

#[test]
fn key_presses_edit_the_input() {
    let mut history = DevConsoleHistory::new();
    let mut text = String::new();
    console_key_press(&mut text, &history, ConsoleKey::Letter(6), false, None);
    console_key_press(&mut text, &history, ConsoleKey::Letter(8), false, None);
    assert_eq!(text, "gi");
    console_key_press(&mut text, &history, ConsoleKey::Tab, false, None);
    assert_eq!(text, "give_money");
    console_key_press(&mut text, &history, ConsoleKey::Backspace, false, None);
    assert_eq!(text, "give_mone");
    history.push_user_input("spawn_poop".to_string());
    console_key_press(&mut text, &history, ConsoleKey::ArrowUp, false, None);
    assert_eq!(text, "spawn_poop");
    let mut empty = String::new();
    console_key_press(&mut empty, &history, ConsoleKey::Backspace, false, None);
    assert_eq!(empty, "");
}

#[test]
fn the_console_shows_the_last_four_lines() {
    let mut history = DevConsoleHistory::new();
    assert_eq!(history.history_slots(), vec![None, None, None, None]);
    history.push_user_input("a".to_string());
    history.push_command_output("b".to_string());
    assert_eq!(history.history_slots(), vec![None, None, Some(0), Some(1)]);
    for _ in 0..4 {
        history.push_user_input("c".to_string());
    }
    assert_eq!(history.history_slots(), vec![Some(2), Some(3), Some(4), Some(5)]);
}

#[test]
fn the_cursor_flashes_every_half_second() {
    let mut cursor = sardips::console::CursorFlashTimer::new();
    assert_eq!(cursor.cursor_text(), "_");
    cursor.tick(499_999_999);
    assert!(cursor.showing);
    cursor.tick(1);
    assert!(!cursor.showing);
    assert_eq!(cursor.cursor_text(), "");
}

#[test]
fn amounts_read_as_std_parses_an_i64() {
    let read = |line: &str| {
        let mut history = DevConsoleHistory::new();
        let mut text = line.to_string();
        match submit_line(&mut text, &mut history) {
            Some(DevConsoleCommand::GiveMoney(m)) => Some(m),
            _ => None,
        }
    };
    for amount in ["0", "+7", "-42", "007", "9223372036854775807", "-9223372036854775808"] {
        assert_eq!(read(&format!("give_money {}", amount)), Some(amount.parse::<i64>().unwrap()));
    }
    for bad in ["+", "-", "1_000", "12a", "9223372036854775808", "-9223372036854775809", "99999999999999999999999"] {
        assert_eq!(read(&format!("give_money {}", bad)), None, "{}", bad);
    }
    // Words are split at any white space, tabs and no-break spaces included.
    assert_eq!(read("\tgive_money\u{a0}\u{3000}12  "), Some(12));
}
