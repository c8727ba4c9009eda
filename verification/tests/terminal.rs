use asset_heatmap::geometry::Rectangle;
use asset_heatmap::internal_terminal::{
    parse_line, Command, InternalTerminalState, InternalTerminalWidget, Key, MAX_CHAR,
};

fn typed(text: &str) -> InternalTerminalState {
    let mut state = InternalTerminalState::new();
    for c in text.chars() {
        state.add_new_char(c);
    }
    state
}

fn parsed(text: &str) -> Option<Command> {
    parse_line(&text.chars().collect::<Vec<char>>())
}

#[test]
fn new_state_is_empty() {
    assert_eq!(InternalTerminalState::new().get_text(), "");
    assert_eq!(InternalTerminalState::default().get_text(), "");
}

#[test]
fn typed_characters_are_kept_in_order() {
    assert_eq!(typed("ADD AAPL").get_text(), "ADD AAPL");
    assert_eq!(typed("é ü").get_text(), "é ü");
}

#[test]
fn buffer_holds_twenty_characters() {
    assert_eq!(MAX_CHAR, 20);
    let state = typed("ABCDEFGHIJKLMNOPQRSTUVWXYZ");
    assert_eq!(state.get_text(), "ABCDEFGHIJKLMNOPQRST");
}

#[test]
fn remove_char_takes_the_last() {
    let mut state = typed("ADD");
    state.remove_char();
    assert_eq!(state.get_text(), "AD");
    state.remove_char();
    state.remove_char();
    assert_eq!(state.get_text(), "");
    state.remove_char();
    assert_eq!(state.get_text(), "");
}

#[test]
fn enter_exit() {
    let mut state = typed("EXIT");
    assert_eq!(state.enter_command(), Some(Command::Exit));
    assert_eq!(state.get_text(), "");
}

#[test]
fn enter_add_remove_interval() {
    assert_eq!(typed("ADD AAPL").enter_command(), Some(Command::AddAsset("AAPL".to_string())));
    assert_eq!(
        typed("REMOVE GOOG").enter_command(),
        Some(Command::RemoveAsset("GOOG".to_string()))
    );
    assert_eq!(
        typed("INTERVAL 1W").enter_command(),
        Some(Command::ChangeInterval("1W".to_string()))
    );
}

#[test]
fn enter_clears_the_line_also_without_a_command() {
    let mut state = typed("HELLO");
    assert_eq!(state.enter_command(), None);
    assert_eq!(state.get_text(), "");
    assert_eq!(state.enter_command(), None);
}

#[test]
fn lines_that_are_no_commands() {
    for text in
        ["", " ", "exit", "EXIT ", " EXIT", "EXIT NOW", "ADD", "REMOVE", "INTERVAL", "ADD  X",
            "ADD X Y", "ADD X ", "add X", "ADDX", "DROP X"]
    {
        assert_eq!(parsed(text), None, "{:?}", text);
    }
}

#[test]
fn subject_may_be_empty_or_anything_without_a_space() {
    assert_eq!(parsed("ADD "), Some(Command::AddAsset(String::new())));
    assert_eq!(parsed("REMOVE ?"), Some(Command::RemoveAsset("?".to_string())));
    assert_eq!(parsed("INTERVAL bogus"), Some(Command::ChangeInterval("bogus".to_string())));
    assert_eq!(parsed("ADD EXIT"), Some(Command::AddAsset("EXIT".to_string())));
    assert_eq!(parsed("ADD ü"), Some(Command::AddAsset("ü".to_string())));
}

#[test]
fn keys_drive_the_line() {
    let mut state = InternalTerminalState::new();
    for c in "ADX".chars() {
        assert_eq!(state.handle_key(Key::Char(c)), None);
    }
    assert_eq!(state.handle_key(Key::Backspace), None);
    assert_eq!(state.handle_key(Key::Other), None);
    assert_eq!(state.get_text(), "AD");
    for c in "D PLTR".chars() {
        assert_eq!(state.handle_key(Key::Char(c)), None);
    }
    assert_eq!(state.handle_key(Key::Enter), Some(Command::AddAsset("PLTR".to_string())));
    assert_eq!(state.get_text(), "");
    assert_eq!(state.handle_key(Key::Enter), None);
}

#[test]
fn widget_line_starts_with_the_prompt() {
    let widget = InternalTerminalWidget {};
    assert_eq!(widget.line(&typed("ADD A")), "> ADD A");
    assert_eq!(widget.line(&InternalTerminalState::new()), "> ");
}

#[test]
fn widget_text_area_is_inset() {
    let widget = InternalTerminalWidget {};
    assert_eq!(widget.text_area(Rectangle::new(0, 19, 80, 5)), Rectangle::new(2, 21, 78, 1));
    assert_eq!(widget.text_area(Rectangle::new(7, 7, 2, 4)), Rectangle::new(9, 9, 0, 0));
}
