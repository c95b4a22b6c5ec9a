use termgame::GameError;
use termgame::Message;

#[test]
fn test_message() {
    let m = Message::new(String::from("Hello"));
    assert_eq!(m.text, "Hello");
    assert_eq!(m.title, None);
}

#[test]
fn test_message_with_title() {
    let m = Message::new(String::from("Hello")).title(String::from("Title"));
    assert_eq!(m.text, "Hello");
    assert_eq!(m.title, Some(String::from("Title")));
}

#[test]
fn game_errors_are_distinct() {
    assert_eq!(GameError::RawMode, GameError::RawMode);
    assert_ne!(GameError::Running, GameError::TerminalMode);
    assert_ne!(GameError::TerminalExecute, GameError::RawMode);
}
