use korangar::chat::{auto_attack_after, chat_input, ChatInput};

#[test]
fn the_auto_attack_command_is_handled_locally() {
    assert_eq!(chat_input("/nc"), ChatInput::ToggleAutoAttack);
    assert!(auto_attack_after(ChatInput::ToggleAutoAttack, false));
    assert!(!auto_attack_after(ChatInput::ToggleAutoAttack, true));
}

#[test]
fn other_lines_are_sent() {
    assert_eq!(chat_input("/nc "), ChatInput::Send);
    assert_eq!(chat_input("/NC"), ChatInput::Send);
    assert_eq!(chat_input("hello"), ChatInput::Send);
    assert_eq!(chat_input(""), ChatInput::Send);
    assert!(auto_attack_after(ChatInput::Send, true));
    assert!(!auto_attack_after(ChatInput::Send, false));
}
