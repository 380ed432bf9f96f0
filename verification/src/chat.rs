//! What the client does with a line typed into the chat: a client command is
//! handled locally, anything else is sent to the server.

use vstd::prelude::*;

use crate::text::chars_of;

verus! {

/// What becomes of a typed chat line.
#[derive(Clone, Copy, Debug, PartialEq, Eq, Structural)]
pub enum ChatInput {
    /// `/nc`: auto attack is switched on or off, and nothing is sent.
    ToggleAutoAttack,
    /// Any other line is sent as a chat message.
    Send,
}

/// The command that switches auto attack.
pub open spec fn is_auto_attack_command(text: Seq<char>) -> bool {
    text == seq!['/', 'n', 'c']
}

/// Decides what to do with a typed chat line.
pub fn chat_input(text: &str) -> (input: ChatInput)
    ensures
        input == if is_auto_attack_command(text@) {
            ChatInput::ToggleAutoAttack
        } else {
            ChatInput::Send
        },
{
    let chars = chars_of(text);
    if chars.len() == 3 && chars[0] == '/' && chars[1] == 'n' && chars[2] == 'c' {
        assert(text@ =~= seq!['/', 'n', 'c']);
        ChatInput::ToggleAutoAttack
    } else {
        ChatInput::Send
    }
}

/// The auto attack setting after a typed chat line.
pub fn auto_attack_after(input: ChatInput, auto_attack: bool) -> (after: bool)
    ensures
        after == if input == ChatInput::ToggleAutoAttack { !auto_attack } else { auto_attack },
{
    match input {
        ChatInput::ToggleAutoAttack => !auto_attack,
        ChatInput::Send => auto_attack,
    }
}

} // verus!
