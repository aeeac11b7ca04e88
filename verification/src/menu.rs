//! The decisions of the interactive front end: reading the menu choice,
//! numbering the receivers and reading which one the user picked.

use vstd::prelude::*;

use crate::peers::Peer;
use crate::state::{State, state_text};
use crate::text::{is_white_space, lemma_trim_idempotent, lemma_trim_is_single, decimal, decimal_text, parse_u32, parse_u32_spec, trim, trim_text, text_eq};

verus! {

/// What the user asked for at the main menu.
#[derive(Debug, Clone, Copy, PartialEq, Eq, Structural)]
pub enum MenuChoice {
    Send,
    Receive,
    Exit,
    Invalid,
}

/// The menu choice that an input line stands for: `1`, `2` or `3` after
/// trimming, anything else being invalid.
pub open spec fn menu_choice_spec(input: Seq<char>) -> MenuChoice {
    let t = trim(input);
    if t == seq!['1'] {
        MenuChoice::Send
    } else if t == seq!['2'] {
        MenuChoice::Receive
    } else if t == seq!['3'] {
        MenuChoice::Exit
    } else {
        MenuChoice::Invalid
    }
}

/// Reads the menu choice from an input line.
pub fn parse_menu_choice(input: &str) -> (c: MenuChoice)
    ensures
        c == menu_choice_spec(input@),
{
    let t = trim_text(input);
    proof {
        reveal_strlit("1");
        reveal_strlit("2");
        reveal_strlit("3");
        assert("1"@ =~= seq!['1']);
        assert("2"@ =~= seq!['2']);
        assert("3"@ =~= seq!['3']);
    }
    if text_eq(t.as_str(), "1") {
        MenuChoice::Send
    } else if text_eq(t.as_str(), "2") {
        MenuChoice::Receive
    } else if text_eq(t.as_str(), "3") {
        MenuChoice::Exit
    } else {
        MenuChoice::Invalid
    }
}

impl MenuChoice {
    /// The state that the node advertises while it carries out the choice;
    /// none for a choice that ends the program.
    pub fn working_state(self) -> (s: Option<State>)
        ensures
            s == match self {
                MenuChoice::Send => Some(State::Send),
                MenuChoice::Receive => Some(State::Receive),
                _ => None,
            },
    {
        match self {
            MenuChoice::Send => Some(State::Send),
            MenuChoice::Receive => Some(State::Receive),
            _ => None,
        }
    }

    /// Whether the menu is shown again after the choice: only after a send
    /// or a receive. An invalid choice ends the program, as exit does.
    pub fn continues(self) -> (b: bool)
        ensures
            b == (self == MenuChoice::Send || self == MenuChoice::Receive),
    {
        match self {
            MenuChoice::Send | MenuChoice::Receive => true,
            _ => false,
        }
    }
}

/// The receiver number that an input line stands for: the line, trimmed,
/// read as a `u32`, or 0 when it does not read as one.
pub open spec fn receiver_choice_spec(input: Seq<char>) -> u32 {
    match parse_u32_spec(trim(input)) {
        Some(n) => n,
        None => 0,
    }
}

/// Reads the receiver number from an input line.
pub fn parse_receiver_choice(input: &str) -> (n: u32)
    ensures
        n == receiver_choice_spec(input@),
{
    let t = trim_text(input);
    match parse_u32(t.as_str()) {
        Some(n) => n,
        None => 0,
    }
}

/// The position of the chosen receiver among `count` receivers numbered
/// from 1: nothing when the number names none of them.
pub fn receiver_index(count: usize, choice: u32) -> (r: Option<usize>)
    ensures
        match r {
            Some(i) => 1 <= choice <= count && i == choice - 1,
            None => choice == 0 || choice > count,
        },
{
    if choice == 0 || choice as u64 > count as u64 {
        None
    } else {
        Some((choice - 1) as usize)
    }
}

/// The line that lists a receiver: ` <number>: <name> (<id>) is [<state>]`.
pub open spec fn receiver_line_spec(number: u32, name: Seq<char>, id: Seq<char>, state: State) -> Seq<char> {
    " "@ + decimal(number as nat) + ": "@ + name + " ("@ + id + ") is ["@ + state_text(state) + "]"@
}

/// Writes the line that lists a receiver.
pub fn receiver_line(number: u32, peer: &Peer) -> (s: String)
    ensures
        s@ == receiver_line_spec(number, peer.name@, peer.id@, peer.state),
{
    let mut s = " ".to_owned();
    s.append(decimal_text(number as u64).as_str());
    s.append(": ");
    s.append(peer.name.as_str());
    s.append(" (");
    s.append(peer.id.as_str());
    s.append(") is [");
    s.append(peer.state.as_str());
    s.append("]");
    s
}


/// The menu choice of a line depends only on the line without surrounding
/// whitespace.
pub proof fn lemma_menu_choice_trimmed(input: Seq<char>)
    ensures
        menu_choice_spec(input) == menu_choice_spec(trim(input)),
{
    lemma_trim_idempotent(input);
}

/// A line chooses send, receive or exit exactly when it is the digit `1`,
/// `2` or `3` with only whitespace around it.
pub proof fn lemma_menu_choice_digits(input: Seq<char>)
    ensures
        menu_choice_spec(input) == MenuChoice::Send <==> exists|i: int|
            0 <= i < input.len() && input[i] == '1' && forall|j: int|
                0 <= j < input.len() && j != i ==> is_white_space(#[trigger] input[j]),
        menu_choice_spec(input) == MenuChoice::Receive <==> exists|i: int|
            0 <= i < input.len() && input[i] == '2' && forall|j: int|
                0 <= j < input.len() && j != i ==> is_white_space(#[trigger] input[j]),
        menu_choice_spec(input) == MenuChoice::Exit <==> exists|i: int|
            0 <= i < input.len() && input[i] == '3' && forall|j: int|
                0 <= j < input.len() && j != i ==> is_white_space(#[trigger] input[j]),
{
    lemma_trim_is_single(input, '1');
    lemma_trim_is_single(input, '2');
    lemma_trim_is_single(input, '3');
    assert(seq!['1'] != seq!['2'] && seq!['1'] != seq!['3'] && seq!['2'] != seq!['3']) by {
        assert(seq!['1'][0] != seq!['2'][0]);
        assert(seq!['1'][0] != seq!['3'][0]);
        assert(seq!['2'][0] != seq!['3'][0]);
    }
}

} // verus!
