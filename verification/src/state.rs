//! The activity state that a node advertises to its peers.

use vstd::prelude::*;

use crate::text::text_eq;

verus! {

/// What a node is currently doing, as advertised in its discovery record.
#[derive(Debug, Clone, Copy, PartialEq, Eq, Structural)]
pub enum State {
    Idle,
    Send,
    Receive,
}

/// The text by which a state is advertised and displayed.
pub open spec fn state_text(s: State) -> Seq<char> {
    match s {
        State::Idle => "IDLE"@,
        State::Send => "SEND"@,
        State::Receive => "RECEIVE"@,
    }
}

/// The state that an advertised `state` property stands for; a missing or
/// unknown value counts as idle.
pub open spec fn state_from_text(t: Option<Seq<char>>) -> State {
    match t {
        Some(v) => if v == "SEND"@ {
            State::Send
        } else if v == "RECEIVE"@ {
            State::Receive
        } else {
            State::Idle
        },
        None => State::Idle,
    }
}

impl State {
    /// The advertised text of this state.
    pub fn as_str(&self) -> (s: &'static str)
        ensures
            s@ == state_text(*self),
    {
        match self {
            State::Idle => "IDLE",
            State::Send => "SEND",
            State::Receive => "RECEIVE",
        }
    }

    /// Reads the state out of an advertised `state` property.
    pub fn from_property(value: Option<&str>) -> (s: State)
        ensures
            s == state_from_text(
                match value {
                    Some(v) => Some(v@),
                    None => None,
                },
            ),
    {
        match value {
            Some(v) => {
                let send = "SEND";
                let receive = "RECEIVE";
                if text_eq(v, send) {
                    State::Send
                } else if text_eq(v, receive) {
                    State::Receive
                } else {
                    State::Idle
                }
            },
            None => State::Idle,
        }
    }
}

/// Replaces the shared state with `new_state`.
pub fn set_state(state: &mut State, new_state: State)
    ensures
        *final(state) == new_state,
{
    *state = new_state;
}

/// Reading back the advertised text of any state gives that state.
pub proof fn lemma_state_text_roundtrip(s: State)
    ensures
        state_from_text(Some(state_text(s))) == s,
{
    reveal_strlit("IDLE");
    reveal_strlit("SEND");
    reveal_strlit("RECEIVE");
    assert("IDLE"@[0] != "SEND"@[0]);
    assert("IDLE"@.len() != "RECEIVE"@.len());
    assert("SEND"@.len() != "RECEIVE"@.len());
}

} // verus!
