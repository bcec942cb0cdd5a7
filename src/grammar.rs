//! JSON grammar constraint for structured output: a small state machine that
//! says which characters may come next.
use vstd::prelude::*;

verus! {

#[derive(Debug, Clone, Copy, PartialEq, Eq, Structural)]
pub enum JsonState {
    Start,
    InObject,
    InArray,
    InString,
    InNumber,
    InValue,
    Done,
}

/// Grammar state for constraining generation.
#[derive(Debug, Clone, Copy, PartialEq, Eq, Structural)]
pub struct JsonGrammar {
    /// Whether the constraint is active.
    pub active: bool,
    /// Current parsing state.
    pub state: JsonState,
    /// Nesting depth.
    pub depth: usize,
}

/// `ch` is an ASCII decimal digit.
pub open spec fn is_digit(ch: char) -> bool {
    '0' <= ch <= '9'
}

/// Which characters each state accepts.
pub open spec fn accepts(state: JsonState, ch: char) -> bool {
    match state {
        JsonState::Start => ch == '{' || ch == '[' || ch == '"' || is_digit(ch) || ch == '-' || ch == 't'
            || ch == 'f' || ch == 'n',
        JsonState::InObject | JsonState::InArray => ch != '\0',
        JsonState::InString | JsonState::InValue => true,
        JsonState::InNumber => is_digit(ch) || ch == '.' || ch == 'e' || ch == 'E' || ch == '+' || ch == '-',
        JsonState::Done => false,
    }
}

impl JsonGrammar {
    /// A new, inactive constraint.
    pub fn new() -> (r: JsonGrammar)
        ensures
            r == (JsonGrammar { active: false, state: JsonState::Start, depth: 0 }),
    {
        JsonGrammar { active: false, state: JsonState::Start, depth: 0 }
    }

    /// Activate the constraint from the start state.
    pub fn enable(&mut self)
        ensures
            *final(self) == (JsonGrammar { active: true, state: JsonState::Start, depth: 0 }),
    {
        self.active = true;
        self.state = JsonState::Start;
        self.depth = 0;
    }

    /// Whether `ch` may come next; anything goes while inactive.
    pub fn is_valid_char(&self, ch: char) -> (r: bool)
        ensures
            r == (!self.active || accepts(self.state, ch)),
    {
        if !self.active {
            return true;
        }
        match self.state {
            JsonState::Start => ch == '{' || ch == '[' || ch == '"' || ('0' <= ch && ch <= '9') || ch == '-'
                || ch == 't' || ch == 'f' || ch == 'n',
            JsonState::InObject => ch != '\0',
            JsonState::InArray => ch != '\0',
            JsonState::InString => true,
            JsonState::InNumber => ('0' <= ch && ch <= '9') || ch == '.' || ch == 'e' || ch == 'E' || ch == '+'
                || ch == '-',
            JsonState::InValue => true,
            JsonState::Done => false,
        }
    }

    /// Whether a complete JSON value has been produced.
    pub fn is_complete(&self) -> (r: bool)
        ensures
            r == (self.state == JsonState::Done || (self.active && self.depth == 0 && self.state != JsonState::Start)),
    {
        self.state == JsonState::Done || (self.active && self.depth == 0 && self.state != JsonState::Start)
    }

    /// Back to the start state, keeping whether the constraint is active.
    pub fn reset(&mut self)
        ensures
            *final(self) == (JsonGrammar { active: old(self).active, state: JsonState::Start, depth: 0 }),
    {
        self.state = JsonState::Start;
        self.depth = 0;
    }
}

} // verus!
