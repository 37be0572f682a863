use vstd::prelude::*;
use vstd::string::StrSliceExecFns;
use vstd::string::StringExecFns;

verus! {

/// The OR rule: true when at least one input is exactly 1. Any other
/// value, negative or above 1, counts as false.
pub open spec fn or_eval(input: Seq<i8>) -> bool {
    exists|i: int| 0 <= i < input.len() && input[i] == 1
}

/// The AND rule: true when every input is exactly 1, which holds
/// vacuously of an empty input list.
pub open spec fn and_eval(input: Seq<i8>) -> bool {
    forall|i: int| 0 <= i < input.len() ==> input[i] == 1
}

/// The text that names the OR gate: the single character `+`.
pub open spec fn or_symbol_text(s: Seq<char>) -> bool {
    s.len() == 1 && s[0] == '+'
}

/// The text that names the AND gate: the single character `.`.
pub open spec fn and_symbol_text(s: Seq<char>) -> bool {
    s.len() == 1 && s[0] == '.'
}

#[derive(Debug)]
pub enum Gate {
    And,
    Or,
}

pub trait LogicGate {
    /// The boolean function this gate stands for.
    spec fn gate_eval(&self, input: Seq<i8>) -> bool;

    fn test(&self, input: Vec<i8>) -> (result: bool)
        ensures
            result == self.gate_eval(input@),
    ;
}

#[derive(Debug)]
pub struct UnknownLogicGateError {
    pub unrecognised_gate: String,
}

impl UnknownLogicGateError {
    pub fn new(unrecognised_gate: String) -> (result: UnknownLogicGateError)
        ensures
            result.unrecognised_gate == unrecognised_gate,
    {
        UnknownLogicGateError { unrecognised_gate }
    }

    /// The description the error carries, naming the unrecognised text.
    pub fn message(&self) -> (result: String)
        ensures
            result@ == "Unknown logic gate, no gate matching "@ + self.unrecognised_gate@,
    {
        let prefix = String::from_str("Unknown logic gate, no gate matching ");
        prefix.concat(self.unrecognised_gate.as_str())
    }
}

impl Gate {
    /// Recognises exactly `+` (Or) and `.` (And). Anything else is rejected,
    /// and the error keeps the rejected text.
    pub fn try_from(value: &str) -> (result: Result<Gate, UnknownLogicGateError>)
        ensures
            or_symbol_text(value@) ==> result == Ok::<Gate, UnknownLogicGateError>(Gate::Or),
            and_symbol_text(value@) ==> result == Ok::<Gate, UnknownLogicGateError>(Gate::And),
            !or_symbol_text(value@) && !and_symbol_text(value@) ==> (result matches Err(e)
                && e.unrecognised_gate@ == value@),
    {
        let len = value.unicode_len();
        if len == 1 {
            let c = value.get_char(0);
            if c == '+' {
                return Ok(Gate::Or);
            }
            if c == '.' {
                return Ok(Gate::And);
            }
        }
        Err(UnknownLogicGateError::new(value.to_owned()))
    }
}

impl LogicGate for Gate {
    open spec fn gate_eval(&self, input: Seq<i8>) -> bool {
        match self {
            Gate::And => and_eval(input),
            Gate::Or => or_eval(input),
        }
    }

    fn test(&self, input: Vec<i8>) -> (result: bool) {
        match self {
            Gate::And => and(input),
            Gate::Or => or(input),
        }
    }
}

pub fn and(input: Vec<i8>) -> (result: bool)
    ensures
        result == and_eval(input@),
{
    let expected_count = input.len();
    let mut count: usize = 0;
    let mut idx: usize = 0;
    while idx < input.len()
        invariant
            idx <= input.len(),
            count <= idx,
            count == idx <==> (forall|i: int| 0 <= i < idx ==> input@[i] == 1),
        decreases input.len() - idx,
    {
        let member = input[idx];
        if is_true(&member) {
            count = count + 1;
        }
        idx = idx + 1;
    }
    count == expected_count
}

pub fn or(input: Vec<i8>) -> (result: bool)
    ensures
        result == or_eval(input@),
{
    let mut idx: usize = 0;
    while idx < input.len()
        invariant
            idx <= input.len(),
            forall|i: int| 0 <= i < idx ==> input@[i] != 1,
        decreases input.len() - idx,
    {
        let member = input[idx];
        if is_true(&member) {
            return true;
        }
        idx = idx + 1;
    }
    false
}

pub fn is_true(i: &i8) -> (result: bool)
    ensures
        result == (*i == 1),
{
    *i == 1
}

} // verus!
