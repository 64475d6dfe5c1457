//! The stack used by the generators to keep track of the current parsing
//! state.
use vstd::prelude::*;
use vstd::string::StringExecFns;

verus! {

/// States while parsing list or dictionaries.
///
/// There are no states for integers and strings because it's a
/// straightforward operation. We know when they finish and there is no
/// recursion.
#[derive(Debug, PartialEq, Eq, Clone, Copy, Structural)]
pub enum State {
    /// The initial state.
    Initial,
    /// Expecting the first list item or the end of the list.
    ExpectingFirstListItemOrEnd,
    /// Expecting the next list item. List contains at least one item.
    ExpectingNextListItem,
    /// Expecting the first dict field or the end of the dict.
    ExpectingFirstDictFieldOrEnd,
    /// Expecting the dict field value.
    ExpectingDictFieldValue,
    /// Expecting the dict field key or the end of the dict.
    ExpectingDictFieldKeyOrEnd,
}

impl State {
    /// The one-letter name of the state: `I`, `L`, `M`, `D`, `E` or `F`.
    pub open spec fn letter(self) -> Seq<char> {
        match self {
            State::Initial => "I"@,
            State::ExpectingFirstListItemOrEnd => "L"@,
            State::ExpectingNextListItem => "M"@,
            State::ExpectingFirstDictFieldOrEnd => "D"@,
            State::ExpectingDictFieldValue => "E"@,
            State::ExpectingDictFieldKeyOrEnd => "F"@,
        }
    }

    /// The state's short name: a single letter.
    pub fn to_string(&self) -> (text: String)
        ensures
            text@ == self.letter(),
    {
        let output = match self {
            State::Initial => "I",
            State::ExpectingFirstListItemOrEnd => "L",
            State::ExpectingNextListItem => "M",
            State::ExpectingFirstDictFieldOrEnd => "D",
            State::ExpectingDictFieldValue => "E",
            State::ExpectingDictFieldKeyOrEnd => "F",
        };
        String::from_str(output)
    }
}

/// The letters of the states, bottom first, with a comma and a blank between
/// two of them.
pub open spec fn letters(states: Seq<State>) -> Seq<char>
    decreases states.len(),
{
    if states.len() == 0 {
        seq![]
    } else if states.len() == 1 {
        states[0].letter()
    } else {
        letters(states.drop_last()) + ", "@ + states.last().letter()
    }
}

/// Stack containing states for nested Bencoded values.
///
/// The stack has an immutable initial state at its bottom: it is never
/// empty, and a top that is the initial state can be neither popped nor
/// swapped.
#[derive(Debug)]
pub struct Stack {
    /// The stack of states.
    states: Vec<State>,
}

impl View for Stack {
    type V = Seq<State>;

    closed spec fn view(&self) -> Seq<State> {
        self.states@
    }
}

impl Default for Stack {
    fn default() -> (stack: Self)
        ensures
            stack.wf(),
            stack@ == seq![State::Initial],
    {
        let mut states = Vec::new();
        states.push(State::Initial);
        Self { states }
    }
}

impl Stack {
    /// The stack is not empty and its bottom is the initial state.
    pub open spec fn wf(&self) -> bool {
        self@.len() > 0 && self@[0] == State::Initial
    }

    /// The states' letters between square brackets, bottom first.
    pub fn to_string(&self) -> (text: String)
        ensures
            text@ == "["@ + letters(self@) + "]"@,
    {
        let mut text = String::from_str("[");
        let mut index: usize = 0;
        while index < self.states.len()
            invariant
                index <= self.states@.len(),
                text@ == "["@ + letters(self.states@.take(index as int)),
            decreases self.states@.len() - index,
        {
            let ghost before = self.states@.take(index as int);
            let ghost after = self.states@.take(index + 1);
            assert(after.drop_last() =~= before);
            if index > 0 {
                text.append(", ");
            }
            let letter = self.states[index].to_string();
            text.append(letter.as_str());
            index = index + 1;
        }
        assert(self.states@.take(index as int) =~= self.states@);
        text.append("]");
        text
    }

    /// It adds a new state to the stack.
    pub fn push(&mut self, state: State)
        requires
            old(self).wf(),
        ensures
            final(self).wf(),
            final(self)@ == old(self)@.push(state),
    {
        self.states.push(state);
    }

    /// It removes the stack top.
    ///
    /// The initial state cannot be popped.
    pub fn pop(&mut self)
        requires
            old(self).wf(),
            old(self)@.last() != State::Initial,
        ensures
            final(self).wf(),
            final(self)@ == old(self)@.drop_last(),
    {
        self.states.pop();
    }

    /// It swaps the stack top with the new state.
    ///
    /// The initial state cannot be swapped.
    pub fn swap_top(&mut self, new_state: State)
        requires
            old(self).wf(),
            old(self)@.last() != State::Initial,
        ensures
            final(self).wf(),
            final(self)@ == old(self)@.drop_last().push(new_state),
    {
        self.states.pop();
        self.push(new_state);
    }

    /// It returns the top element on the stack without consuming it.
    pub fn peek(&self) -> (top: State)
        requires
            self.wf(),
        ensures
            top == self@.last(),
    {
        self.states[self.states.len() - 1]
    }
}

} // verus!
