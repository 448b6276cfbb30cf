//! The dialog vocabulary the terminal front ends share: what a dialog is
//! for, how it was answered, and which answers it offers.
use vstd::prelude::*;

verus! {

/// What a dialog asks of the user.
#[derive(Debug, Clone, Copy, PartialEq, Eq, Structural)]
pub enum DialogPurpose {
    Save,
    Execute,
    CommandOutput,
}

/// How a dialog was resolved: left open, dismissed, or confirmed with an
/// optional typed answer.
#[derive(Debug)]
pub enum DialogResult {
    Open,
    Close,
    Yes(Option<String>),
}

/// Which answers a dialog offers.
#[derive(Debug, Clone, Copy, PartialEq, Eq, Structural)]
pub enum DialogAnswers {
    Okay,
    YesNo,
}

impl DialogAnswers {
    /// How many answers can be selected.
    pub fn len(&self) -> (r: usize)
        ensures
            r == match *self {
                DialogAnswers::Okay => 1int,
                DialogAnswers::YesNo => 2int,
            },
    {
        match self {
            DialogAnswers::Okay => 1,
            DialogAnswers::YesNo => 2,
        }
    }
}

} // verus!
