use vstd::prelude::*;

verus! {

/// The four conditions that abort a run. Each is detected before the offending
/// instruction changes anything.
#[derive(Clone, Copy, Debug, PartialEq, Eq, Structural)]
pub enum ErrorKind {
    /// `>` with the cursor on the last cell of the tape.
    CursorOverflow,
    /// `<` with the cursor on cell 0.
    CursorUnderflow,
    /// `[` with every slot of the loop stack in use.
    LoopStackOverflow,
    /// `]` with no open loop.
    UnmatchedBracket,
}

impl ErrorKind {
    /// The text of each message, as a sequence of characters.
    pub open spec fn message_text(self) -> Seq<char> {
        match self {
            ErrorKind::CursorOverflow => "Data pointer beyond range"@,
            ErrorKind::CursorUnderflow => "Data pointer below range"@,
            ErrorKind::LoopStackOverflow => "Nested loop limit reached"@,
            ErrorKind::UnmatchedBracket => "Mismatched brackets"@,
        }
    }

    /// A human-readable description of the error, for display only.
    pub fn message(&self) -> (text: &'static str)
        ensures
            text@ == self.message_text(),
    {
        match self {
            ErrorKind::CursorOverflow => "Data pointer beyond range",
            ErrorKind::CursorUnderflow => "Data pointer below range",
            ErrorKind::LoopStackOverflow => "Nested loop limit reached",
            ErrorKind::UnmatchedBracket => "Mismatched brackets",
        }
    }
}

} // verus!
