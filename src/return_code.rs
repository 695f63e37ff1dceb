use vstd::prelude::*;

verus! {

/// The kind of outcome that an assembly-builder operation reports.
#[derive(Debug, Clone, Copy, PartialEq, Eq, Structural)]
pub enum Code {
    Good,
    NameErr,
    OutOfRange,
    BadArguments,
    FunctionWithinFunctionErr,
    ClosingOfNonFunctionErr,
    LocalVariableNotInFunction,
}

/// A discriminated outcome: a kind together with a human-readable message.
#[derive(Debug)]
pub struct Return {
    pub message: String,
    pub code: Code,
}

impl Return {
    pub fn new(message: String, code: Code) -> (r: Self)
        ensures
            r.message@ == message@,
            r.code == code,
    {
        Self { message, code }
    }

    /// True when the outcome carries no error.
    pub fn is_good(&self) -> (r: bool)
        ensures
            r == (self.code == Code::Good),
    {
        self.code == Code::Good
    }
}

} // verus!
