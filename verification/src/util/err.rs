use vstd::prelude::*;

verus! {

#[derive(Debug, Clone, Copy, PartialEq, Eq, Structural)]
pub enum SetErrorKind {
    Io,
    ThreadComm,
    Logging,
    Conversion,
    PanelOob,
    OutOfBounds,
    IdNotFound,
}

#[derive(Debug)]
pub struct SetError {
    pub kind: SetErrorKind,
    pub msg: String,
}

impl SetError {
    /// Builds an error of the given kind. The message text is not kept: the
    /// error always carries an empty message.
    pub fn new(kind: SetErrorKind, msg: &str) -> (e: Self)
        ensures
            e.kind == kind,
            e.msg@ == Seq::<char>::empty(),
    {
        Self { kind, msg: String::new() }
    }
}

} // verus!
