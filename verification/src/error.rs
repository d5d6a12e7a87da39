use vstd::prelude::*;

verus! {

/// The one externally visible failure of the core: snapshot construction
/// fails when the controlled agent's identity is absent from the board.
#[derive(Debug)]
pub struct Error {
    msg: String,
}

impl View for Error {
    type V = Seq<char>;

    closed spec fn view(&self) -> Seq<char> {
        self.msg@
    }
}

impl Error {
    pub fn new(msg: String) -> (r: Error)
        ensures
            r@ == msg@,
    {
        Error { msg }
    }

    /// The human-readable description carried by this error.
    pub fn message(&self) -> (r: &String)
        ensures
            r@ == self@,
    {
        &self.msg
    }
}

} // verus!
