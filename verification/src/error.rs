use vstd::prelude::*;

verus! {

/// A plain error value carrying a one-line diagnostic message.
#[derive(Debug, Clone)]
pub struct GenericError {
    msg: String,
}

impl View for GenericError {
    type V = Seq<char>;

    closed spec fn view(&self) -> Seq<char> {
        self.msg@
    }
}

impl GenericError {
    pub fn new(err_msg: String) -> (r: GenericError)
        ensures
            r@ == err_msg@,
    {
        GenericError { msg: err_msg }
    }

    /// The diagnostic message this error carries.
    pub fn message(&self) -> (r: &String)
        ensures
            r@ == self@,
    {
        &self.msg
    }
}

} // verus!
