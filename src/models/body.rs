//! Access to the body of a message.
use vstd::prelude::*;

verus! {

/// A message body, absent or owned text.
pub type PossibleHttpBody = Option<String>;

/// Read and replace the body of a message.
pub trait HttpBody {
    fn get_body(&self) -> &PossibleHttpBody;

    fn set_body(&mut self, value: PossibleHttpBody);
}

} // verus!
