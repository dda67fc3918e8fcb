//! The library's error value: a message describing what went wrong.

use vstd::prelude::*;

verus! {

/// An error with a human-readable message. Every fallible operation of the
/// library reports its failure through this type; the exact message text is
/// part of each operation's contract.
#[derive(Debug, PartialEq, Eq)]
pub struct MyError {
    pub msg: String,
}

impl MyError {
    pub fn new(msg: &str) -> (r: MyError)
        ensures
            r.msg@ == msg@,
    {
        MyError { msg: msg.to_owned() }
    }
}

} // verus!
