//! Instances: a recognised name with the words that follow it.
use vstd::prelude::*;
use crate::raw::words_of;
use vstd::string::*;

verus! {

/// One recognised unit of the input: a command or option name with the words
/// that follow it, or, with an empty name, a group of leading bare words.
#[derive(Debug, PartialEq, Eq)]
pub struct Instance {
    pub name: String,
    pub args: Vec<String>,
}

impl View for Instance {
    type V = (Seq<char>, Seq<Seq<char>>);

    open spec fn view(&self) -> (Seq<char>, Seq<Seq<char>>) {
        (self.name@, self.words())
    }
}

/// The views of a vector of instances.
pub open spec fn instances_of(v: Seq<Instance>) -> Seq<(Seq<char>, Seq<Seq<char>>)> {
    v.map_values(|i: Instance| i@)
}

impl Instance {
    pub open spec fn words(self) -> Seq<Seq<char>> {
        words_of(self.args@)
    }

    /// Whether the instance is anonymous.
    pub fn is_empty(&self) -> (r: bool)
        ensures
            r == (self.name@.len() == 0),
    {
        self.name.as_str().unicode_len() == 0
    }

    /// An anonymous instance with no words.
    pub fn empty() -> (r: Instance)
        ensures
            r.name@.len() == 0,
            r.args@.len() == 0,
    {
        Instance { name: String::new(), args: Vec::new() }
    }

    /// An instance named `name` with no words.
    pub fn new(name: &str) -> (r: Instance)
        ensures
            r.name@ == name@,
            r.args@.len() == 0,
    {
        Instance { name: String::from_str(name), args: Vec::new() }
    }
}

} // verus!
