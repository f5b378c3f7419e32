//! A display name for an entity.

use vstd::prelude::*;
use vstd::std_specs::convert::FromSpecImpl;

verus! {

/// The name shown for an entity.
#[derive(Debug, Clone)]
pub struct Name(pub String);

impl View for Name {
    type V = Seq<char>;

    open spec fn view(&self) -> Seq<char> {
        self.0@
    }
}

impl From<&str> for Name {
    fn from(s: &str) -> (name: Name)
        ensures
            name@ == s@,
    {
        Name(s.to_owned())
    }
}

impl FromSpecImpl<&str> for Name {
    /// The conversion copies the text, so it is stated of the view and not
    /// of the value.
    open spec fn obeys_from_spec() -> bool {
        false
    }

    open spec fn from_spec(s: &str) -> Name {
        arbitrary()
    }
}

impl From<String> for Name {
    fn from(s: String) -> (name: Name)
        ensures
            name@ == s@,
    {
        Name(s)
    }
}

impl FromSpecImpl<String> for Name {
    open spec fn obeys_from_spec() -> bool {
        true
    }

    open spec fn from_spec(s: String) -> Name {
        Name(s)
    }
}

impl Default for Name {
    fn default() -> (name: Name)
        ensures
            name@ == "New Entity"@,
    {
        Name("New Entity".to_owned())
    }
}

} // verus!
