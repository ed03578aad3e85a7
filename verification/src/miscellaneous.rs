use vstd::prelude::*;
use vstd::string::StringExecFns;

verus! {

/// A "missing …" diagnostic fragment for a named kind of input.
pub fn missing(something: &str) -> (r: String)
    ensures
        r@ == "missing "@ + something@,
{
    let mut text = String::from_str("missing ");
    text.append(something);
    text
}

/// A classification of input with a fixed display name, used in "missing …"
/// diagnostics.
pub trait DisplayName {
    /// The display name as a character sequence.
    spec fn spec_display_name() -> Seq<char>;

    fn display_name() -> (r: &'static str)
        ensures
            r@ == Self::spec_display_name(),
    ;
}

} // verus!
