//! Identities of accounts and contracts.
use vstd::prelude::*;

verus! {

/// An identity on the ledger, held as the text of its key.
///
/// Two addresses name the same identity exactly when their texts are equal,
/// so the view of an address is that text.
#[derive(Debug)]
pub struct Address {
    strkey: String,
}

impl View for Address {
    type V = Seq<char>;

    closed spec fn view(&self) -> Seq<char> {
        self.strkey@
    }
}

impl Address {
    /// The address with the given key text.
    pub fn new(strkey: String) -> (a: Address)
        ensures
            a@ == strkey@,
    {
        Address { strkey }
    }

    /// The key text of the address.
    pub fn as_str(&self) -> (s: &str)
        ensures
            s@ == self@,
    {
        self.strkey.as_str()
    }
}

impl PartialEq for Address {
    /// Whether two addresses name the same identity.
    fn eq(&self, other: &Address) -> (b: bool) {
        self.strkey == other.strkey
    }
}

impl Eq for Address {}

impl vstd::std_specs::cmp::PartialEqSpecImpl for Address {
    open spec fn obeys_eq_spec() -> bool {
        true
    }

    open spec fn eq_spec(&self, other: &Address) -> bool {
        self@ == other@
    }
}

impl Clone for Address {
    fn clone(&self) -> (a: Address)
        ensures
            a@ == self@,
    {
        Address { strkey: self.strkey.clone() }
    }
}

/// The identity that an optional address names, if any.
pub open spec fn optional_view(a: Option<Address>) -> Option<Seq<char>> {
    match a {
        Some(a) => Some(a@),
        None => None,
    }
}

/// Whether `slot` holds the identity that `who` names.
pub fn holds(slot: &Option<Address>, who: &Address) -> (b: bool)
    ensures
        b == (optional_view(*slot) == Some(who@)),
{
    match slot {
        Some(a) => *a == *who,
        None => false,
    }
}

} // verus!
