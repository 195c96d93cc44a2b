pub mod cli;
pub mod config;
pub mod feed;
pub mod xml;
pub mod youtube;

pub use cli::ArgOption;
pub use cli::Command;
pub use cli::MimError;
pub use cli::parse_options;
pub use config::Mim;
pub use feed::Category;
pub use feed::Entry;
pub use feed::Feed;
pub use feed::Source;
pub use feed::Timestamp;
pub use feed::parse_entries;
pub use xml::NodeManipulation;
pub use xml::XmlNode;
pub use youtube::Youtube;

use vstd::prelude::*;

verus! {

/// Equality of two string slices, character by character.
pub fn str_eq(a: &str, b: &str) -> (r: bool)
    ensures
        r == (a@ == b@),
{
    let alen = a.unicode_len();
    let blen = b.unicode_len();
    if alen != blen {
        proof {
            assert(a@.len() != b@.len());
        }
        return false;
    }
    let mut i: usize = 0;
    while i < alen
        invariant
            0 <= i <= alen,
            alen == a@.len(),
            alen == b@.len(),
            forall|k: int| 0 <= k < i ==> a@[k] == b@[k],
        decreases alen - i,
    {
        if a.get_char(i) != b.get_char(i) {
            return false;
        }
        i = i + 1;
    }
    proof {
        assert(a@ =~= b@);
    }
    true
}

} // verus!
