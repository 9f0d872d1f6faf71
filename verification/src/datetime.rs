//! The platform's dynamic-timestamp syntax: instead of writing out how
//! long ago something happened, the timestamp is embedded and the platform
//! renders it relatively.

use vstd::prelude::*;

use crate::text::{dec_digits_signed, i64_to_dec};

verus! {

/// A moment rendered with the platform's relative-timestamp syntax.
#[derive(Clone, Copy, PartialEq, Eq, Structural, Debug)]
pub struct HowLongAgoDynamic {
    pub secs: i64,
}

impl HowLongAgoDynamic {
    /// From a Unix timestamp in seconds.
    pub fn new(secs: i64) -> (r: Self)
        ensures
            r.secs == secs,
    {
        HowLongAgoDynamic { secs }
    }

    /// The timestamp token the platform renders relatively.
    pub fn text(&self) -> (r: String)
        ensures
            r@ == "<t:"@ + dec_digits_signed(self.secs as int) + ":R>"@,
    {
        let mut out = String::from_str("<t:");
        let digits = i64_to_dec(self.secs);
        out.append(digits.as_str());
        out.append(":R>");
        proof {
            assert(out@ =~= "<t:"@ + dec_digits_signed(self.secs as int) + ":R>"@);
        }
        out
    }
}

} // verus!
