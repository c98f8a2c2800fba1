//! Kinds of securities that the ledger knows.
use vstd::prelude::*;

use crate::text::push_str;

verus! {

/// The kind of a security.
#[derive(Clone, Copy, Debug, PartialEq, Eq, Structural, PartialOrd, Ord, Hash)]
pub enum SecurityType {
    Option,
    Stock,
    MutualFund,
    MarketIndex,
}

/// The token that names a security type in a securities ledger (`T` line).
pub open spec fn type_token(t: SecurityType) -> Seq<char> {
    match t {
        SecurityType::Stock => "Stock"@,
        SecurityType::Option => "Option"@,
        SecurityType::MutualFund => "Mutual Fund"@,
        SecurityType::MarketIndex => "Market Index"@,
    }
}

/// The security type that a `T` line token names, if any.
pub open spec fn type_of_token(token: Seq<char>) -> Option<SecurityType> {
    if token == "Option"@ {
        Some(SecurityType::Option)
    } else if token == "Stock"@ {
        Some(SecurityType::Stock)
    } else if token == "Mutual Fund"@ {
        Some(SecurityType::MutualFund)
    } else if token == "Market Index"@ {
        Some(SecurityType::MarketIndex)
    } else {
        None
    }
}

impl SecurityType {
    /// Appends the token that names this type in a securities ledger.
    pub fn push_token(&self, s: &mut String)
        ensures
            final(s)@ == old(s)@ + type_token(*self),
    {
        match self {
            SecurityType::Stock => push_str(s, "Stock"),
            SecurityType::Option => push_str(s, "Option"),
            SecurityType::MutualFund => push_str(s, "Mutual Fund"),
            SecurityType::MarketIndex => push_str(s, "Market Index"),
        }
    }
}

} // verus!
