//! Tool-call argument values, as far as the tool logic reads them.
//!
//! Tool arguments arrive as JSON. The library sees each argument through
//! [`ArgValue`], which keeps what the tools read of a JSON value.
use vstd::prelude::*;
use crate::numbers::{parse_u64, parse_unsigned};

verus! {

/// One JSON argument value.
#[derive(Clone, Debug)]
pub enum ArgValue {
    Null,
    Bool(bool),
    /// A JSON number that is a non-negative integer fitting in `u64`.
    UInt(u64),
    /// Any other JSON number.
    OtherNumber,
    Str(String),
    Array,
    Object,
}

/// What `value_as_bool` gives for `v`.
pub open spec fn spec_value_as_bool(v: ArgValue) -> Option<bool> {
    match v {
        ArgValue::Bool(b) => Some(b),
        ArgValue::Str(s) => if s@ == "true"@ {
            Some(true)
        } else if s@ == "false"@ {
            Some(false)
        } else {
            None
        },
        _ => None,
    }
}

/// What `value_as_u64` gives for `v`.
pub open spec fn spec_value_as_u64(v: ArgValue) -> Option<u64> {
    match v {
        ArgValue::UInt(n) => Some(n),
        ArgValue::Str(s) => match parse_unsigned(s@, u64::MAX as int) {
            Some(n) => Some(n as u64),
            None => None,
        },
        _ => None,
    }
}

/// A boolean argument, given natively or as the string `"true"` / `"false"`.
pub fn value_as_bool(v: &ArgValue) -> (r: Option<bool>)
    ensures
        r == spec_value_as_bool(*v),
{
    match v {
        ArgValue::Bool(b) => Some(*b),
        ArgValue::Str(s) => {
            let t = String::from_str("true");
            let f = String::from_str("false");
            proof {
                reveal_strlit("true");
                reveal_strlit("false");
            }
            if *s == t {
                Some(true)
            } else if *s == f {
                Some(false)
            } else {
                None
            }
        },
        _ => None,
    }
}

/// An unsigned argument, given natively or as a decimal string.
pub fn value_as_u64(v: &ArgValue) -> (r: Option<u64>)
    ensures
        r == spec_value_as_u64(*v),
{
    match v {
        ArgValue::UInt(n) => Some(*n),
        ArgValue::Str(s) => parse_u64(s.as_str()),
        _ => None,
    }
}

} // verus!
