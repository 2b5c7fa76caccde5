//! Text of the integer readings shown on the dashboard cards.
use vstd::prelude::*;

use crate::text::{decimal, push_decimal};

verus! {

/// The text shown for a reading that is not available.
pub open spec fn not_available() -> Seq<char> {
    seq!['N', '/', 'A']
}

/// The text of a CPU frequency in MHz, where 0 means unknown.
pub open spec fn freq_spec(f: u64) -> Seq<char> {
    if f > 0 {
        decimal(f as nat) + seq![' ', 'M', 'H', 'z']
    } else {
        not_available()
    }
}

/// The CPU frequency as `"<f> MHz"`, or `"N/A"` when it is 0 (unknown).
pub fn freq_str(f: u64) -> (s: String)
    ensures
        s@ == freq_spec(f),
{
    if f > 0 {
        let mut s = String::new();
        push_decimal(&mut s, f as u128);
        s.append(" MHz");
        proof {
            reveal_strlit(" MHz");
        }
        s
    } else {
        proof {
            reveal_strlit("N/A");
        }
        String::from_str("N/A")
    }
}

/// The text of an optional integer reading followed by its unit.
pub open spec fn reading_spec(v: Option<u64>, unit: Seq<char>) -> Seq<char> {
    match v {
        Some(n) => decimal(n as nat) + unit,
        None => not_available(),
    }
}

/// An optional integer reading as its value followed by `unit` (such as
/// `" °C"` or `"%"`), or `"N/A"` when it is not available.
pub fn reading_text(v: Option<u64>, unit: &str) -> (s: String)
    ensures
        s@ == reading_spec(v, unit@),
{
    match v {
        Some(n) => {
            let mut s = String::new();
            push_decimal(&mut s, n as u128);
            s.append(unit);
            s
        },
        None => {
            proof {
                reveal_strlit("N/A");
            }
            String::from_str("N/A")
        },
    }
}

} // verus!
