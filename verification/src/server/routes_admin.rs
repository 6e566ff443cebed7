//! The administration routes' requests and the mode they carry.

use vstd::prelude::*;
use crate::text::{parse_unsigned, substring, to_chars, unsigned_value};

verus! {

/// A request to add a user; `is_agent` is false unless given.
#[derive(Debug)]
pub struct CreateUserRequest {
    pub name: String,
    pub is_agent: bool,
}

/// A request to add a group.
#[derive(Debug)]
pub struct CreateGroupRequest {
    pub name: String,
}

/// A request to change a mode, written in octal.
#[derive(Debug)]
pub struct ChmodRequest {
    pub mode: String,
}

/// A request to change an owner, and the group if one is named.
#[derive(Debug)]
pub struct ChownRequest {
    pub owner: String,
    pub group: Option<String>,
}

/// The sequence without leading zeros (`trim_start_matches('0')`).
pub open spec fn skip_zeros(s: Seq<char>) -> Seq<char>
    decreases s.len(),
{
    if s.len() > 0 && s[0] == '0' {
        skip_zeros(s.drop_first())
    } else {
        s
    }
}

/// The mode an octal text stands for: leading zeros are dropped, nothing
/// left means 0, and the rest must be an octal number that fits 16 bits.
pub open spec fn mode_value(s: Seq<char>) -> Option<u16> {
    let t = skip_zeros(s);
    if t.len() == 0 {
        Some(0u16)
    } else {
        match unsigned_value(t, 8) {
            Some(v) => if v <= u16::MAX {
                Some(v as u16)
            } else {
                None
            },
            None => None,
        }
    }
}

/// Reads a mode written in octal.
pub fn parse_mode(s: &str) -> (r: Option<u16>)
    ensures
        r == mode_value(s@),
{
    let chars = to_chars(s);
    let mut start: usize = 0;
    proof {
        assert(chars@.skip(0) =~= chars@);
    }
    while start < chars.len() && chars[start] == '0'
        invariant
            start <= chars@.len(),
            chars@ == s@,
            skip_zeros(s@) == skip_zeros(chars@.skip(start as int)),
        decreases chars.len() - start,
    {
        proof {
            assert(chars@.skip(start as int).drop_first() =~= chars@.skip(start + 1));
        }
        start += 1;
    }
    proof {
        assert(skip_zeros(chars@.skip(start as int)) == chars@.skip(start as int));
    }
    if start == chars.len() {
        proof {
            assert(chars@.skip(start as int).len() == 0);
        }
        return Some(0);
    }
    let rest = substring(chars.as_slice(), start, chars.len());
    proof {
        assert(rest@ =~= chars@.skip(start as int));
    }
    match parse_unsigned(rest.as_str(), 8, 0xffff) {
        Some(v) => Some(v as u16),
        None => None,
    }
}

} // verus!
