//! Parsing of repeated `Name: value` header arguments.

use vstd::prelude::*;
use crate::text::{
    check_header_name, check_header_value, lower_name, lower_seq, valid_header_name,
    valid_header_value,
};

verus! {

/// Why a header argument was rejected.
#[derive(Clone, Copy, Debug, PartialEq, Eq, Structural)]
pub enum HeaderParseError {
    /// The argument has no `": "` separator.
    MissingSeparator,
    /// The part before the separator is empty or holds a character that is
    /// not allowed in a header name.
    InvalidName,
    /// The part after the separator holds a character that is not allowed in
    /// a header value.
    InvalidValue,
}

impl HeaderParseError {
    pub open spec fn spec_message(&self) -> Seq<char> {
        match self {
            HeaderParseError::MissingSeparator => "Header value missing colon (\": \")"@,
            HeaderParseError::InvalidName => "Invalid header name"@,
            HeaderParseError::InvalidValue => "Invalid header value"@,
        }
    }

    pub fn message(&self) -> (m: &'static str)
        ensures
            m@ == self.spec_message(),
    {
        match self {
            HeaderParseError::MissingSeparator => "Header value missing colon (\": \")",
            HeaderParseError::InvalidName => "Invalid header name",
            HeaderParseError::InvalidValue => "Invalid header value",
        }
    }
}

/// A `": "` separator starts at position `i` of `s`.
pub open spec fn is_sep_at(s: Seq<char>, i: int) -> bool {
    0 <= i && i + 1 < s.len() && s[i] == ':' && s[i + 1] == ' '
}

pub open spec fn has_sep(s: Seq<char>) -> bool {
    exists|i: int| is_sep_at(s, i)
}

/// `i` is the position of the first `": "` separator of `s`.
pub open spec fn is_first_sep(s: Seq<char>, i: int) -> bool {
    is_sep_at(s, i) && forall|j: int| 0 <= j < i ==> !is_sep_at(s, j)
}

pub open spec fn first_sep_index(s: Seq<char>) -> int {
    choose|i: int| is_first_sep(s, i)
}

/// Split a `Name: value` argument at its first `": "`, validate both parts,
/// and normalise the name to lower case.
pub fn parse_header(value: &str) -> (r: Result<(String, String), HeaderParseError>)
    ensures
        r is Ok <==> has_sep(value@) && valid_header_name(value@.take(first_sep_index(value@)))
            && valid_header_value(value@.skip(first_sep_index(value@) + 2)),
        r is Ok ==> {
            let (n, v) = r.unwrap();
            &&& n@ == lower_seq(value@.take(first_sep_index(value@)))
            &&& v@ == value@.skip(first_sep_index(value@) + 2)
        },
        r == Err::<(String, String), HeaderParseError>(HeaderParseError::MissingSeparator) <==> !has_sep(value@),
        r == Err::<(String, String), HeaderParseError>(HeaderParseError::InvalidName) <==> has_sep(value@) && !valid_header_name(
            value@.take(first_sep_index(value@)),
        ),
        r == Err::<(String, String), HeaderParseError>(HeaderParseError::InvalidValue) <==> has_sep(value@) && valid_header_name(
            value@.take(first_sep_index(value@)),
        ) && !valid_header_value(value@.skip(first_sep_index(value@) + 2)),
{
    let ghost s = value@;
    let len = value.unicode_len();
    let mut i: usize = 0;
    let mut found = false;
    while !found && len - i > 1
        invariant
            len == s.len(),
            s == value@,
            i <= len,
            !found ==> forall|j: int| 0 <= j < i ==> !is_sep_at(s, j),
            found ==> is_first_sep(s, i as int),
        decreases len - i, (if found { 0int } else { 1int }),
    {
        if value.get_char(i) == ':' && value.get_char(i + 1) == ' ' {
            found = true;
        } else {
            i += 1;
        }
    }
    if !found {
        proof {
            assert forall|j: int| !is_sep_at(s, j) by {
                if 0 <= j < i {
                } else {
                }
            }
        }
        return Err(HeaderParseError::MissingSeparator);
    }
    let ghost i0 = i as int;
    proof {
        assert(has_sep(s));
        let w = first_sep_index(s);
        assert(is_first_sep(s, w));
        if w < i0 {
            assert(!is_sep_at(s, w));
        }
        if w > i0 {
            assert(!is_sep_at(s, i0));
        }
        assert(w == i0);
    }
    let name_slice = value.substring_char(0, i);
    proof {
        assert(name_slice@ =~= s.take(i0));
    }
    if !check_header_name(name_slice) {
        return Err(HeaderParseError::InvalidName);
    }
    let value_slice = value.substring_char(i + 2, len);
    proof {
        assert(value_slice@ =~= s.skip(i0 + 2));
    }
    if !check_header_value(value_slice) {
        return Err(HeaderParseError::InvalidValue);
    }
    let name = lower_name(name_slice);
    let val = value_slice.to_owned();
    Ok((name, val))
}

} // verus!
