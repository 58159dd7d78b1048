//! Validity of bus names, interface names, member names and object paths.
//!
//! The session-bus address grammar: a dotted name consists of elements
//! separated by single periods; element characters are letters, digits,
//! underscores (and hyphens where noted); a well-known name needs at least
//! two elements and no element may start with a digit; a unique name starts
//! with a colon and its elements may start with digits; an object path is a
//! slash-separated sequence of nonempty `[A-Za-z0-9_]` elements.

use vstd::prelude::*;

verus! {

/// True iff `c` is an ASCII decimal digit.
pub open spec fn is_digit(c: char) -> bool {
    48 <= c as u32 <= 57
}

/// True iff `c` is an ASCII letter.
pub open spec fn is_alpha(c: char) -> bool {
    (65 <= c as u32 <= 90) || (97 <= c as u32 <= 122)
}

/// True iff `c` may appear in a name element.
pub open spec fn is_elem_char(c: char, allow_hyphen: bool) -> bool {
    is_alpha(c) || is_digit(c) || c == '_' || (allow_hyphen && c == '-')
}

/// A dotted name: elements separated by single periods, at least two
/// elements, at most 255 characters. When `digits_first` is false, no
/// element may start with a digit.
pub open spec fn is_dotted_name(s: Seq<char>, allow_hyphen: bool, digits_first: bool) -> bool {
    &&& 1 <= s.len() <= 255
    &&& s[0] != '.'
    &&& s[s.len() - 1] != '.'
    &&& exists|i: int| 0 <= i < s.len() && s[i] == '.'
    &&& forall|i: int| 0 <= i < s.len() ==> s[i] == '.' || is_elem_char(s[i], allow_hyphen)
    &&& forall|i: int| 0 < i < s.len() ==> !(s[i - 1] == '.' && (#[trigger] s[i]) == '.')
    &&& !digits_first ==> {
        &&& !is_digit(s[0])
        &&& forall|i: int| 0 < i < s.len() ==> (s[i - 1] == '.' ==> !is_digit(#[trigger] s[i]))
    }
}

/// A well-known bus name.
pub open spec fn is_well_known_name(s: Seq<char>) -> bool {
    is_dotted_name(s, true, false)
}

/// A unique (colon-prefixed) bus name.
pub open spec fn is_unique_name(s: Seq<char>) -> bool {
    &&& 2 <= s.len() <= 255
    &&& s[0] == ':'
    &&& is_dotted_name(s.skip(1), true, true)
}

/// A bus name: unique or well-known.
pub open spec fn is_bus_name(s: Seq<char>) -> bool {
    is_unique_name(s) || is_well_known_name(s)
}

/// An interface name.
pub open spec fn is_interface_name(s: Seq<char>) -> bool {
    is_dotted_name(s, false, false)
}

/// A member (method or signal) name.
pub open spec fn is_member_name(s: Seq<char>) -> bool {
    &&& 1 <= s.len() <= 255
    &&& !is_digit(s[0])
    &&& forall|i: int| 0 <= i < s.len() ==> is_elem_char(s[i], false)
}

/// An object path.
pub open spec fn is_object_path(s: Seq<char>) -> bool {
    &&& s.len() >= 1
    &&& s[0] == '/'
    &&& s.len() > 1 ==> s[s.len() - 1] != '/'
    &&& forall|i: int| 0 <= i < s.len() ==> s[i] == '/' || is_elem_char(s[i], false)
    &&& forall|i: int| 0 < i < s.len() ==> !(s[i - 1] == '/' && (#[trigger] s[i]) == '/')
}

/// Whether `c` is an ASCII decimal digit.
pub fn check_digit(c: char) -> (r: bool)
    ensures
        r == is_digit(c),
{
    let u = c as u32;
    48 <= u && u <= 57
}

/// Whether `c` may appear in a name element.
pub fn check_elem_char(c: char, allow_hyphen: bool) -> (r: bool)
    ensures
        r == is_elem_char(c, allow_hyphen),
{
    let u = c as u32;
    (65 <= u && u <= 90) || (97 <= u && u <= 122) || (48 <= u && u <= 57) || c == '_' || (
    allow_hyphen && c == '-')
}

/// Whether `v` spells a dotted name.
fn check_dotted(v: &Vec<char>, allow_hyphen: bool, digits_first: bool) -> (r: bool)
    ensures
        r == is_dotted_name(v@, allow_hyphen, digits_first),
{
    let n = v.len();
    if n < 1 || n > 255 {
        return false;
    }
    if v[0] == '.' || v[n - 1] == '.' {
        return false;
    }
    let mut seen_dot = false;
    let mut i: usize = 0;
    while i < n
        invariant
            n == v@.len(),
            1 <= n <= 255,
            i <= n,
            v@[0] != '.',
            seen_dot == exists|j: int| 0 <= j < i && v@[j] == '.',
            forall|j: int| 0 <= j < i ==> v@[j] == '.' || is_elem_char(v@[j], allow_hyphen),
            forall|j: int| 0 < j < i ==> !(v@[j - 1] == '.' && (#[trigger] v@[j]) == '.'),
            !digits_first && 0 < i ==> !is_digit(v@[0]),
            !digits_first ==> forall|j: int|
                0 < j < i ==> (v@[j - 1] == '.' ==> !is_digit(#[trigger] v@[j])),
        decreases n - i,
    {
        let c = v[i];
        if c == '.' {
            if i > 0 && v[i - 1] == '.' {
                return false;
            }
            seen_dot = true;
        } else {
            if !check_elem_char(c, allow_hyphen) {
                return false;
            }
            if !digits_first && check_digit(c) && (i == 0 || v[i - 1] == '.') {
                return false;
            }
        }
        i = i + 1;
    }
    seen_dot
}

/// Whether `s` is a well-known bus name.
pub fn check_well_known_name(s: &str) -> (r: bool)
    ensures
        r == is_well_known_name(s@),
{
    let v = crate::strutil::str_to_chars(s);
    check_dotted(&v, true, false)
}

/// Whether `s` is a bus name (unique or well-known).
pub fn check_bus_name(s: &str) -> (r: bool)
    ensures
        r == is_bus_name(s@),
{
    let v = crate::strutil::str_to_chars(s);
    let n = v.len();
    if n >= 2 && n <= 255 && v[0] == ':' {
        let mut rest: Vec<char> = Vec::new();
        let mut i: usize = 1;
        while i < n
            invariant
                n == v@.len(),
                1 <= i <= n,
                rest@ == v@.subrange(1, i as int),
            decreases n - i,
        {
            rest.push(v[i]);
            proof {
                assert(rest@ =~= v@.subrange(1, i + 1 as int));
            }
            i = i + 1;
        }
        proof {
            assert(rest@ =~= v@.skip(1));
        }
        if check_dotted(&rest, true, true) {
            return true;
        }
    }
    proof {
        if !(n >= 2 && n <= 255 && v@[0] == ':') {
            assert(!is_unique_name(s@));
        }
    }
    check_dotted(&v, true, false)
}

/// Whether `s` is an interface name.
pub fn check_interface_name(s: &str) -> (r: bool)
    ensures
        r == is_interface_name(s@),
{
    let v = crate::strutil::str_to_chars(s);
    check_dotted(&v, false, false)
}

/// Whether `s` is a member name.
pub fn check_member_name(s: &str) -> (r: bool)
    ensures
        r == is_member_name(s@),
{
    let v = crate::strutil::str_to_chars(s);
    let n = v.len();
    if n < 1 || n > 255 {
        return false;
    }
    if check_digit(v[0]) {
        return false;
    }
    let mut i: usize = 0;
    while i < n
        invariant
            v@ == s@,
            n == v@.len(),
            i <= n,
            forall|j: int| 0 <= j < i ==> is_elem_char(v@[j], false),
        decreases n - i,
    {
        if !check_elem_char(v[i], false) {
            proof {
                assert(!is_elem_char(s@[i as int], false));
            }
            return false;
        }
        i = i + 1;
    }
    true
}

/// Whether `s` is an object path.
pub fn check_object_path(s: &str) -> (r: bool)
    ensures
        r == is_object_path(s@),
{
    let v = crate::strutil::str_to_chars(s);
    let n = v.len();
    if n < 1 {
        return false;
    }
    if v[0] != '/' {
        return false;
    }
    if n > 1 && v[n - 1] == '/' {
        return false;
    }
    let mut i: usize = 0;
    while i < n
        invariant
            v@ == s@,
            n == v@.len(),
            i <= n,
            forall|j: int| 0 <= j < i ==> v@[j] == '/' || is_elem_char(v@[j], false),
            forall|j: int| 0 < j < i ==> !(v@[j - 1] == '/' && (#[trigger] v@[j]) == '/'),
        decreases n - i,
    {
        let c = v[i];
        if c == '/' {
            if i > 0 && v[i - 1] == '/' {
                proof {
                    assert(s@[i - 1] == '/' && s@[i as int] == '/');
                }
                return false;
            }
        } else {
            if !check_elem_char(c, false) {
                proof {
                    assert(s@[i as int] != '/' && !is_elem_char(s@[i as int], false));
                }
                return false;
            }
        }
        i = i + 1;
    }
    true
}

} // verus!
