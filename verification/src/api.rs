//! The asset-delivery lookup's response handling: finding the asset URL
//! inside the response body and extracting the numeric id it carries.
//!
//! The driver fetches the body over HTTP; this module decides what the
//! body means. The body matches when it contains `http`, an optional `s`,
//! `://www`, any character, `roblox`, any character, `com/asset/?id=` and
//! at least one decimal digit; the extracted id is the digit run after
//! the first such match.

use vstd::prelude::*;

use crate::strutil::str_eq;

verus! {

/// Errors of the asset-delivery lookup.
#[derive(Clone, Copy, Debug, PartialEq, Eq, Structural)]
pub enum ApiError {
    /// The response body held no asset URL to extract an id from.
    NoMatch,
}

pub open spec fn spec_is_digit(c: char) -> bool {
    '0' <= c <= '9'
}

/// The fixed part of the asset URL between the protocol and the id; the
/// characters at offsets 6 and 13 (the dots of the host name) match any
/// character.
pub open spec fn spec_tail_matches(s: Seq<char>, b: int) -> bool {
    &&& b >= 0
    &&& b + 28 <= s.len()
    &&& forall|j: int|
        0 <= j < 28 && j != 6 && j != 13 ==> s[b + j] == "://www.roblox.com/asset/?id="@[j]
}

/// Where the digit run of a match starting at `i` begins.
pub open spec fn spec_match_digits_start(s: Seq<char>, i: int) -> int {
    let b = if i + 4 < s.len() && s[i + 4] == 's' {
        i + 5
    } else {
        i + 4
    };
    b + 28
}

/// True iff an asset URL starts at position `i`.
pub open spec fn spec_match_at(s: Seq<char>, i: int) -> bool {
    &&& 0 <= i
    &&& i + 4 <= s.len()
    &&& s.subrange(i, i + 4) == "http"@
    &&& {
        let b = if i + 4 < s.len() && s[i + 4] == 's' {
            i + 5
        } else {
            i + 4
        };
        &&& spec_tail_matches(s, b)
        &&& b + 28 < s.len()
        &&& spec_is_digit(s[b + 28])
    }
}

/// The end of the digit run starting at `d`.
pub open spec fn spec_digit_run_end(s: Seq<char>, d: int) -> int
    decreases s.len() - d,
{
    if 0 <= d < s.len() && spec_is_digit(s[d]) {
        spec_digit_run_end(s, d + 1)
    } else {
        d
    }
}

/// The position of the first asset URL at or after `i`.
pub open spec fn spec_first_match_from(s: Seq<char>, i: int) -> Option<int>
    decreases s.len() - i,
{
    if i >= s.len() {
        None
    } else if spec_match_at(s, i) {
        Some(i)
    } else {
        spec_first_match_from(s, i + 1)
    }
}

/// The id the response body carries: the digit run after the first asset
/// URL in it, if any.
pub open spec fn spec_texture_id(s: Seq<char>) -> Option<Seq<char>> {
    match spec_first_match_from(s, 0) {
        Some(i) => {
            let d = spec_match_digits_start(s, i);
            Some(s.subrange(d, spec_digit_run_end(s, d)))
        },
        None => None,
    }
}

/// Tests whether an asset URL starts at position `i` of `body`.
fn match_at(body: &str, n: usize, i: usize) -> (r: bool)
    requires
        n == body@.len(),
        i < n,
    ensures
        r == spec_match_at(body@, i as int),
{
    if n - i < 4 {
        return false;
    }
    let h = body.substring_char(i, i + 4);
    if !str_eq(h, "http") {
        return false;
    }
    let b: usize = if i + 4 < n && body.get_char(i + 4) == 's' {
        i + 5
    } else {
        i + 4
    };
    proof {
        assert(b as int == (if i as int + 4 < body@.len() && body@[i as int + 4] == 's' {
            i as int + 5
        } else {
            i as int + 4
        }));
    }
    if n - b <= 28 {
        return false;
    }
    let t = "://www.roblox.com/asset/?id=";
    proof {
        assert(t@.len() == 28) by {
            reveal_strlit("://www.roblox.com/asset/?id=");
        }
    }
    for j in 0..28usize
        invariant
            n == body@.len(),
            i < n,
            b as int == (if i as int + 4 < body@.len() && body@[i as int + 4] == 's' {
                i as int + 5
            } else {
                i as int + 4
            }),
            b + 28 < n,
            t@ == "://www.roblox.com/asset/?id="@,
            t@.len() == 28,
            forall|j0: int|
                0 <= j0 < j && j0 != 6 && j0 != 13 ==> body@[b + j0]
                    == "://www.roblox.com/asset/?id="@[j0],
    {
        if j != 6 && j != 13 {
            if body.get_char(b + j) != t.get_char(j) {
                proof {
                    assert(!spec_tail_matches(body@, b as int)) by {
                        if spec_tail_matches(body@, b as int) {
                            assert(body@[b as int + j as int]
                                == "://www.roblox.com/asset/?id="@[j as int]);
                        }
                    }
                }
                return false;
            }
        }
    }
    let c = body.get_char(b + 28);
    '0' <= c && c <= '9'
}

/// Finds the asset URL in an asset-delivery response body and returns the
/// numeric id after it; fails iff the body holds no such URL.
pub fn extract_texture_id(body: &str) -> (r: Result<String, ApiError>)
    ensures
        match r {
            Ok(id) => spec_texture_id(body@) == Some(id@),
            Err(e) => e == ApiError::NoMatch && spec_texture_id(body@) is None,
        },
{
    let n = body.unicode_len();
    let mut i: usize = 0;
    loop
        invariant
            n == body@.len(),
            i <= n,
            spec_first_match_from(body@, 0) == spec_first_match_from(body@, i as int),
        ensures
            i <= n,
            spec_first_match_from(body@, 0) == spec_first_match_from(body@, i as int),
            i == n || spec_match_at(body@, i as int),
            i == n ==> spec_first_match_from(body@, i as int) is None,
        decreases n - i,
    {
        if i == n {
            break ;
        }
        if match_at(body, n, i) {
            break ;
        }
        i = i + 1;
    }
    if i == n {
        return Err(ApiError::NoMatch);
    }
    let b: usize = if i + 4 < n && body.get_char(i + 4) == 's' {
        i + 5
    } else {
        i + 4
    };
    let d: usize = b + 28;
    proof {
        assert(d == spec_match_digits_start(body@, i as int));
        assert(d < n);
    }
    let mut e: usize = d;
    loop
        invariant
            n == body@.len(),
            d <= e <= n,
            spec_digit_run_end(body@, d as int) == spec_digit_run_end(body@, e as int),
        ensures
            d <= e <= n,
            spec_digit_run_end(body@, d as int) == e,
        decreases n - e,
    {
        if e == n {
            break ;
        }
        let c = body.get_char(e);
        if !('0' <= c && c <= '9') {
            break ;
        }
        e = e + 1;
    }
    let id = body.substring_char(d, e);
    Ok(id.to_owned())
}

} // verus!
