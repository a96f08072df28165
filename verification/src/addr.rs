//! The grammar of backend addresses. A backend address is `<host>:<port>`:
//! a non-empty host part without `':'`, then one `':'`, then a decimal port.
//! The port must be written canonically (no leading zeros) and be at most
//! 65535. Pool construction rejects any address outside this grammar.

use vstd::prelude::*;

verus! {

/// Whether `c` is a decimal digit.
pub open spec fn is_dec_digit(c: char) -> bool {
    '0' <= c && c <= '9'
}

/// The numeric value of a digit character.
pub open spec fn digit_val(c: char) -> int {
    c as int - '0' as int
}

/// The numeric value of a digit string, most significant digit first.
pub open spec fn dec_val(s: Seq<char>) -> int
    decreases s.len(),
{
    if s.len() == 0 {
        0
    } else {
        dec_val(s.drop_last()) * 10 + digit_val(s.last())
    }
}

/// Whether every character of `s` is a decimal digit.
pub open spec fn all_digits(s: Seq<char>) -> bool {
    forall|i: int| 0 <= i < s.len() ==> is_dec_digit(s[i])
}

/// A canonical decimal numeral: non-empty, all digits, no leading zero
/// except for `"0"` itself.
pub open spec fn is_canonical_dec(s: Seq<char>) -> bool {
    &&& s.len() > 0
    &&& all_digits(s)
    &&& (s.len() > 1 ==> s[0] != '0')
}

/// A valid port string: a canonical numeral whose value fits a `u16`.
pub open spec fn is_valid_port(s: Seq<char>) -> bool {
    is_canonical_dec(s) && dec_val(s) <= 65535
}

/// The index of the first `':'` in `s` at or after position `i`, or `-1`.
pub open spec fn find_colon_from(s: Seq<char>, i: int) -> int
    decreases s.len() - i,
{
    if i < 0 || i >= s.len() {
        -1
    } else if s[i] == ':' {
        i
    } else {
        find_colon_from(s, i + 1)
    }
}

/// A valid backend address: a non-empty host part before the first `':'`,
/// and a valid port string after it.
pub open spec fn is_valid_backend(s: Seq<char>) -> bool {
    let j = find_colon_from(s, 0);
    j >= 1 && is_valid_port(s.subrange(j + 1, s.len() as int))
}

/// The value of an all-digit string does not shrink as the string grows.
proof fn lemma_dec_val_monotone(s: Seq<char>, n: int)
    requires
        all_digits(s),
        0 <= n <= s.len(),
    ensures
        dec_val(s) >= dec_val(s.subrange(0, n)),
        dec_val(s) >= 0,
    decreases s.len(),
{
    if s.len() == 0 {
        assert(s.subrange(0, n) =~= s);
    } else if n == s.len() {
        assert(s.subrange(0, n) =~= s);
        assert(all_digits(s.drop_last()));
        lemma_dec_val_monotone(s.drop_last(), s.len() - 1);
        assert(digit_val(s.last()) >= 0);
    } else {
        assert(all_digits(s.drop_last()));
        assert(s.drop_last().subrange(0, n) =~= s.subrange(0, n));
        lemma_dec_val_monotone(s.drop_last(), n);
        assert(digit_val(s.last()) >= 0);
    }
}

/// Finds the first `':'` in `s`, if any.
fn find_colon(s: &str) -> (r: Option<usize>)
    ensures
        match r {
            Some(j) => find_colon_from(s@, 0) == j as int && j < s@.len(),
            None => find_colon_from(s@, 0) == -1,
        },
{
    let n = s.unicode_len();
    let mut i: usize = 0;
    while i < n
        invariant
            0 <= i <= n,
            n == s@.len(),
            find_colon_from(s@, 0) == find_colon_from(s@, i as int),
        decreases n - i,
    {
        if s.get_char(i) == ':' {
            return Some(i);
        }
        i = i + 1;
    }
    None
}

/// Checks whether `s` is a valid backend address.
pub fn check_backend_addr(s: &str) -> (r: bool)
    ensures
        r == is_valid_backend(s@),
{
    let n = s.unicode_len();
    let j = match find_colon(s) {
        Some(j) => j,
        None => {
            return false;
        },
    };
    if j == 0 {
        return false;
    }
    let ghost port = s@.subrange(j as int + 1, s@.len() as int);
    if j + 1 == n {
        assert(port.len() == 0);
        return false;
    }
    let first = s.get_char(j + 1);
    assert(first == port[0]);
    if first == '0' && j + 2 < n {
        assert(port.len() > 1 && port[0] == '0');
        return false;
    }
    let mut v: u32 = 0;
    let mut k: usize = j + 1;
    while k < n
        invariant
            j + 1 <= k <= n,
            n == s@.len(),
            (j as int) < s@.len(),
            find_colon_from(s@, 0) == j as int,
            j >= 1,
            port == s@.subrange(j as int + 1, s@.len() as int),
            port.len() > 0,
            port.len() > 1 ==> port[0] != '0',
            all_digits(port.subrange(0, k - j - 1)),
            v == dec_val(port.subrange(0, k - j - 1)),
            v <= 65535,
        decreases n - k,
    {
        let c = s.get_char(k);
        assert(c == port[k - j - 1]);
        let ghost prefix = port.subrange(0, k - j - 1);
        let ghost prefix1 = port.subrange(0, k - j);
        assert(prefix1.drop_last() =~= prefix);
        if !('0' <= c && c <= '9') {
            assert(!is_dec_digit(port[k - j - 1]));
            assert(!all_digits(port));
            return false;
        }
        let d: u32 = (c as u32) - ('0' as u32);
        assert(d == digit_val(c)) by {
            assert('0' <= c && c <= '9');
        }
        v = v * 10 + d;
        assert(v == dec_val(prefix1));
        if v > 65535 {
            assert(all_digits(prefix1));
            proof {
                if all_digits(port) {
                    lemma_dec_val_monotone(port, k - j);
                    assert(dec_val(port) >= dec_val(prefix1));
                }
            }
            assert(!is_valid_port(port));
            return false;
        }
        k = k + 1;
    }
    assert(port.subrange(0, k - j - 1) =~= port);
    assert(is_valid_port(port));
    true
}

} // verus!
