use vstd::prelude::*;
use vstd::string::StrSliceExecFns;
use vstd::string::StringExecFns;

verus! {

/// Index of the first character at or after `i` that is not `'/'`;
/// `s.len()` when every character from `i` on is a slash.
pub open spec fn first_non_slash_from(s: Seq<char>, i: int) -> int
    decreases s.len() - i,
{
    if i < 0 || i >= s.len() {
        s.len() as int
    } else if s[i] != '/' {
        i
    } else {
        first_non_slash_from(s, i + 1)
    }
}

/// Number of leading `'/'` characters of `s`.
pub open spec fn spec_leading_slashes(s: Seq<char>) -> int {
    first_non_slash_from(s, 0)
}

/// Index of the first `'/'` at or after `i`; `s.len()` when there is none.
pub open spec fn first_slash_from(s: Seq<char>, i: int) -> int
    decreases s.len() - i,
{
    if i < 0 || i >= s.len() {
        s.len() as int
    } else if s[i] == '/' {
        i
    } else {
        first_slash_from(s, i + 1)
    }
}

/// Index of the first `':'` at or after `i`; `s.len()` when there is none.
pub open spec fn first_colon_from(s: Seq<char>, i: int) -> int
    decreases s.len() - i,
{
    if i < 0 || i >= s.len() {
        s.len() as int
    } else if s[i] == ':' {
        i
    } else {
        first_colon_from(s, i + 1)
    }
}

pub proof fn lemma_first_non_slash_from_bounds(s: Seq<char>, i: int)
    requires
        0 <= i <= s.len(),
    ensures
        i <= first_non_slash_from(s, i) <= s.len(),
        first_non_slash_from(s, i) < s.len() ==> s[first_non_slash_from(s, i)] != '/',
        forall|j: int| i <= j < first_non_slash_from(s, i) ==> s[j] == '/',
    decreases s.len() - i,
{
    if i < s.len() && s[i] == '/' {
        lemma_first_non_slash_from_bounds(s, i + 1);
    }
}

pub proof fn lemma_first_slash_from_bounds(s: Seq<char>, i: int)
    requires
        0 <= i <= s.len(),
    ensures
        i <= first_slash_from(s, i) <= s.len(),
        first_slash_from(s, i) < s.len() ==> s[first_slash_from(s, i)] == '/',
        forall|j: int| i <= j < first_slash_from(s, i) ==> s[j] != '/',
    decreases s.len() - i,
{
    if i < s.len() && s[i] != '/' {
        lemma_first_slash_from_bounds(s, i + 1);
    }
}

/// Characters of `s` equal, one by one, the characters of `t`.
pub fn str_eq(a: &str, b: &str) -> (r: bool)
    ensures
        r == (a@ == b@),
{
    let a_len: usize = a.unicode_len();
    let b_len: usize = b.unicode_len();
    if a_len != b_len {
        assert(a@ != b@) by {
            assert(a@.len() != b@.len());
        }
        return false;
    }
    let mut i: usize = 0;
    while i < a_len
        invariant
            a_len == a@.len(),
            b_len == b@.len(),
            a_len == b_len,
            0 <= i <= a_len,
            forall|j: int| 0 <= j < i ==> a@[j] == b@[j],
        decreases a_len - i,
    {
        let ca: char = a.get_char(i);
        let cb: char = b.get_char(i);
        if ca != cb {
            return false;
        }
        i = i + 1;
    }
    proof {
        assert(a@ =~= b@);
    }
    true
}

/// The characters `a` and `b` are equal up to ASCII case.
pub open spec fn chars_eq_ci(a: char, b: char) -> bool {
    a == b || (65 <= a as u32 <= 90 && b as u32 == a as u32 + 32) || (65 <= b as u32 <= 90
        && a as u32 == b as u32 + 32)
}

/// The strings `a` and `b` are equal up to ASCII case, character by character.
pub open spec fn seq_eq_ci(a: Seq<char>, b: Seq<char>) -> bool {
    a.len() == b.len() && (forall|i: int| 0 <= i < a.len() ==> chars_eq_ci(a[i], b[i]))
}

/// ASCII-case-insensitive string comparison.
pub fn str_eq_ci(a: &str, b: &str) -> (r: bool)
    ensures
        r == seq_eq_ci(a@, b@),
{
    let a_len: usize = a.unicode_len();
    let b_len: usize = b.unicode_len();
    if a_len != b_len {
        return false;
    }
    let mut i: usize = 0;
    while i < a_len
        invariant
            a_len == a@.len(),
            b_len == b@.len(),
            a_len == b_len,
            0 <= i <= a_len,
            forall|j: int| 0 <= j < i ==> chars_eq_ci(a@[j], b@[j]),
        decreases a_len - i,
    {
        let ca: char = a.get_char(i);
        let cb: char = b.get_char(i);
        let ca32: u32 = ca as u32;
        let cb32: u32 = cb as u32;
        let ca_folded: u32 = if 65 <= ca32 && ca32 <= 90 {
            ca32 + 32
        } else {
            ca32
        };
        let cb_folded: u32 = if 65 <= cb32 && cb32 <= 90 {
            cb32 + 32
        } else {
            cb32
        };
        if ca_folded != cb_folded {
            proof {
                assert(!chars_eq_ci(a@[i as int], b@[i as int]));
            }
            return false;
        }
        i = i + 1;
    }
    true
}

/// The host part of a `host[:port]` value: everything before the first `':'`.
pub open spec fn spec_strip_port(s: Seq<char>) -> Seq<char> {
    s.subrange(0, first_colon_from(s, 0))
}

/// Removes a trailing `:port` suffix from a host header value, keeping
/// everything before the first `':'`.
pub fn strip_port(s: &str) -> (r: String)
    ensures
        r@ == spec_strip_port(s@),
{
    let len: usize = s.unicode_len();
    let mut i: usize = 0;
    while i < len && s.get_char(i) != ':'
        invariant
            len == s@.len(),
            0 <= i <= len,
            first_colon_from(s@, 0) == first_colon_from(s@, i as int),
            forall|j: int| 0 <= j < i ==> s@[j] != ':',
        decreases len - i,
    {
        i = i + 1;
    }
    proof {
        assert(first_colon_from(s@, i as int) == i);
        assert(first_colon_from(s@, 0) == i);
    }
    let prefix: &str = s.substring_char(0, i);
    let r: String = prefix.to_owned();
    proof {
        assert(r@ =~= spec_strip_port(s@));
    }
    r
}

/// Decimal digit character for a value in `0 ..= 9`.
pub open spec fn spec_digit(d: int) -> char {
    if d == 0 {
        '0'
    } else if d == 1 {
        '1'
    } else if d == 2 {
        '2'
    } else if d == 3 {
        '3'
    } else if d == 4 {
        '4'
    } else if d == 5 {
        '5'
    } else if d == 6 {
        '6'
    } else if d == 7 {
        '7'
    } else if d == 8 {
        '8'
    } else {
        '9'
    }
}

/// Decimal representation of a non-negative integer, most significant
/// digit first, with no leading zeros (a lone zero for 0).
pub open spec fn spec_dec_str(n: int) -> Seq<char>
    decreases n,
{
    if n < 10 {
        seq![spec_digit(n)]
    } else {
        spec_dec_str(n / 10) + seq![spec_digit(n % 10)]
    }
}

fn digit_str(d: u16) -> (r: &'static str)
    requires
        d < 10,
    ensures
        r@ == seq![spec_digit(d as int)],
{
    proof {
        reveal_strlit("0");
        reveal_strlit("1");
        reveal_strlit("2");
        reveal_strlit("3");
        reveal_strlit("4");
        reveal_strlit("5");
        reveal_strlit("6");
        reveal_strlit("7");
        reveal_strlit("8");
        reveal_strlit("9");
    }
    match d {
        0 => "0",
        1 => "1",
        2 => "2",
        3 => "3",
        4 => "4",
        5 => "5",
        6 => "6",
        7 => "7",
        8 => "8",
        _ => {
            assert(d == 9);
            "9"
        },
    }
}

fn append_dec(s: &mut String, n: u16)
    ensures
        final(s)@ == old(s)@ + spec_dec_str(n as int),
    decreases n,
{
    if n < 10 {
        s.append(digit_str(n));
    } else {
        append_dec(s, n / 10);
        s.append(digit_str(n % 10));
        proof {
            assert(s@ =~= old(s)@ + spec_dec_str(n as int));
        }
    }
}

/// Decimal rendering of a port number.
pub fn u16_to_string(n: u16) -> (r: String)
    ensures
        r@ == spec_dec_str(n as int),
{
    let mut s: String = String::new();
    append_dec(&mut s, n);
    proof {
        assert(s@ =~= spec_dec_str(n as int));
    }
    s
}

} // verus!
