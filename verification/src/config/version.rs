//! The version check run before a puzzle configuration is parsed: the text
//! must open with a `config_version` field holding the supported version.

use vstd::prelude::*;
use vstd::string::StrSliceExecFns;

verus! {

/// An ASCII whitespace character.
pub open spec fn is_space(c: char) -> bool {
    c == ' ' || c == '\t' || c == '\n' || c == '\r' || c == '\u{0b}' || c == '\u{0c}'
}

/// The first index at or after `from` holding a non-space character, or the
/// text's length if all of the rest is whitespace.
pub open spec fn first_non_space(s: Seq<char>, from: int) -> int
    decreases s.len() - from,
    when 0 <= from <= s.len()
{
    if from >= s.len() {
        from
    } else if !is_space(s[from]) {
        from
    } else {
        first_non_space(s, from + 1)
    }
}

proof fn lemma_first_non_space_unique(s: Seq<char>, from: int, x: int)
    requires
        0 <= from <= x <= s.len(),
        x == s.len() || !is_space(s[x]),
        forall|k: int| from <= k < x ==> is_space(#[trigger] s[k]),
    ensures
        first_non_space(s, from) == x,
    decreases x - from,
{
    if from < x {
        lemma_first_non_space_unique(s, from + 1, x);
    }
}

/// The text holds `t` starting at index `i`.
pub open spec fn starts_with_at(s: Seq<char>, i: int, t: Seq<char>) -> bool {
    0 <= i && i + t.len() <= s.len() && s.subrange(i, i + t.len()) == t
}

/// The decimal digit characters of `n`.
pub open spec fn dec_digits(n: int) -> Seq<char>
    decreases n,
    when n >= 0
{
    if n < 10 {
        seq![digit_char(n)]
    } else {
        dec_digits(n / 10) + seq![digit_char(n % 10)]
    }
}

/// The character for one decimal digit.
pub open spec fn digit_char(d: int) -> char {
    if d == 0 {
        '0'
    } else if d == 1 {
        '1'
    } else if d == 2 {
        '2'
    } else if d == 3 {
        '3'
    } else if d == 4 {
        '4'
    } else if d == 5 {
        '5'
    } else if d == 6 {
        '6'
    } else if d == 7 {
        '7'
    } else if d == 8 {
        '8'
    } else {
        '9'
    }
}

/// The text opens, up to whitespace, with `{ "config_version": <version>,`.
pub open spec fn spec_matches_version(s: Seq<char>, version: int) -> bool {
    let i0 = first_non_space(s, 0);
    let key = "\"config_version\""@;
    &&& i0 < s.len()
    &&& s[i0] == '{'
    &&& {
        let i1 = first_non_space(s, i0 + 1);
        &&& starts_with_at(s, i1, key)
        &&& {
            let i2 = first_non_space(s, i1 + key.len());
            &&& i2 < s.len()
            &&& s[i2] == ':'
            &&& {
                let i3 = first_non_space(s, i2 + 1);
                &&& starts_with_at(s, i3, dec_digits(version))
                &&& {
                    let i4 = first_non_space(s, i3 + dec_digits(version).len());
                    &&& i4 < s.len()
                    &&& s[i4] == ','
                }
            }
        }
    }
}

fn is_space_at(s: &str, i: usize) -> (r: bool)
    requires
        i < s@.len(),
    ensures
        r == is_space(s@[i as int]),
{
    let c = s.get_char(i);
    c == ' ' || c == '\t' || c == '\n' || c == '\r' || c == '\u{0b}' || c == '\u{0c}'
}

/// Scans past whitespace from `from`.
fn skip_spaces(s: &str, from: usize, n: usize) -> (r: usize)
    requires
        n == s@.len(),
        from <= n,
    ensures
        r == first_non_space(s@, from as int),
        from <= r <= n,
        r < n ==> !is_space(s@[r as int]),
{
    let mut i = from;
    while i < n && is_space_at(s, i)
        invariant
            n == s@.len(),
            from <= i <= n,
            forall|k: int| from <= k < i ==> is_space(#[trigger] s@[k]),
        decreases n - i,
    {
        i = i + 1;
    }
    proof {
        lemma_first_non_space_unique(s@, from as int, i as int);
    }
    i
}

/// The decimal digit characters of `n`, most significant first.
fn u32_digits(n: u32) -> (r: Vec<char>)
    ensures
        r@ == dec_digits(n as int),
        r@.len() >= 1,
    decreases n,
{
    if n < 10 {
        let c: char = match n {
            0 => '0',
            1 => '1',
            2 => '2',
            3 => '3',
            4 => '4',
            5 => '5',
            6 => '6',
            7 => '7',
            8 => '8',
            _ => '9',
        };
        let r = vec![c];
        proof {
            assert(r@ =~= seq![digit_char(n as int)]);
        }
        r
    } else {
        let mut r = u32_digits(n / 10);
        let d = n % 10;
        let c: char = match d {
            0 => '0',
            1 => '1',
            2 => '2',
            3 => '3',
            4 => '4',
            5 => '5',
            6 => '6',
            7 => '7',
            8 => '8',
            _ => '9',
        };
        r.push(c);
        proof {
            assert(r@ =~= dec_digits((n / 10) as int) + seq![digit_char((n % 10) as int)]);
        }
        r
    }
}

/// The text holds exactly the characters of `t` starting at `i`.
fn text_at(s: &str, i: usize, n: usize, t: &Vec<char>) -> (r: bool)
    requires
        n == s@.len(),
        i <= n,
    ensures
        r == starts_with_at(s@, i as int, t@),
{
    let m = t.len();
    if n - i < m {
        proof {
            assert(!starts_with_at(s@, i as int, t@));
        }
        return false;
    }
    let mut k: usize = 0;
    while k < m
        invariant
            n == s@.len(),
            i <= n,
            m == t@.len(),
            i + m <= n,
            k <= m,
            forall|x: int| 0 <= x < k ==> s@[i + x] == t@[x],
        decreases m - k,
    {
        if s.get_char(i + k) != t[k] {
            proof {
                assert(s@.subrange(i as int, i + m) != t@) by {
                    assert(s@.subrange(i as int, i + m)[k as int] == s@[i + k]);
                }
            }
            return false;
        }
        k = k + 1;
    }
    proof {
        assert(s@.subrange(i as int, i + m) =~= t@);
    }
    true
}

/// Decides whether the configuration text declares the given version: it
/// must open, up to whitespace, with `{ "config_version": <version>,`.
pub fn matches_version(json_str: &str, version: u32) -> (r: bool)
    ensures
        r == spec_matches_version(json_str@, version as int),
{
    let n = json_str.unicode_len();
    let ghost s = json_str@;

    let i0 = skip_spaces(json_str, 0, n);
    if i0 >= n || json_str.get_char(i0) != '{' {
        return false;
    }

    let i1 = skip_spaces(json_str, i0 + 1, n);
    let key: Vec<char> = vec![
        '"',
        'c',
        'o',
        'n',
        'f',
        'i',
        'g',
        '_',
        'v',
        'e',
        'r',
        's',
        'i',
        'o',
        'n',
        '"',
    ];
    proof {
        reveal_strlit("\"config_version\"");
        assert(key@ =~= "\"config_version\""@);
    }
    if !text_at(json_str, i1, n, &key) {
        return false;
    }
    assert(i1 + 16 <= n);

    let i2 = skip_spaces(json_str, i1 + 16, n);
    if i2 >= n || json_str.get_char(i2) != ':' {
        return false;
    }

    let i3 = skip_spaces(json_str, i2 + 1, n);
    let digits = u32_digits(version);
    if !text_at(json_str, i3, n, &digits) {
        return false;
    }
    let nd = digits.len();
    assert(i3 + nd <= n);

    let i4 = skip_spaces(json_str, i3 + nd, n);
    if i4 >= n || json_str.get_char(i4) != ',' {
        return false;
    }
    true
}

} // verus!
