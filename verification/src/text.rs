//! Small verified helpers for composing human-readable messages.

use vstd::prelude::*;

verus! {

/// The character of one decimal digit.
pub open spec fn digit_char(d: nat) -> char {
    if d == 0 { '0' }
    else if d == 1 { '1' }
    else if d == 2 { '2' }
    else if d == 3 { '3' }
    else if d == 4 { '4' }
    else if d == 5 { '5' }
    else if d == 6 { '6' }
    else if d == 7 { '7' }
    else if d == 8 { '8' }
    else { '9' }
}

/// Canonical base-10 rendering of a natural number (no sign, no leading zeros).
pub open spec fn decimal(n: nat) -> Seq<char>
    decreases n,
{
    if n < 10 {
        seq![digit_char(n)]
    } else {
        decimal(n / 10).push(digit_char(n % 10))
    }
}

fn digit_str(d: u64) -> (s: &'static str)
    requires
        d < 10,
    ensures
        s@ == seq![digit_char(d as nat)],
{
    proof {
        reveal_strlit("0");
        reveal_strlit("1");
        reveal_strlit("2");
        reveal_strlit("3");
        reveal_strlit("4");
        reveal_strlit("5");
        reveal_strlit("6");
        reveal_strlit("7");
        reveal_strlit("8");
        reveal_strlit("9");
    }
    if d == 0 { "0" }
    else if d == 1 { "1" }
    else if d == 2 { "2" }
    else if d == 3 { "3" }
    else if d == 4 { "4" }
    else if d == 5 { "5" }
    else if d == 6 { "6" }
    else if d == 7 { "7" }
    else if d == 8 { "8" }
    else { "9" }
}

/// Renders `n` in base 10.
pub fn decimal_string(n: u64) -> (s: String)
    ensures
        s@ == decimal(n as nat),
    decreases n,
{
    if n < 10 {
        String::from_str(digit_str(n))
    } else {
        let mut s = decimal_string(n / 10);
        s.append(digit_str(n % 10));
        s
    }
}

/// Renders a 128-bit `n` in base 10.
pub fn decimal_string_wide(n: u128) -> (s: String)
    ensures
        s@ == decimal(n as nat),
    decreases n,
{
    if n < 10 {
        String::from_str(digit_str(n as u64))
    } else {
        let mut s = decimal_string_wide(n / 10);
        s.append(digit_str((n % 10) as u64));
        s
    }
}

/// `prefix` followed by `tail`.
pub fn concat_str(prefix: &str, tail: &str) -> (s: String)
    ensures
        s@ == prefix@ + tail@,
{
    let mut s = String::from_str(prefix);
    s.append(tail);
    s
}

} // verus!

verus! {

/// Whether `c` has the Unicode `White_Space` property (what `char::is_whitespace` tests).
pub open spec fn is_white_space(c: char) -> bool {
    ||| ('\u{9}' <= c && c <= '\u{d}')
    ||| c == ' '
    ||| c == '\u{85}'
    ||| c == '\u{a0}'
    ||| c == '\u{1680}'
    ||| ('\u{2000}' <= c && c <= '\u{200a}')
    ||| c == '\u{2028}'
    ||| c == '\u{2029}'
    ||| c == '\u{202f}'
    ||| c == '\u{205f}'
    ||| c == '\u{3000}'
}

/// Executable form of [`is_white_space`].
pub fn white_space(c: char) -> (b: bool)
    ensures
        b == is_white_space(c),
{
    ('\u{9}' <= c && c <= '\u{d}') || c == ' ' || c == '\u{85}' || c == '\u{a0}'
        || c == '\u{1680}' || ('\u{2000}' <= c && c <= '\u{200a}') || c == '\u{2028}'
        || c == '\u{2029}' || c == '\u{202f}' || c == '\u{205f}' || c == '\u{3000}'
}

/// A name is usable when something other than white space remains after
/// trimming and it holds no NUL character.
pub open spec fn is_usable_name(s: Seq<char>) -> bool {
    &&& exists|i: int| 0 <= i < s.len() && !is_white_space(#[trigger] s[i])
    &&& forall|i: int| 0 <= i < s.len() ==> #[trigger] s[i] != '\0'
}

/// Executable form of [`is_usable_name`].
pub fn usable_name(s: &str) -> (b: bool)
    ensures
        b == is_usable_name(s@),
{
    broadcast use vstd::string::group_string_axioms;
    let mut seen_visible = false;
    let ghost chars = s@;
    for c in it: s.chars()
        invariant
            it.seq() == chars,
            chars == s@,
            seen_visible == (exists|i: int| 0 <= i < it.index() && !is_white_space(#[trigger] chars[i])),
            forall|i: int| 0 <= i < it.index() ==> #[trigger] chars[i] != '\0',
    {
        if c == '\0' {
            assert(chars[it.index() as int] == '\0');
            return false;
        }
        if !white_space(c) {
            seen_visible = true;
        }
    }
    seen_visible
}


/// The characters of `s`, in order.
pub fn chars_of(s: &str) -> (v: Vec<char>)
    ensures
        v@ == s@,
{
    broadcast use vstd::string::group_string_axioms;
    let mut v: Vec<char> = Vec::new();
    let ghost chars = s@;
    for c in it: s.chars()
        invariant
            it.seq() == chars,
            chars == s@,
            v@ == chars.take(it.index() as int),
    {
        proof {
            assert(chars.take(it.index() + 1) =~= chars.take(it.index() as int).push(c));
        }
        v.push(c);
    }
    proof {
        assert(chars.take(chars.len() as int) =~= chars);
    }
    v
}

/// `needle` occurs in `s` at position `i`.
pub open spec fn occurs_at(s: Seq<char>, needle: Seq<char>, i: int) -> bool {
    0 <= i && i + needle.len() <= s.len() && s.subrange(i, i + needle.len()) == needle
}

/// Position `i` is the first occurrence of `needle` in `s`.
pub open spec fn first_occurrence_at(s: Seq<char>, needle: Seq<char>, i: int) -> bool {
    occurs_at(s, needle, i) && forall|j: int| 0 <= j < i ==> !occurs_at(s, needle, j)
}

/// The position of the first occurrence of `needle` in `s`, if any.
pub open spec fn first_occurrence(s: Seq<char>, needle: Seq<char>) -> Option<int> {
    if exists|i: int| first_occurrence_at(s, needle, i) {
        Some(choose|i: int| first_occurrence_at(s, needle, i))
    } else {
        None
    }
}

/// Finds the first occurrence of `needle` in `s`.
pub fn find_chars(s: &[char], needle: &[char]) -> (r: Option<usize>)
    ensures
        r matches Some(i) ==> first_occurrence(s@, needle@) == Some(i as int),
        r is None ==> first_occurrence(s@, needle@) is None,
{
    if needle.len() > s.len() {
        proof {
            assert forall|i: int| !first_occurrence_at(s@, needle@, i) by {}
        }
        return None;
    }
    if needle.len() == 0 {
        proof {
            assert(s@.subrange(0, 0) =~= needle@);
            assert(first_occurrence_at(s@, needle@, 0));
            let c = choose|c: int| first_occurrence_at(s@, needle@, c);
            assert(c == 0) by {
                if c > 0 {
                    assert(!occurs_at(s@, needle@, 0));
                }
            }
        }
        return Some(0);
    }
    let n = s.len();
    let last = n - needle.len();
    let mut i: usize = 0;
    while i <= last
        invariant
            0 < needle@.len() <= s@.len(),
            s@.len() <= usize::MAX,
            last == s@.len() - needle@.len(),
            i <= last + 1,
            forall|j: int| 0 <= j < i ==> !occurs_at(s@, needle@, j),
        decreases last + 1 - i,
    {
        let mut k: usize = 0;
        let mut same = true;
        while k < needle.len()
            invariant
                i <= last,
                0 < needle@.len() <= s@.len(),
                s@.len() <= usize::MAX,
                last == s@.len() - needle@.len(),
                k <= needle@.len(),
                same == (forall|m: int| 0 <= m < k ==> s@[i + m] == needle@[m]),
            decreases needle@.len() - k,
        {
            if s[i + k] != needle[k] {
                same = false;
            }
            k = k + 1;
        }
        proof {
            if same {
                assert(s@.subrange(i as int, i + needle@.len()) =~= needle@);
            } else {
                let m = choose|m: int| 0 <= m < needle@.len() && s@[i + m] != needle@[m];
                assert(s@.subrange(i as int, i + needle@.len())[m] != needle@[m]);
            }
        }
        if same {
            proof {
                assert(first_occurrence_at(s@, needle@, i as int));
                let c = choose|c: int| first_occurrence_at(s@, needle@, c);
                assert(c == i) by {
                    if c < i {
                        assert(!occurs_at(s@, needle@, c));
                    }
                    if i < c {
                        assert(!occurs_at(s@, needle@, i as int));
                    }
                }
            }
            return Some(i);
        }
        i = i + 1;
    }
    proof {
        assert forall|c: int| !first_occurrence_at(s@, needle@, c) by {
            if first_occurrence_at(s@, needle@, c) {
                assert(c <= last);
            }
        }
    }
    None
}

/// Index of the first character of `s` that satisfies `p`, if any.
pub open spec fn first_index_where(s: Seq<char>, p: spec_fn(char) -> bool) -> Option<int> {
    if exists|i: int| 0 <= i < s.len() && p(s[i]) {
        Some(choose|i: int| 0 <= i < s.len() && p(s[i]) && forall|j: int| 0 <= j < i ==> !p(s[j]))
    } else {
        None
    }
}

/// Number of leading white-space characters of `s`.
pub open spec fn leading_white_space(s: Seq<char>) -> int {
    match first_index_where(s, |c: char| !is_white_space(c)) {
        Some(i) => i,
        None => s.len() as int,
    }
}


/// Whether two character runs are equal.
pub fn chars_equal(a: &[char], b: &[char]) -> (r: bool)
    ensures
        r == (a@ == b@),
{
    if a.len() != b.len() {
        return false;
    }
    for i in 0..a.len()
        invariant
            a@.len() == b@.len(),
            forall|j: int| 0 <= j < i ==> a@[j] == b@[j],
    {
        if a[i] != b[i] {
            return false;
        }
    }
    assert(a@ =~= b@);
    true
}

/// A copy of `v[from..to]`.
pub fn slice_chars(v: &Vec<char>, from: usize, to: usize) -> (r: Vec<char>)
    requires
        from <= to <= v@.len(),
    ensures
        r@ == v@.subrange(from as int, to as int),
{
    let mut r: Vec<char> = Vec::new();
    for i in from..to
        invariant
            to <= v@.len(),
            r@ == v@.subrange(from as int, i as int),
    {
        r.push(v[i]);
        proof {
            assert(r@ =~= v@.subrange(from as int, i + 1));
        }
    }
    r
}

} // verus!
