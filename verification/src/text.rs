use vstd::prelude::*;

verus! {

/// Whether `char::is_whitespace` holds of `c`: whether `c` has the Unicode
/// `White_Space` property, that is, is one of its 25 code points.
pub open spec fn is_white_space(c: char) -> bool {
    let x = c as u32;
    ||| 0x9 <= x <= 0xD
    ||| x == 0x20
    ||| x == 0x85
    ||| x == 0xA0
    ||| x == 0x1680
    ||| 0x2000 <= x <= 0x200A
    ||| x == 0x2028
    ||| x == 0x2029
    ||| x == 0x202F
    ||| x == 0x205F
    ||| x == 0x3000
}

/// Whether the character is whitespace (what `char::is_whitespace` tells).
fn char_is_whitespace(c: char) -> (r: bool)
    ensures
        r == is_white_space(c),
{
    let x = c as u32;
    (0x9 <= x && x <= 0xD) || x == 0x20 || x == 0x85 || x == 0xA0 || x == 0x1680 || (0x2000 <= x && x <= 0x200A)
        || x == 0x2028 || x == 0x2029 || x == 0x202F || x == 0x205F || x == 0x3000
}

/// Whether the text is empty once surrounding whitespace is trimmed, that
/// is, whether every character is whitespace.
pub open spec fn is_blank(s: Seq<char>) -> bool {
    forall|i: int| 0 <= i < s.len() ==> is_white_space(#[trigger] s[i])
}

/// Whether `s.trim().is_empty()`.
pub fn trims_to_empty(s: &str) -> (r: bool)
    ensures
        r == is_blank(s@),
{
    let n = s.unicode_len();
    let mut i: usize = 0;
    while i < n
        invariant
            n == s@.len(),
            i <= n,
            forall|j: int| 0 <= j < i ==> is_white_space(#[trigger] s@[j]),
        decreases n - i,
    {
        let c = s.get_char(i);
        if !char_is_whitespace(c) {
            return false;
        }
        i = i + 1;
    }
    true
}

/// Appends `b` to `a`.
pub fn push_text(a: &mut String, b: &str)
    ensures
        final(a)@ == old(a)@ + b@,
{
    a.append(b);
}

/// A new string holding the literal text.
pub fn text(s: &str) -> (r: String)
    ensures
        r@ == s@,
{
    String::from_str(s)
}

} // verus!

verus! {

/// The decimal digit for `d`.
pub open spec fn digit_char(d: nat) -> char {
    if d == 0 { '0' } else if d == 1 { '1' } else if d == 2 { '2' } else if d == 3 { '3' }
    else if d == 4 { '4' } else if d == 5 { '5' } else if d == 6 { '6' } else if d == 7 { '7' }
    else if d == 8 { '8' } else { '9' }
}

/// The decimal form of `n`, as `Display` writes an integer.
pub open spec fn decimal(n: nat) -> Seq<char>
    decreases n,
{
    if n < 10 {
        seq![digit_char(n)]
    } else {
        decimal(n / 10).push(digit_char(n % 10))
    }
}

/// The digits grouped in threes from the right, joined by `_`.
pub open spec fn group_digits(s: Seq<char>) -> Seq<char>
    decreases s.len(),
{
    if s.len() <= 3 {
        s
    } else {
        group_digits(s.take(s.len() - 3)) + seq!['_'] + s.skip(s.len() - 3)
    }
}

/// How `candid::Nat` displays the number `n`: its decimal digits in
/// groups of three joined by `_`, as in `1_000_000`.
pub open spec fn nat_display(n: nat) -> Seq<char> {
    group_digits(decimal(n))
}

/// Calls `Display` of `candid::Nat` on `n`; the crate's source writes the
/// decimal digits (`BigUint::to_str_radix(10)`) and joins the groups of
/// three digits, counted from the right, with `_` (`pp_num_str`).
#[verifier::external_body]
pub(crate) fn nat_text(n: u128) -> (r: String)
    ensures
        r@ == nat_display(n as nat),
{
    candid::Nat::from(n).to_string()
}

} // verus!

verus! {

/// Whether `needle` occurs in `hay` at place `i`.
pub open spec fn occurs_at(hay: Seq<char>, needle: Seq<char>, i: int) -> bool {
    0 <= i && i + needle.len() <= hay.len() && hay.subrange(i, i + needle.len()) == needle
}

/// Whether `needle` occurs in `hay`, which is what `str::contains` tells
/// for a string pattern (the empty pattern occurs in every text).
pub open spec fn has_substring(hay: Seq<char>, needle: Seq<char>) -> bool {
    exists|i: int| occurs_at(hay, needle, i)
}

/// A text holds every piece of it: whatever comes before and after `n`,
/// `contains_text(x + n + y, n)` holds. And a text holds only its pieces:
/// where `has_substring(h, n)` holds, `h` is some `x + n + y`.
pub proof fn lemma_contains_exactly_the_pieces(x: Seq<char>, n: Seq<char>, y: Seq<char>, h: Seq<char>)
    ensures
        has_substring(x + n + y, n),
        has_substring(h, n) <==> exists|u: Seq<char>, v: Seq<char>| h == u + n + v,
{
    let hay = x + n + y;
    assert(hay.subrange(x.len() as int, (x.len() + n.len()) as int) =~= n);
    assert(occurs_at(hay, n, x.len() as int));
    if has_substring(h, n) {
        let i = choose|i: int| occurs_at(h, n, i);
        let u = h.subrange(0, i);
        let v = h.subrange(i + n.len(), h.len() as int);
        assert(h =~= u + n + v);
    }
    if exists|u: Seq<char>, v: Seq<char>| h == u + n + v {
        let (u, v) = choose|u: Seq<char>, v: Seq<char>| h == u + n + v;
        assert(h.subrange(u.len() as int, (u.len() + n.len()) as int) =~= n);
        assert(occurs_at(h, n, u.len() as int));
    }
}

/// Whether `needle` occurs in `hay` at place `i`, compared character by
/// character.
fn matches_at(hay: &str, needle: &str, i: usize) -> (r: bool)
    requires
        i + needle@.len() <= hay@.len(),
    ensures
        r == occurs_at(hay@, needle@, i as int),
{
    let m = needle.unicode_len();
    let n = hay.unicode_len();
    let mut j: usize = 0;
    while j < m
        invariant
            m == needle@.len(),
            n == hay@.len(),
            i + m <= hay@.len(),
            j <= m,
            forall|k: int| 0 <= k < j ==> hay@[i + k] == needle@[k],
        decreases m - j,
    {
        if hay.get_char(i + j) != needle.get_char(j) {
            assert(hay@.subrange(i as int, i + m)[j as int] != needle@[j as int]);
            return false;
        }
        j = j + 1;
    }
    assert(hay@.subrange(i as int, i + m) =~= needle@);
    true
}

/// Whether `needle` occurs in `hay`.
pub fn contains_text(hay: &str, needle: &str) -> (r: bool)
    ensures
        r == has_substring(hay@, needle@),
{
    let n = hay.unicode_len();
    let m = needle.unicode_len();
    if m > n {
        assert(!has_substring(hay@, needle@));
        return false;
    }
    let last = n - m;
    let mut i: usize = 0;
    while i < last
        invariant
            n == hay@.len(),
            m == needle@.len(),
            m <= n,
            last == n - m,
            i <= last,
            forall|k: int| 0 <= k < i ==> !occurs_at(hay@, needle@, k),
        decreases last - i,
    {
        if matches_at(hay, needle, i) {
            return true;
        }
        i = i + 1;
    }
    if matches_at(hay, needle, last) {
        return true;
    }
    assert(!has_substring(hay@, needle@)) by {
        if has_substring(hay@, needle@) {
            let k = choose|k: int| occurs_at(hay@, needle@, k);
            assert(k <= last);
        }
    }
    false
}

} // verus!
