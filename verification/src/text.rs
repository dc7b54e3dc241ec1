//! Small verified helpers that build strings from numbers and literals.

use vstd::prelude::*;
use vstd::string::*;

verus! {

/// The characters of each string of a sequence.
pub open spec fn views_of(s: Seq<String>) -> Seq<Seq<char>> {
    s.map_values(|x: String| x@)
}

/// The sixteen lower-case hexadecimal digits, in order.
pub open spec fn hex_digits() -> Seq<char> {
    seq!['0', '1', '2', '3', '4', '5', '6', '7', '8', '9', 'a', 'b', 'c', 'd', 'e', 'f']
}

/// The decimal representation of `n`, without leading zeros.
pub open spec fn dec_chars(n: nat) -> Seq<char>
    decreases n,
{
    if n < 10 {
        seq![hex_digits()[n as int]]
    } else {
        dec_chars(n / 10) + seq![hex_digits()[(n % 10) as int]]
    }
}

/// The two-digit, zero-padded lower-case hexadecimal representation of a byte.
pub open spec fn hex2(b: u8) -> Seq<char> {
    seq![hex_digits()[(b / 16) as int], hex_digits()[(b % 16) as int]]
}

/// A one-character string literal holding the digit `d` (base 16).
fn digit_str(d: u8) -> (r: &'static str)
    requires
        d < 16,
    ensures
        r@ == seq![hex_digits()[d as int]],
{
    match d {
        0 => { proof { reveal_strlit("0"); } "0" },
        1 => { proof { reveal_strlit("1"); } "1" },
        2 => { proof { reveal_strlit("2"); } "2" },
        3 => { proof { reveal_strlit("3"); } "3" },
        4 => { proof { reveal_strlit("4"); } "4" },
        5 => { proof { reveal_strlit("5"); } "5" },
        6 => { proof { reveal_strlit("6"); } "6" },
        7 => { proof { reveal_strlit("7"); } "7" },
        8 => { proof { reveal_strlit("8"); } "8" },
        9 => { proof { reveal_strlit("9"); } "9" },
        10 => { proof { reveal_strlit("a"); } "a" },
        11 => { proof { reveal_strlit("b"); } "b" },
        12 => { proof { reveal_strlit("c"); } "c" },
        13 => { proof { reveal_strlit("d"); } "d" },
        14 => { proof { reveal_strlit("e"); } "e" },
        _ => { proof { reveal_strlit("f"); } "f" },
    }
}

/// Appends the decimal representation of `n` to `s`.
pub fn push_decimal(s: &mut String, n: u32)
    ensures
        final(s)@ == old(s)@ + dec_chars(n as nat),
    decreases n,
{
    if n >= 10 {
        push_decimal(s, n / 10);
    }
    let d: u8 = (n % 10) as u8;
    s.append(digit_str(d));
    assert(final(s)@ =~= old(s)@ + dec_chars(n as nat));
}

/// Appends the two-digit hexadecimal representation of `b` to `s`.
pub fn push_hex2(s: &mut String, b: u8)
    ensures
        final(s)@ == old(s)@ + hex2(b),
{
    s.append(digit_str(b / 16));
    s.append(digit_str(b % 16));
    assert(final(s)@ =~= old(s)@ + hex2(b));
}

/// `prefix` followed by the decimal representation of `n`, such as `rp3`.
pub fn numbered_name(prefix: &str, n: u32) -> (r: String)
    ensures
        r@ == prefix@ + dec_chars(n as nat),
{
    let mut s = String::from_str(prefix);
    push_decimal(&mut s, n);
    s
}

/// Whether `needle` occurs in `hay` at position `i`.
pub open spec fn matches_at(hay: Seq<char>, needle: Seq<char>, i: int) -> bool {
    &&& 0 <= i
    &&& i + needle.len() <= hay.len()
    &&& hay.subrange(i, i + needle.len()) == needle
}

/// Whether `i` is the last position at which `needle` occurs in `hay`.
pub open spec fn is_last_match(hay: Seq<char>, needle: Seq<char>, i: int) -> bool {
    &&& matches_at(hay, needle, i)
    &&& forall|j: int| i < j ==> !#[trigger] matches_at(hay, needle, j)
}

/// Whether `needle` occurs somewhere in `hay`.
pub open spec fn occurs_in(hay: Seq<char>, needle: Seq<char>) -> bool {
    exists|i: int| #[trigger] matches_at(hay, needle, i)
}

/// The last position at which `needle` occurs in `hay` (meaningful when it
/// occurs).
pub open spec fn last_match(hay: Seq<char>, needle: Seq<char>) -> int {
    choose|i: int| is_last_match(hay, needle, i)
}

/// The part of `hay` before the last occurrence of `needle`; all of `hay`
/// when `needle` does not occur.
pub open spec fn before_last(hay: Seq<char>, needle: Seq<char>) -> Seq<char> {
    if occurs_in(hay, needle) {
        hay.subrange(0, last_match(hay, needle))
    } else {
        hay
    }
}

/// A last match is the one that `last_match` names.
pub proof fn lemma_last_match(hay: Seq<char>, needle: Seq<char>, i: int)
    requires
        is_last_match(hay, needle, i),
    ensures
        occurs_in(hay, needle),
        last_match(hay, needle) == i,
        before_last(hay, needle) == hay.subrange(0, i),
{
    assert(matches_at(hay, needle, i));
    let c = choose|c: int| is_last_match(hay, needle, c);
    assert(is_last_match(hay, needle, c));
    if c < i {
        assert(!matches_at(hay, needle, i));
    } else if i < c {
        assert(!matches_at(hay, needle, c));
    }
}

/// Extending a prefix by one element adds exactly that element.
pub proof fn lemma_take_one_more<A>(s: Seq<A>, j: int)
    requires
        0 <= j < s.len(),
    ensures
        forall|q: A| #[trigger] s.take(j + 1).contains(q) <==> s.take(j).contains(q) || q == s[j],
{
    assert(s.take(j + 1) =~= s.take(j).push(s[j]));
    s.take(j).lemma_push_to_set_commute(s[j]);
    assert forall|q: A| #[trigger] s.take(j + 1).contains(q) <==> s.take(j).contains(q) || q == s[j] by {
        assert(s.take(j + 1).to_set().contains(q) == s.take(j + 1).contains(q));
        assert(s.take(j).to_set().contains(q) == s.take(j).contains(q));
    }
}

/// The characters of `s`, one by one.
pub fn chars_of(s: &str) -> (r: Vec<char>)
    ensures
        r@ == s@,
{
    let n = s.unicode_len();
    let mut r: Vec<char> = Vec::new();
    for i in 0..n
        invariant
            n == s@.len(),
            r@ == s@.take(i as int),
    {
        r.push(s.get_char(i));
        assert(r@ =~= s@.take(i + 1));
    }
    assert(r@ =~= s@);
    r
}

/// Whether `needle` occurs in `hay` at position `i`.
fn match_here(hay: &Vec<char>, needle: &Vec<char>, i: usize) -> (r: bool)
    requires
        i + needle@.len() <= hay@.len(),
    ensures
        r == matches_at(hay@, needle@, i as int),
{
    let n = needle.len();
    for k in 0..n
        invariant
            n == needle@.len(),
            i + n <= hay.len(),
            forall|t: int| 0 <= t < k ==> hay@[i + t] == needle@[t],
    {
        if hay[i + k] != needle[k] {
            assert(hay@.subrange(i as int, i + n)[k as int] != needle@[k as int]);
            return false;
        }
    }
    assert(hay@.subrange(i as int, i + n) =~= needle@);
    true
}

/// Whether `hay` starts with `prefix`.
pub fn starts_with_chars(hay: &Vec<char>, prefix: &Vec<char>) -> (r: bool)
    ensures
        r == (prefix@.len() <= hay@.len() && hay@.subrange(0, prefix@.len() as int) == prefix@),
{
    if prefix.len() > hay.len() {
        return false;
    }
    match_here(hay, prefix, 0)
}

/// The last position at which `needle` occurs in `hay`.
pub fn rfind_chars(hay: &Vec<char>, needle: &Vec<char>) -> (r: Option<usize>)
    ensures
        match r {
            Some(i) => is_last_match(hay@, needle@, i as int),
            None => !occurs_in(hay@, needle@),
        },
{
    if needle.len() > hay.len() {
        return None;
    }
    let last = hay.len() - needle.len();
    let mut i: usize = last;
    loop
        invariant
            0 <= i <= last,
            last + needle@.len() == hay@.len(),
            forall|j: int| i < j ==> !#[trigger] matches_at(hay@, needle@, j),
        decreases i,
    {
        if match_here(hay, needle, i) {
            return Some(i);
        }
        if i == 0 {
            return None;
        }
        i = i - 1;
    }
}

/// Copies of the strings of `v`.
pub fn clone_strings(v: &Vec<String>) -> (r: Vec<String>)
    ensures
        views_of(r@) == views_of(v@),
{
    let mut r: Vec<String> = Vec::new();
    let n = v.len();
    for i in 0..n
        invariant
            n == v@.len(),
            r@ == v@.take(i as int),
    {
        let c = v[i].clone();
        r.push(c);
        assert(r@ =~= v@.take(i + 1));
    }
    assert(r@ =~= v@);
    r
}

} // verus!
