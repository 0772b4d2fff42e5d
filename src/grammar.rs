//! The text of a token: the identifier grammar of keys, the plain-word fallback
//! for values, where a token splits, and the messages that describe a bad pair.

use vstd::prelude::*;

use crate::outside::{pattern_matches, regex_matches};

verus! {

/// The identifier grammar: one or more word characters, hyphens or dots.
pub const IDENTIFIER_PATTERN: &'static str = r"^([\w\-.]+)$";

/// Plain words: word characters and spaces only, possibly none.
pub const ASSUME_STRING_PATTERN: &'static str = r"^[\w ]*$";

/// Whether `s` is an identifier, as the identifier grammar says.
pub open spec fn spec_is_identifier(s: Seq<char>) -> bool {
    regex_matches(IDENTIFIER_PATTERN@, s)
}

/// Whether `s` is plain words, to be taken as a string as it stands.
pub open spec fn spec_assume_string(s: Seq<char>) -> bool {
    regex_matches(ASSUME_STRING_PATTERN@, s)
}

/// Tests `s` against the identifier grammar.
pub fn is_identifier(s: &str) -> (r: bool)
    ensures
        r == spec_is_identifier(s@),
{
    pattern_matches(IDENTIFIER_PATTERN, s)
}

/// Tests `s` against the plain-word pattern.
pub fn assume_string(s: &str) -> (r: bool)
    ensures
        r == spec_assume_string(s@),
{
    pattern_matches(ASSUME_STRING_PATTERN, s)
}

/// How many times `c` occurs in `s`.
pub open spec fn count_char(s: Seq<char>, c: char) -> nat
    decreases s.len(),
{
    if s.len() == 0 {
        0
    } else {
        count_char(s.drop_last(), c) + if s.last() == c {
            1nat
        } else {
            0nat
        }
    }
}

/// The position of the first `x` in `s`, or the length of `s` where there is none.
pub open spec fn position<A>(s: Seq<A>, x: A) -> nat
    decreases s.len(),
{
    if s.len() == 0 {
        0
    } else if s[0] == x {
        0
    } else {
        1 + position(s.drop_first(), x)
    }
}

/// The text before the first `=` of a token.
pub open spec fn key_text(t: Seq<char>) -> Seq<char> {
    t.subrange(0, position(t, '=') as int)
}

/// The text after the first `=` of a token.
pub open spec fn value_text(t: Seq<char>) -> Seq<char> {
    t.subrange(position(t, '=') as int + 1, t.len() as int)
}

/// The decimal digit for `d`.
pub open spec fn digit_char(d: nat) -> char {
    if d == 0 {
        '0'
    } else if d == 1 {
        '1'
    } else if d == 2 {
        '2'
    } else if d == 3 {
        '3'
    } else if d == 4 {
        '4'
    } else if d == 5 {
        '5'
    } else if d == 6 {
        '6'
    } else if d == 7 {
        '7'
    } else if d == 8 {
        '8'
    } else {
        '9'
    }
}

/// `n` written in decimal.
pub open spec fn decimal(n: nat) -> Seq<char>
    decreases n,
{
    if n < 10 {
        seq![digit_char(n)]
    } else {
        decimal(n / 10).push(digit_char(n % 10))
    }
}

/// Why a token with `n` equal signs, `n` not one, is no pair.
pub open spec fn count_reason(n: nat) -> Seq<char> {
    "expected exactly one equal sign (`=`), found "@ + decimal(n)
}

/// Why a token whose key is `key` is no pair, where `key` is no identifier.
pub open spec fn key_reason(key: Seq<char>) -> Seq<char> {
    "key `"@ + key + "` did not match the identifier regex (`"@ + IDENTIFIER_PATTERN@ + "`)"@
}

proof fn lemma_count_push(s: Seq<char>, x: char, c: char)
    ensures
        count_char(s.push(x), c) == count_char(s, c) + if x == c {
            1nat
        } else {
            0nat
        },
{
    assert(s.push(x).drop_last() =~= s);
}

/// What the first position of `x` in `s` is: a position `p` where `x`
/// stands, or the length of `s`, before which `x` does not occur.
pub proof fn lemma_position<A>(s: Seq<A>, x: A, p: int)
    requires
        0 <= p <= s.len(),
        p < s.len() ==> s[p] == x,
        forall|j: int| 0 <= j < p ==> s[j] != x,
    ensures
        position(s, x) == p,
    decreases p,
{
    if p > 0 {
        lemma_position(s.drop_first(), x, p - 1);
    }
}

/// The first position of `x` in `s` is within bounds, `x` stands there if it
/// is not the end, and nowhere before.
pub proof fn lemma_position_facts<A>(s: Seq<A>, x: A)
    ensures
        position(s, x) <= s.len(),
        position(s, x) < s.len() ==> s[position(s, x) as int] == x,
        forall|j: int| 0 <= j < position(s, x) ==> s[j] != x,
    decreases s.len(),
{
    if s.len() > 0 && s[0] != x {
        lemma_position_facts(s.drop_first(), x);
        assert forall|j: int| 0 <= j < position(s, x) implies s[j] != x by {
            if j > 0 {
                assert(s[j] == s.drop_first()[j - 1]);
            }
        }
    }
}

/// A sequence in which `c` does not occur counts no `c`.
pub proof fn lemma_count_absent(s: Seq<char>, c: char)
    requires
        forall|j: int| 0 <= j < s.len() ==> s[j] != c,
    ensures
        count_char(s, c) == 0,
    decreases s.len(),
{
    if s.len() > 0 {
        lemma_count_absent(s.drop_last(), c);
    }
}

/// Where `c` occurs, its first position is within `s`.
pub proof fn lemma_count_position(s: Seq<char>, c: char)
    requires
        count_char(s, c) > 0,
    ensures
        position(s, c) < s.len(),
        s[position(s, c) as int] == c,
{
    lemma_position_facts(s, c);
    if position(s, c) == s.len() {
        lemma_count_absent(s, c);
    }
}

/// Where a token splits: the number of its equal signs, and the position of
/// the first one (the length of the token where there is none).
pub fn split_point(t: &str) -> (r: (usize, usize))
    ensures
        r.0 == count_char(t@, '='),
        r.1 == position(t@, '='),
{
    let n = t.unicode_len();
    let mut i: usize = 0;
    let mut count: usize = 0;
    let mut first: usize = n;
    while i < n
        invariant
            n == t@.len(),
            i <= n,
            count == count_char(t@.subrange(0, i as int), '='),
            count <= i,
            first <= n,
            first == n ==> forall|j: int| 0 <= j < i ==> t@[j] != '=',
            first < n ==> first < i && t@[first as int] == '=' && forall|j: int|
                0 <= j < first ==> t@[j] != '=',
        decreases n - i,
    {
        let c = t.get_char(i);
        proof {
            assert(t@.subrange(0, i + 1) =~= t@.subrange(0, i as int).push(c));
            lemma_count_push(t@.subrange(0, i as int), c, '=');
        }
        if c == '=' {
            count = count + 1;
            if first == n {
                first = i;
            }
        }
        i = i + 1;
    }
    proof {
        assert(t@.subrange(0, n as int) =~= t@);
        lemma_position(t@, '=', first as int);
    }
    (count, first)
}

/// The decimal digit for `d`, as text.
fn digit_str(d: usize) -> (r: &'static str)
    requires
        d < 10,
    ensures
        r@ == seq![digit_char(d as nat)],
{
    proof {
        reveal_strlit("0");
        reveal_strlit("1");
        reveal_strlit("2");
        reveal_strlit("3");
        reveal_strlit("4");
        reveal_strlit("5");
        reveal_strlit("6");
        reveal_strlit("7");
        reveal_strlit("8");
        reveal_strlit("9");
    }
    match d {
        0 => "0",
        1 => "1",
        2 => "2",
        3 => "3",
        4 => "4",
        5 => "5",
        6 => "6",
        7 => "7",
        8 => "8",
        _ => "9",
    }
}

/// `n` written in decimal.
pub fn decimal_string(n: usize) -> (r: String)
    ensures
        r@ == decimal(n as nat),
    decreases n,
{
    if n < 10 {
        String::from_str(digit_str(n))
    } else {
        let mut s = decimal_string(n / 10);
        s.append(digit_str(n % 10));
        s
    }
}

/// The message for a token with `n` equal signs, `n` not one.
pub fn count_message(n: usize) -> (r: String)
    ensures
        r@ == count_reason(n as nat),
{
    let mut s = String::from_str("expected exactly one equal sign (`=`), found ");
    let d = decimal_string(n);
    s.append(d.as_str());
    s
}

/// The message for a key that is no identifier.
pub fn key_message(key: &str) -> (r: String)
    ensures
        r@ == key_reason(key@),
{
    let mut s = String::from_str("key `");
    s.append(key);
    s.append("` did not match the identifier regex (`");
    s.append(IDENTIFIER_PATTERN);
    s.append("`)");
    s
}

} // verus!
