//! Text helpers: comparing and splitting strings, reading a repeat count,
//! and the two argument syntaxes `origin=alias` and `key/count`.

use crate::error::Error;
use vstd::prelude::*;
use vstd::std_specs::iter::IteratorSpec;
use vstd::string::StringExecFns;

verus! {

/// Separates the origin from the alias in a definition.
pub const ALIAS_DELIMITER: char = '=';

/// Separates the key from the count in a grouped reference.
pub const PARAM_DELIMITER: char = '/';

/// The two halves of `s` around the first occurrence of `c`, when there is one.
pub open spec fn split_first(s: Seq<char>, c: char) -> Option<(Seq<char>, Seq<char>)>
    decreases s.len(),
{
    if s.len() == 0 {
        None
    } else if s[0] == c {
        Some((Seq::empty(), s.drop_first()))
    } else {
        match split_first(s.drop_first(), c) {
            Some((head, tail)) => Some((seq![s[0]] + head, tail)),
            None => None,
        }
    }
}

/// `split_first` finds a split exactly when `c` occurs, and then the head is
/// the longest prefix free of `c`.
pub proof fn lemma_split_first(s: Seq<char>, c: char)
    ensures
        split_first(s, c) is None <==> !s.contains(c),
        split_first(s, c) matches Some((head, tail)) ==> {
            &&& s == head + seq![c] + tail
            &&& !head.contains(c)
        },
    decreases s.len(),
{
    if s.len() == 0 {
    } else if s[0] == c {
        assert(s == Seq::<char>::empty() + seq![c] + s.drop_first());
        assert(s.contains(c));
    } else {
        let rest = s.drop_first();
        lemma_split_first(rest, c);
        match split_first(rest, c) {
            Some((head, tail)) => {
                assert(s =~= seq![s[0]] + rest);
                assert(s =~= (seq![s[0]] + head) + seq![c] + tail);
                let h = seq![s[0]] + head;
                assert forall|i: int| 0 <= i < h.len() implies h[i] != c by {
                    if i > 0 {
                        assert(head.contains(head[i - 1]));
                    }
                }
                assert(rest.contains(c));
                let k = choose|k: int| 0 <= k < rest.len() && rest[k] == c;
                assert(s[k + 1] == c);
            },
            None => {
                assert forall|i: int| 0 <= i < s.len() implies s[i] != c by {
                    if i > 0 {
                        assert(rest[i - 1] == s[i]);
                    }
                }
            },
        }
    }
}

/// A split at `i` is the one `split_first` finds when `c` stands at `i` and
/// nowhere before.
pub proof fn lemma_split_first_at(s: Seq<char>, c: char, i: int)
    requires
        0 <= i < s.len(),
        s[i] == c,
        forall|j: int| 0 <= j < i ==> s[j] != c,
    ensures
        split_first(s, c) == Some((s.take(i), s.skip(i + 1))),
    decreases i,
{
    if i == 0 {
        assert(s.take(0) =~= Seq::<char>::empty());
        assert(s.skip(1) =~= s.drop_first());
    } else {
        let rest = s.drop_first();
        lemma_split_first_at(rest, c, i - 1);
        assert(seq![s[0]] + rest.take(i - 1) =~= s.take(i));
        assert(rest.skip(i) =~= s.skip(i + 1));
    }
}

/// Whether two strings hold the same characters.
pub fn str_eq(a: &str, b: &str) -> (r: bool)
    ensures
        r == (a@ == b@),
{
    broadcast use vstd::string::group_string_axioms;

    let mut left = a.chars();
    let mut right = b.chars();
    let ghost mut seen: int = 0;
    loop
        invariant
            0 <= seen <= a@.len(),
            seen <= b@.len(),
            left.obeys_prophetic_iter_laws(),
            right.obeys_prophetic_iter_laws(),
            left.remaining() == a@.skip(seen),
            right.remaining() == b@.skip(seen),
            a@.take(seen) == b@.take(seen),
        decreases a@.len() - seen,
    {
        let x = left.next();
        let y = right.next();
        match (x, y) {
            (Some(p), Some(q)) => {
                if p != q {
                    assert(a@[seen] != b@[seen]);
                    return false;
                }
                proof {
                    assert(a@.skip(seen).drop_first() == a@.skip(seen + 1));
                    assert(b@.skip(seen).drop_first() == b@.skip(seen + 1));
                    assert(a@.take(seen + 1) == a@.take(seen).push(a@[seen]));
                    assert(b@.take(seen + 1) == b@.take(seen).push(b@[seen]));
                    seen = seen + 1;
                }
            },
            (None, None) => {
                assert(a@.take(seen) == a@);
                assert(b@.take(seen) == b@);
                return true;
            },
            _ => {
                assert(a@.len() != b@.len());
                return false;
            },
        }
    }
}

/// Splits `s` around the first occurrence of `delimiter`.
pub fn split_once<'a>(s: &'a str, delimiter: char) -> (r: Option<(&'a str, &'a str)>)
    ensures
        match r {
            Some((head, tail)) => split_first(s@, delimiter) == Some((head@, tail@)),
            None => split_first(s@, delimiter) is None,
        },
{
    broadcast use vstd::string::group_string_axioms;

    let n = s.unicode_len();
    let mut chars = s.chars();
    let mut i: usize = 0;
    loop
        invariant
            n == s@.len(),
            0 <= i <= n,
            chars.obeys_prophetic_iter_laws(),
            chars.remaining() == s@.skip(i as int),
            forall|j: int| 0 <= j < i ==> s@[j] != delimiter,
        decreases n - i,
    {
        match chars.next() {
            Some(c) => {
                if c == delimiter {
                    proof {
                        lemma_split_first_at(s@, delimiter, i as int);
                    }
                    let head = s.substring_char(0, i);
                    let tail = s.substring_char(i + 1, n);
                    assert(head@ == s@.take(i as int));
                    assert(tail@ == s@.skip(i + 1));
                    return Some((head, tail));
                }
                proof {
                    assert(s@.skip(i as int).drop_first() == s@.skip(i + 1));
                }
                i = i + 1;
            },
            None => {
                proof {
                    lemma_split_first(s@, delimiter);
                    assert(!s@.contains(delimiter));
                }
                return None;
            },
        }
    }
}

/// Whether `c` is one of the ten decimal digits.
pub open spec fn is_digit(c: char) -> bool {
    '0' <= c && c <= '9'
}

/// The number a decimal digit stands for.
pub open spec fn digit_value(c: char) -> nat {
    (c as u32 - '0' as u32) as nat
}

/// The number a string of decimal digits stands for; the empty string is zero.
pub open spec fn decimal_value(s: Seq<char>) -> nat
    decreases s.len(),
{
    if s.len() == 0 {
        0
    } else {
        10 * decimal_value(s.drop_last()) + digit_value(s.last())
    }
}

/// Whether every character of `s` is a decimal digit.
pub open spec fn all_digits(s: Seq<char>) -> bool {
    forall|i: int| 0 <= i < s.len() ==> is_digit(#[trigger] s[i])
}

/// `s` without the one `+` that may lead a count.
pub open spec fn unsigned_part(s: Seq<char>) -> Seq<char> {
    if s.len() > 0 && s[0] == '+' {
        s.drop_first()
    } else {
        s
    }
}

/// The count that `s` spells: an optional `+`, then one or more decimal
/// digits, whose value fits in a `usize`. Anything else spells no count.
pub open spec fn count_value(s: Seq<char>) -> Option<nat> {
    let digits = unsigned_part(s);
    if digits.len() > 0 && all_digits(digits) && decimal_value(digits) <= usize::MAX {
        Some(decimal_value(digits))
    } else {
        None
    }
}

/// What a grouped reference `key/count` names: the text before the first `/`
/// and the count that the text after it spells.
pub open spec fn group_reference(param: Seq<char>) -> Option<(Seq<char>, nat)> {
    match split_first(param, PARAM_DELIMITER) {
        Some((key, amount)) => match count_value(amount) {
            Some(n) => Some((key, n)),
            None => None,
        },
        None => None,
    }
}

/// A prefix of a digit string is worth no more than the whole.
pub proof fn lemma_decimal_prefix(s: Seq<char>, k: int)
    requires
        0 <= k <= s.len(),
    ensures
        decimal_value(s.take(k)) <= decimal_value(s),
    decreases s.len() - k,
{
    if k == s.len() {
        assert(s.take(k) =~= s);
    } else {
        lemma_decimal_prefix(s.drop_last(), k);
        assert(s.drop_last().take(k) =~= s.take(k));
    }
}

/// Reads a count as `count_value` defines it.
pub fn parse_count(s: &str) -> (r: Option<usize>)
    ensures
        match r {
            Some(n) => count_value(s@) == Some(n as nat),
            None => count_value(s@) is None,
        },
{
    broadcast use vstd::string::group_string_axioms;

    let mut chars = s.chars();
    let ghost digits = unsigned_part(s@);
    let ghost mut seen: int = 0;
    let mut value: usize = 0;
    let mut pending = chars.next();
    if pending == Some('+') {
        pending = chars.next();
        assert(s@.skip(0).drop_first() =~= digits);
    } else {
        assert(s@.skip(0) =~= digits);
        assert(pending is Some ==> digits.drop_first() =~= chars.remaining());
    }
    if pending.is_none() {
        return None;
    }
    assert(digits.take(0) =~= Seq::<char>::empty());
    loop
        invariant
            0 <= seen <= digits.len(),
            digits == unsigned_part(s@),
            chars.obeys_prophetic_iter_laws(),
            match pending {
                Some(c) => seen < digits.len() && digits[seen] == c && chars.remaining()
                    == digits.skip(seen + 1),
                None => seen == digits.len() && seen > 0,
            },
            all_digits(digits.take(seen)),
            value == decimal_value(digits.take(seen)),
        decreases digits.len() - seen,
    {
        match pending {
            None => {
                assert(digits.take(seen) =~= digits);
                return Some(value);
            },
            Some(c) => {
                if !('0' <= c && c <= '9') {
                    return None;
                }
                let d: usize = (c as u32 - '0' as u32) as usize;
                proof {
                    assert(digits.take(seen + 1).drop_last() =~= digits.take(seen));
                    assert(digits.take(seen + 1).last() == c);
                    lemma_decimal_prefix(digits, seen + 1);
                }
                let scaled = match value.checked_mul(10) {
                    Some(v) => v,
                    None => {
                        return None;
                    },
                };
                let next = match scaled.checked_add(d) {
                    Some(v) => v,
                    None => {
                        return None;
                    },
                };
                value = next;
                pending = chars.next();
                proof {
                    if seen + 1 < digits.len() {
                        assert(digits.skip(seen + 1).drop_first() =~= digits.skip(seen + 2));
                    }
                    seen = seen + 1;
                }
            },
        }
    }
}

/// Splits a definition `origin=alias` at its first `=`.
pub fn alias_to_pair<'a>(alias: &'a str) -> (r: Result<(&'a str, &'a str), Error>)
    ensures
        match r {
            Ok((origin, name)) => split_first(alias@, ALIAS_DELIMITER) == Some((origin@, name@)),
            Err(e) => split_first(alias@, ALIAS_DELIMITER) is None && e is InvalidAliasFormat,
        },
{
    match split_once(alias, ALIAS_DELIMITER) {
        Some(pair) => Ok(pair),
        None => Err(Error::InvalidAliasFormat),
    }
}

/// Reads a grouped reference `key/count`; `None` when `param` is not one.
pub fn param_to_pair<'a>(param: &'a str) -> (r: Option<(&'a str, usize)>)
    ensures
        match r {
            Some((key, amount)) => group_reference(param@) == Some((key@, amount as nat)),
            None => group_reference(param@) is None,
        },
{
    match split_once(param, PARAM_DELIMITER) {
        Some((key, amount)) => match parse_count(amount) {
            Some(n) => Some((key, n)),
            None => None,
        },
        None => None,
    }
}

/// Whether `c` occurs in `s`.
pub fn contains_char(s: &str, c: char) -> (r: bool)
    ensures
        r == s@.contains(c),
{
    broadcast use vstd::string::group_string_axioms;

    let mut chars = s.chars();
    let ghost mut seen: int = 0;
    loop
        invariant
            0 <= seen <= s@.len(),
            chars.obeys_prophetic_iter_laws(),
            chars.remaining() == s@.skip(seen),
            forall|j: int| 0 <= j < seen ==> s@[j] != c,
        decreases s@.len() - seen,
    {
        match chars.next() {
            Some(x) => {
                if x == c {
                    assert(s@[seen] == c);
                    return true;
                }
                proof {
                    assert(s@.skip(seen).drop_first() == s@.skip(seen + 1));
                    seen = seen + 1;
                }
            },
            None => {
                return false;
            },
        }
    }
}

/// The tokens of a command line as one line, a space between neighbours.
pub open spec fn joined(tokens: Seq<Seq<char>>) -> Seq<char>
    decreases tokens.len(),
{
    if tokens.len() == 0 {
        Seq::empty()
    } else if tokens.len() == 1 {
        tokens[0]
    } else {
        joined(tokens.drop_last()) + seq![' '] + tokens.last()
    }
}

/// Joins `tokens` into one line, a space between neighbours.
pub fn join(tokens: &[&str]) -> (line: String)
    ensures
        line@ == joined(tokens.deep_view()),
{
    let ghost all = tokens.deep_view();
    let mut line = String::new();
    let mut i: usize = 0;
    assert(all.take(0) =~= Seq::<Seq<char>>::empty());
    while i < tokens.len()
        invariant
            0 <= i <= tokens.len(),
            all == tokens.deep_view(),
            line@ == joined(all.take(i as int)),
        decreases tokens.len() - i,
    {
        let ghost before = line@;
        if i > 0 {
            proof {
                reveal_strlit(" ");
            }
            line.append(" ");
            assert(line@ =~= before + seq![' ']);
        }
        line.append(tokens[i]);
        proof {
            assert(all.take(i + 1).drop_last() =~= all.take(i as int));
            assert(all.take(i + 1).last() == tokens[i as int]@);
            if i == 0 {
                assert(line@ =~= tokens[i as int]@);
            }
        }
        i = i + 1;
    }
    assert(all.take(i as int) =~= all);
    line
}

} // verus!
