//! Property names: comparison with and without ASCII case folding, and the
//! names that stand for array indices.

use vstd::prelude::*;
use vstd::std_specs::iter::IteratorSpec;

verus! {

broadcast use vstd::string::group_string_axioms;

/// The lower-case form of an ASCII capital; every other character is itself.
pub open spec fn fold_char(c: char) -> char {
    if 'A' <= c && c <= 'Z' {
        ((c as u8) + 32) as char
    } else {
        c
    }
}

/// Whether two names are the same once ASCII capitals are folded.
pub open spec fn fold_eq(a: Seq<char>, b: Seq<char>) -> bool {
    &&& a.len() == b.len()
    &&& forall|i: int| 0 <= i < a.len() ==> fold_char(#[trigger] a[i]) == fold_char(b[i])
}

/// Whether a stored key answers to a probe name under the given mode.
pub open spec fn name_matches(key: Seq<char>, name: Seq<char>, case_sensitive: bool) -> bool {
    if case_sensitive {
        key == name
    } else {
        fold_eq(key, name)
    }
}

/// Folds a character.
pub fn fold(c: char) -> (r: char)
    ensures
        r == fold_char(c),
{
    if 'A' <= c && c <= 'Z' {
        ((c as u8) + 32) as char
    } else {
        c
    }
}

/// Whether a stored key answers to a probe name under the given mode.
pub fn names_match(key: &str, name: &str, case_sensitive: bool) -> (r: bool)
    ensures
        r == name_matches(key@, name@, case_sensitive),
{
    let mut ka = key.chars();
    let mut na = name.chars();
    let ghost mut i: int = 0;
    loop
        invariant
            0 <= i <= key@.len(),
            i <= name@.len(),
            ka.remaining() == key@.skip(i),
            na.remaining() == name@.skip(i),
            forall|j: int| 0 <= j < i ==> (if case_sensitive { key@[j] == name@[j] } else { fold_char(key@[j]) == fold_char(name@[j]) }),
        decreases key@.len() - i,
    {
        let a = ka.next();
        let b = na.next();
        match (a, b) {
            (Some(x), Some(y)) => {
                let same = if case_sensitive { x == y } else { fold(x) == fold(y) };
                if !same {
                    return false;
                }
                proof { i = i + 1; }
            },
            (None, None) => {
                assert(key@.skip(i).len() == 0 && name@.skip(i).len() == 0);
                assert(case_sensitive ==> key@ =~= name@);
                return true;
            },
            _ => {
                return false;
            },
        }
    }
}

/// The views of a sequence of names, one for one.
pub open spec fn names_view(names: Seq<String>) -> Seq<Seq<char>> {
    Seq::new(names.len(), |i: int| names[i]@)
}

/// Whether a character is one of the ten ASCII digits.
pub open spec fn is_digit(c: char) -> bool {
    '0' <= c && c <= '9'
}

/// The number that an ASCII digit stands for.
pub open spec fn digit_value(c: char) -> nat {
    (c as int - '0' as int) as nat
}

/// The ASCII digit that stands for a number below ten.
pub open spec fn digit_char(d: nat) -> char {
    (d + 48) as char
}

/// Every character is a digit.
pub open spec fn all_digits(s: Seq<char>) -> bool {
    forall|i: int| 0 <= i < s.len() ==> is_digit(#[trigger] s[i])
}

/// The number written by a string of digits, most significant first.
pub open spec fn decimal_value(s: Seq<char>) -> nat
    decreases s.len(),
{
    if s.len() == 0 {
        0
    } else {
        decimal_value(s.drop_last()) * 10 + digit_value(s.last())
    }
}

/// The shortest string of digits that writes a number.
pub open spec fn decimal_digits(n: nat) -> Seq<char>
    decreases n,
{
    if n < 10 {
        seq![digit_char(n)]
    } else {
        decimal_digits(n / 10).push(digit_char(n % 10))
    }
}

/// The array index that a name denotes, if it denotes one: one or more
/// digits and nothing else, whose value fits the machine word.
pub open spec fn parsed_index(name: Seq<char>) -> Option<usize> {
    if name.len() > 0 && all_digits(name) && decimal_value(name) <= usize::MAX {
        Some(decimal_value(name) as usize)
    } else {
        None
    }
}

/// The name under which an array index is kept in a property table.
pub open spec fn index_key(index: usize) -> Seq<char> {
    decimal_digits(index as nat)
}

/// A string of digits writes at least as much as any of its prefixes.
pub proof fn lemma_decimal_value_prefix(s: Seq<char>, k: int)
    requires
        0 <= k <= s.len(),
    ensures
        decimal_value(s.take(k)) <= decimal_value(s),
    decreases s.len(),
{
    if k == s.len() {
        assert(s.take(k) =~= s);
    } else {
        assert(s.drop_last().take(k) =~= s.take(k));
        lemma_decimal_value_prefix(s.drop_last(), k);
    }
}

/// The digits written for a number are digits, and read back as that number.
pub proof fn lemma_decimal_digits(n: nat)
    ensures
        decimal_digits(n).len() > 0,
        all_digits(decimal_digits(n)),
        decimal_value(decimal_digits(n)) == n,
    decreases n,
{
    if n < 10 {
        let s = decimal_digits(n);
        assert(s.drop_last() =~= Seq::<char>::empty());
        assert(decimal_value(s.drop_last()) == 0);
    } else {
        lemma_decimal_digits(n / 10);
        let s = decimal_digits(n);
        assert(s.drop_last() =~= decimal_digits(n / 10));
    }
}

/// The name of an index denotes that index.
pub proof fn lemma_index_key_parses(index: usize)
    ensures
        parsed_index(index_key(index)) == Some(index),
{
    lemma_decimal_digits(index as nat);
}

/// Different indices have different names.
pub proof fn lemma_index_key_injective(a: usize, b: usize)
    requires
        index_key(a) == index_key(b),
    ensures
        a == b,
{
    lemma_index_key_parses(a);
    lemma_index_key_parses(b);
}

/// Only the name of an index itself matches it, with or without folding:
/// folding leaves digits alone and makes no digit.
pub proof fn lemma_index_key_rigid(key: Seq<char>, index: usize, case_sensitive: bool)
    ensures
        name_matches(key, index_key(index), case_sensitive) <==> key == index_key(index),
{
    lemma_decimal_digits(index as nat);
    let name = index_key(index);
    if !case_sensitive {
        if fold_eq(key, name) {
            assert forall|i: int| 0 <= i < key.len() implies key[i] == name[i] by {
                assert(fold_char(key[i]) == fold_char(name[i]));
                assert(is_digit(name[i]));
            }
            assert(key =~= name);
        }
    }
}

/// The name of an index answers to no name but itself, with or without
/// folding.
pub proof fn lemma_index_key_answers_itself(index: usize, name: Seq<char>, case_sensitive: bool)
    ensures
        name_matches(index_key(index), name, case_sensitive) <==> name == index_key(index),
{
    let key = index_key(index);
    lemma_index_key_rigid(name, index, case_sensitive);
    if !case_sensitive {
        if fold_eq(key, name) {
            assert forall|i: int| 0 <= i < name.len() implies fold_char(#[trigger] name[i]) == fold_char(
                key[i],
            ) by {
                assert(fold_char(key[i]) == fold_char(name[i]));
            }
            assert(fold_eq(name, key));
        }
        if name == key {
            assert(fold_eq(key, name));
        }
    }
}

/// Reads a name as an array index.
pub fn parse_index(name: &str) -> (r: Option<usize>)
    ensures
        r == parsed_index(name@),
{
    let mut it = name.chars();
    let ghost digits = name@;
    let mut cur = it.next();
    let mut acc: usize = 0;
    let ghost mut k: int = 0;
    assert(digits =~= name@.skip(0));
    if cur.is_none() {
        return None;
    }
    loop
        invariant
            digits == name@,
            0 <= k <= digits.len(),
            cur is Some ==> k < digits.len() && cur == Some(digits[k]),
            cur is None ==> k == digits.len(),
            digits.len() > 0,
            it.remaining() == digits.skip(if cur is Some { k + 1 } else { k }),
            all_digits(digits.take(k)),
            acc == decimal_value(digits.take(k)),
        decreases digits.len() - k,
    {
        assert(forall|j: int| 0 <= j < k ==> digits[j] == #[trigger] digits.take(k)[j]);
        match cur {
            None => {
                assert(digits.take(k) =~= digits);
                return Some(acc);
            },
            Some(c) => {
                if !('0' <= c && c <= '9') {
                    assert(!is_digit(digits[k]));
                    return None;
                }
                let d: usize = (c as u8 - 48) as usize;
                proof {
                    assert(digits.take(k + 1).drop_last() =~= digits.take(k));
                    assert(digits.take(k + 1).last() == c);
                    lemma_decimal_value_prefix(digits, k + 1);
                }
                let next = match acc.checked_mul(10) {
                    Some(m) => m.checked_add(d),
                    None => None,
                };
                match next {
                    Some(v) => {
                        acc = v;
                    },
                    None => {
                        return None;
                    },
                }
                proof {
                    k = k + 1;
                }
                cur = it.next();
            },
        }
    }
}

fn digit_name(d: usize) -> (r: &'static str)
    requires
        d < 10,
    ensures
        r@ == seq![digit_char(d as nat)],
{
    proof {
        reveal_strlit("0");
        reveal_strlit("1");
        reveal_strlit("2");
        reveal_strlit("3");
        reveal_strlit("4");
        reveal_strlit("5");
        reveal_strlit("6");
        reveal_strlit("7");
        reveal_strlit("8");
        reveal_strlit("9");
    }
    let r = if d == 0 {
        "0"
    } else if d == 1 {
        "1"
    } else if d == 2 {
        "2"
    } else if d == 3 {
        "3"
    } else if d == 4 {
        "4"
    } else if d == 5 {
        "5"
    } else if d == 6 {
        "6"
    } else if d == 7 {
        "7"
    } else if d == 8 {
        "8"
    } else {
        "9"
    };
    assert(r@ =~= seq![digit_char(d as nat)]);
    r
}

fn push_digits(out: &mut String, n: usize)
    ensures
        final(out)@ == old(out)@ + decimal_digits(n as nat),
    decreases n,
{
    if n >= 10 {
        push_digits(out, n / 10);
    }
    out.append(digit_name(n % 10));
    assert(out@ =~= old(out)@ + decimal_digits(n as nat));
}

/// Writes an array index as the name it is kept under.
pub fn index_name(index: usize) -> (r: String)
    ensures
        r@ == index_key(index),
{
    let mut out = String::new();
    push_digits(&mut out, index);
    assert(out@ =~= index_key(index));
    out
}

} // verus!
