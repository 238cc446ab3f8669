//! Character-level text helpers: decimal digits, rendering an unsigned
//! integer as its decimal string, and substring containment.

use vstd::prelude::*;
use vstd::string::*;

verus! {

/// A decimal digit character, `'0'` through `'9'`.
pub open spec fn is_digit(c: char) -> bool {
    '0' <= c && c <= '9'
}

/// The numeric value of a digit character.
pub open spec fn digit_val(c: char) -> nat {
    ((c as int) - ('0' as int)) as nat
}

/// Every character of `s` is a decimal digit.
pub open spec fn all_digits(s: Seq<char>) -> bool {
    forall|i: int| 0 <= i < s.len() ==> is_digit(s[i])
}

/// The value of a digit string read as a base-10 number.
pub open spec fn digits_val(s: Seq<char>) -> nat
    decreases s.len(),
{
    if s.len() == 0 {
        0
    } else {
        digits_val(s.drop_last()) * 10 + digit_val(s.last())
    }
}

/// The digit character for a value below ten.
pub open spec fn digit_char(d: nat) -> char {
    if d == 0 {
        '0'
    } else if d == 1 {
        '1'
    } else if d == 2 {
        '2'
    } else if d == 3 {
        '3'
    } else if d == 4 {
        '4'
    } else if d == 5 {
        '5'
    } else if d == 6 {
        '6'
    } else if d == 7 {
        '7'
    } else if d == 8 {
        '8'
    } else {
        '9'
    }
}

/// The decimal string of `n`, without sign or leading zeros
/// (except that zero itself is written `"0"`).
pub open spec fn dec_str(n: nat) -> Seq<char>
    decreases n,
{
    if n < 10 {
        seq![digit_char(n)]
    } else {
        dec_str(n / 10) + seq![digit_char(n % 10)]
    }
}

/// The decimal string of `n` is a non-empty digit string whose value is `n`.
pub proof fn lemma_dec_str_digits(n: nat)
    ensures
        dec_str(n).len() >= 1,
        all_digits(dec_str(n)),
        digits_val(dec_str(n)) == n,
    decreases n,
{
    if n < 10 {
        let s = dec_str(n);
        assert(s =~= seq![digit_char(n)]);
        assert(s.drop_last() =~= Seq::<char>::empty());
        assert(digits_val(Seq::<char>::empty()) == 0);
        assert(digits_val(s) == digit_val(digit_char(n)));
    } else {
        lemma_dec_str_digits(n / 10);
        let s = dec_str(n);
        assert(s =~= dec_str(n / 10) + seq![digit_char(n % 10)]);
        assert(s.drop_last() =~= dec_str(n / 10));
        assert(s.last() == digit_char(n % 10));
        assert(digits_val(s) == (n / 10) * 10 + (n % 10));
        assert((n / 10) * 10 + (n % 10) == n) by (nonlinear_arith);
    }
}

/// The value of a digit string never shrinks when the string is extended:
/// a proper prefix is worth at most the whole.
pub proof fn lemma_digits_val_prefix(s: Seq<char>, i: int)
    requires
        0 <= i <= s.len(),
    ensures
        digits_val(s.subrange(0, i)) <= digits_val(s),
    decreases s.len() - i,
{
    if i == s.len() {
        assert(s.subrange(0, i) =~= s);
    } else {
        lemma_digits_val_prefix(s, i + 1);
        let shorter = s.subrange(0, i);
        let longer = s.subrange(0, i + 1);
        assert(longer.drop_last() =~= shorter);
        assert(digits_val(longer) == digits_val(shorter) * 10 + digit_val(longer.last()));
        assert(digits_val(shorter) <= digits_val(shorter) * 10) by (nonlinear_arith);
    }
}

/// The one-character string for a digit value.
fn digit_str(d: u32) -> (r: &'static str)
    requires
        d < 10,
    ensures
        r@ == seq![digit_char(d as nat)],
{
    if d == 0 {
        proof {
            reveal_strlit("0");
            assert("0"@ =~= seq![digit_char(d as nat)]);
        }
        "0"
    } else if d == 1 {
        proof {
            reveal_strlit("1");
            assert("1"@ =~= seq![digit_char(d as nat)]);
        }
        "1"
    } else if d == 2 {
        proof {
            reveal_strlit("2");
            assert("2"@ =~= seq![digit_char(d as nat)]);
        }
        "2"
    } else if d == 3 {
        proof {
            reveal_strlit("3");
            assert("3"@ =~= seq![digit_char(d as nat)]);
        }
        "3"
    } else if d == 4 {
        proof {
            reveal_strlit("4");
            assert("4"@ =~= seq![digit_char(d as nat)]);
        }
        "4"
    } else if d == 5 {
        proof {
            reveal_strlit("5");
            assert("5"@ =~= seq![digit_char(d as nat)]);
        }
        "5"
    } else if d == 6 {
        proof {
            reveal_strlit("6");
            assert("6"@ =~= seq![digit_char(d as nat)]);
        }
        "6"
    } else if d == 7 {
        proof {
            reveal_strlit("7");
            assert("7"@ =~= seq![digit_char(d as nat)]);
        }
        "7"
    } else if d == 8 {
        proof {
            reveal_strlit("8");
            assert("8"@ =~= seq![digit_char(d as nat)]);
        }
        "8"
    } else {
        proof {
            reveal_strlit("9");
            assert("9"@ =~= seq![digit_char(d as nat)]);
        }
        "9"
    }
}

/// Renders `n` as its decimal string.
pub fn u32_to_string(n: u32) -> (s: String)
    ensures
        s@ == dec_str(n as nat),
    decreases n,
{
    if n < 10 {
        let s = String::from_str(digit_str(n));
        proof {
            assert(s@ =~= dec_str(n as nat));
        }
        s
    } else {
        let mut s = u32_to_string(n / 10);
        s.append(digit_str(n % 10));
        proof {
            assert((n / 10) as nat == (n as nat) / 10);
            assert((n % 10) as nat == (n as nat) % 10);
            assert(s@ =~= dec_str(n as nat));
        }
        s
    }
}

/// `k` occurs in `t` starting at position `i`.
pub open spec fn contains_at(t: Seq<char>, k: Seq<char>, i: int) -> bool {
    0 <= i && i + k.len() <= t.len() && t.subrange(i, i + k.len() as int) == k
}

/// `k` occurs somewhere in `t` (exact, case-sensitive containment).
pub open spec fn contains_seq(t: Seq<char>, k: Seq<char>) -> bool {
    exists|i: int| contains_at(t, k, i)
}

/// `keyword` occurs in `title` starting exactly at position `start`.
fn match_at(title: &str, keyword: &str, start: usize) -> (r: bool)
    requires
        start + keyword@.len() <= title@.len(),
    ensures
        r == contains_at(title@, keyword@, start as int),
{
    let tlen = title.unicode_len();
    let klen = keyword.unicode_len();
    let mut j: usize = 0;
    while j < klen
        invariant
            tlen == title@.len(),
            klen == keyword@.len(),
            start + klen <= tlen,
            j <= klen,
            forall|q: int| 0 <= q < j ==> title@[start + q] == keyword@[q],
        decreases klen - j,
    {
        if title.get_char(start + j) != keyword.get_char(j) {
            proof {
                assert(!contains_at(title@, keyword@, start as int)) by {
                    if title@.subrange(start as int, start + klen as int) == keyword@ {
                        assert(title@.subrange(start as int, start + klen as int)[j as int]
                            == title@[start + j]);
                    }
                }
            }
            return false;
        }
        j += 1;
    }
    proof {
        assert(title@.subrange(start as int, start + klen as int) =~= keyword@);
    }
    true
}

/// Whether `title` contains `keyword` as a (case-sensitive) substring.
pub fn title_contains(title: &str, keyword: &str) -> (r: bool)
    ensures
        r == contains_seq(title@, keyword@),
{
    let tlen = title.unicode_len();
    let klen = keyword.unicode_len();
    if klen == 0 {
        proof {
            assert(title@.subrange(0, 0) =~= keyword@);
            assert(contains_at(title@, keyword@, 0));
        }
        return true;
    }
    if klen > tlen {
        proof {
            assert(forall|i: int| !contains_at(title@, keyword@, i));
        }
        return false;
    }
    let mut i: usize = 0;
    while i <= tlen - klen
        invariant
            tlen == title@.len(),
            klen == keyword@.len(),
            1 <= klen <= tlen,
            i <= tlen - klen + 1,
            forall|p: int| 0 <= p < i ==> !contains_at(title@, keyword@, p),
        decreases tlen - klen + 1 - i,
    {
        if match_at(title, keyword, i) {
            return true;
        }
        i += 1;
    }
    proof {
        assert forall|p: int| !contains_at(title@, keyword@, p) by {
            if 0 <= p < i as int {
            } else if p >= i as int {
                assert(p + keyword@.len() > title@.len());
            }
        }
    }
    false
}

} // verus!
