//! The order of texts: by the bytes that encode them, compared from the
//! front, which is how strings are ordered.

use vstd::prelude::*;
use vstd::string::*;
use vstd::utf8::{encode_utf8, encode_utf8_decode_utf8};
use crate::schedule::rank::{
    decided_at, key_less, lemma_key_less_irreflexive, lemma_key_less_total,
    lemma_key_less_transitive,
};

verus! {

/// Compares two string slices with `str`'s `==`: they are equal exactly when
/// they hold the same characters.
pub assume_specification[ <str as PartialEq>::eq ](a: &str, b: &str) -> (r: bool)
    ensures
        r == (a@ == b@),
;

/// Whether two string slices hold the same characters.
pub fn str_equal(a: &str, b: &str) -> (r: bool)
    ensures
        r == (a@ == b@),
{
    *a == *b
}

/// The bytes that encode a text, as integers.
pub open spec fn text_key(text: Seq<char>) -> Seq<int> {
    Seq::new(encode_utf8(text).len(), |i: int| encode_utf8(text)[i] as int)
}

/// `a` comes before `b`.
pub open spec fn text_less(a: Seq<char>, b: Seq<char>) -> bool {
    key_less(text_key(a), text_key(b))
}

/// No text comes before itself, and of two different texts one comes before
/// the other.
pub proof fn lemma_text_order_total(a: Seq<char>, b: Seq<char>)
    ensures
        text_less(a, b) || text_less(b, a) || a == b,
        !text_less(a, a),
{
    lemma_key_less_total(text_key(a), text_key(b));
    lemma_key_less_irreflexive(text_key(a));
    if text_key(a) == text_key(b) {
        let x = encode_utf8(a);
        let y = encode_utf8(b);
        assert(x.len() == text_key(a).len());
        assert(y.len() == text_key(b).len());
        assert forall|i: int| 0 <= i < x.len() implies x[i] == y[i] by {
            assert(text_key(a)[i] == x[i] as int);
            assert(text_key(b)[i] == y[i] as int);
        }
        assert(x =~= y);
        encode_utf8_decode_utf8(a);
        encode_utf8_decode_utf8(b);
    }
}

/// The order is transitive.
pub proof fn lemma_text_less_transitive(a: Seq<char>, b: Seq<char>, c: Seq<char>)
    requires
        text_less(a, b),
        text_less(b, c),
    ensures
        text_less(a, c),
{
    lemma_key_less_transitive(text_key(a), text_key(b), text_key(c));
}

/// Whether `a` comes before `b`.
pub fn text_is_less(a: &str, b: &str) -> (r: bool)
    ensures
        r == text_less(a@, b@),
{
    let x = a.as_bytes();
    let y = b.as_bytes();
    let ghost p = text_key(a@);
    let ghost q = text_key(b@);
    let mut i: usize = 0;
    while i < x.len() && i < y.len()
        invariant
            i <= x@.len(),
            i <= y@.len(),
            x@ == encode_utf8(a@),
            y@ == encode_utf8(b@),
            p == text_key(a@),
            q == text_key(b@),
            forall|j: int| 0 <= j < i ==> p[j] == q[j],
        decreases x@.len() - i,
    {
        if x[i] < y[i] {
            assert(decided_at(p, q, i as int));
            return true;
        }
        if x[i] > y[i] {
            assert forall|k: int| !decided_at(p, q, k) by {
                if decided_at(p, q, k) {
                    if k > i {
                        assert(p[i as int] == q[i as int]);
                    }
                }
            }
            return false;
        }
        i += 1;
    }
    if i < y.len() {
        assert(decided_at(p, q, i as int));
        true
    } else {
        assert forall|k: int| !decided_at(p, q, k) by {
            if decided_at(p, q, k) {
                if k < i {
                    assert(p[k] == q[k]);
                }
            }
        }
        false
    }
}

/// The character of a decimal digit.
pub open spec fn digit(d: int) -> char {
    if d == 0 {
        '0'
    } else if d == 1 {
        '1'
    } else if d == 2 {
        '2'
    } else if d == 3 {
        '3'
    } else if d == 4 {
        '4'
    } else if d == 5 {
        '5'
    } else if d == 6 {
        '6'
    } else if d == 7 {
        '7'
    } else if d == 8 {
        '8'
    } else {
        '9'
    }
}

/// A number in decimal digits, without leading zeros.
pub open spec fn decimal(n: nat) -> Seq<char>
    decreases n,
{
    if n < 10 {
        seq![digit(n as int)]
    } else {
        decimal(n / 10).push(digit((n % 10) as int))
    }
}

/// The text of one decimal digit.
fn digit_text(d: usize) -> (r: &'static str)
    requires
        d < 10,
    ensures
        r@ == seq![digit(d as int)],
{
    proof {
        reveal_strlit("0");
        reveal_strlit("1");
        reveal_strlit("2");
        reveal_strlit("3");
        reveal_strlit("4");
        reveal_strlit("5");
        reveal_strlit("6");
        reveal_strlit("7");
        reveal_strlit("8");
        reveal_strlit("9");
    }
    let r = if d == 0 {
        "0"
    } else if d == 1 {
        "1"
    } else if d == 2 {
        "2"
    } else if d == 3 {
        "3"
    } else if d == 4 {
        "4"
    } else if d == 5 {
        "5"
    } else if d == 6 {
        "6"
    } else if d == 7 {
        "7"
    } else if d == 8 {
        "8"
    } else {
        "9"
    };
    assert(r@ =~= seq![digit(d as int)]);
    r
}

/// A number in decimal digits, without leading zeros.
pub fn decimal_text(n: usize) -> (r: String)
    ensures
        r@ == decimal(n as nat),
    decreases n,
{
    if n < 10 {
        digit_text(n).to_owned()
    } else {
        let front = decimal_text(n / 10);
        let r = front.concat(digit_text(n % 10));
        assert(r@ =~= decimal((n / 10) as nat).push(digit((n % 10) as int)));
        r
    }
}

} // verus!
