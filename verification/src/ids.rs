//! Identifiers as a document carries them: numbers written in base 62.

use crate::text::{push_char, texts};
use vstd::prelude::*;

verus! {

/// The digit for a value below 62: `0` to `9`, then `A` to `Z`, then `a` to `z`.
pub open spec fn digit_char(d: int) -> char {
    if d < 10 {
        (d + 48) as char
    } else if d < 36 {
        (d + 55) as char
    } else {
        (d + 61) as char
    }
}

/// The number in base 62, most significant digit first and without leading
/// zeros: zero is the empty string.
pub open spec fn base62(n: nat) -> Seq<char>
    decreases n,
{
    if n == 0 {
        Seq::empty()
    } else {
        base62(n / 62).push(digit_char((n % 62) as int))
    }
}

/// The rendered forms of a list of identifiers.
pub open spec fn base62_all(ids: Seq<u64>) -> Seq<Seq<char>> {
    Seq::new(ids.len(), |i: int| base62(ids[i] as nat))
}

/// Different identifiers have different renderings.
pub proof fn lemma_base62_injective(a: nat, b: nat)
    requires
        base62(a) == base62(b),
    ensures
        a == b,
    decreases a,
{
    if a == 0 || b == 0 {
        if a > 0 {
            assert(base62(a).len() > 0);
        }
        if b > 0 {
            assert(base62(b).len() > 0);
        }
    } else {
        let x = base62(a / 62);
        let y = base62(b / 62);
        let c = digit_char((a % 62) as int);
        let d = digit_char((b % 62) as int);
        assert(x.push(c).last() == c);
        assert(y.push(d).last() == d);
        assert(x.push(c).drop_last() =~= x);
        assert(y.push(d).drop_last() =~= y);
        assert(a % 62 == b % 62);
        lemma_base62_injective(a / 62, b / 62);
    }
}

fn digit(d: u8) -> (c: char)
    requires
        d < 62,
    ensures
        c == digit_char(d as int),
{
    if d < 10 {
        (d + 48) as char
    } else if d < 36 {
        (d + 55) as char
    } else {
        (d + 61) as char
    }
}

/// The identifier as a string.
pub fn render_id(id: u64) -> (r: String)
    ensures
        r@ == base62(id as nat),
{
    let mut digits: Vec<u8> = Vec::new();
    let mut n: u64 = id;
    let ghost mut tail: Seq<char> = Seq::empty();
    proof {
        assert(base62(id as nat) + tail =~= base62(id as nat));
    }
    while n > 0
        invariant
            base62(id as nat) == base62(n as nat) + tail,
            digits@.len() == tail.len(),
            forall|k: int| 0 <= k < digits@.len() ==> #[trigger] digits@[k] < 62,
            forall|k: int|
                0 <= k < tail.len() ==> #[trigger] tail[k] == digit_char(
                    digits@[tail.len() - 1 - k] as int,
                ),
        decreases n,
    {
        let d: u8 = (n % 62) as u8;
        let ghost earlier = tail;
        let ghost c = digit_char(d as int);
        proof {
            assert(base62(n as nat) == base62((n / 62) as nat).push(c));
            assert(base62((n / 62) as nat).push(c) + tail =~= base62((n / 62) as nat) + (seq![c]
                + tail));
            tail = seq![c] + tail;
        }
        digits.push(d);
        n = n / 62;
        proof {
            assert forall|k: int| 0 <= k < tail.len() implies #[trigger] tail[k] == digit_char(
                digits@[tail.len() - 1 - k] as int,
            ) by {
                if k > 0 {
                    assert(tail[k] == earlier[k - 1]);
                }
            }
        }
    }
    proof {
        assert(base62(0) + tail =~= tail);
    }
    let mut r = String::new();
    let mut k: usize = digits.len();
    proof {
        assert(tail.take(0) =~= Seq::<char>::empty());
    }
    while k > 0
        invariant
            k <= digits@.len(),
            digits@.len() == tail.len(),
            r@ == tail.take(tail.len() - k),
            forall|j: int| 0 <= j < digits@.len() ==> #[trigger] digits@[j] < 62,
            forall|j: int|
                0 <= j < tail.len() ==> #[trigger] tail[j] == digit_char(
                    digits@[tail.len() - 1 - j] as int,
                ),
        decreases k,
    {
        k -= 1;
        let c = digit(digits[k]);
        proof {
            let at = tail.len() - 1 - k;
            assert(tail[at] == c);
            assert(tail.take(at).push(c) =~= tail.take(at + 1));
        }
        push_char(&mut r, c);
    }
    proof {
        assert(tail.take(tail.len() as int) =~= tail);
    }
    r
}

/// The identifiers as strings, in the list's order.
pub fn render_ids(ids: &Vec<u64>) -> (r: Vec<String>)
    ensures
        texts(r@) == base62_all(ids@),
{
    let mut r: Vec<String> = Vec::new();
    let mut i: usize = 0;
    while i < ids.len()
        invariant
            i <= ids.len(),
            r@.len() == i,
            forall|k: int| 0 <= k < i ==> r@[k]@ == base62(ids@[k] as nat),
        decreases ids.len() - i,
    {
        r.push(render_id(ids[i]));
        i += 1;
    }
    proof {
        assert(texts(r@) =~= base62_all(ids@));
    }
    r
}

} // verus!
