//! Text primitives shared by the parsers: finding a byte, cutting lines and
//! fields, and reading and writing unsigned decimal numbers the way Rust's
//! integer `FromStr` and `Display` do.

use vstd::prelude::*;

verus! {

pub open spec fn is_digit(c: u8) -> bool {
    48 <= c <= 57
}

/// Index of the first `c` in `b`, or `b.len()` when there is none.
pub open spec fn find_byte(b: Seq<u8>, c: u8) -> int
    decreases b.len(),
{
    if b.len() == 0 {
        0
    } else if b[0] == c {
        0
    } else {
        1 + find_byte(b.drop_first(), c)
    }
}

pub proof fn lemma_find_byte(b: Seq<u8>, c: u8)
    ensures
        0 <= find_byte(b, c) <= b.len(),
        find_byte(b, c) < b.len() ==> b[find_byte(b, c)] == c,
        forall|i: int| 0 <= i < find_byte(b, c) ==> b[i] != c,
    decreases b.len(),
{
    if b.len() > 0 && b[0] != c {
        lemma_find_byte(b.drop_first(), c);
        assert forall|i: int| 0 <= i < find_byte(b, c) implies b[i] != c by {
            if i > 0 {
                assert(b[i] == b.drop_first()[i - 1]);
            }
        }
    }
}

/// `find_byte` is pinned by the two facts that define it.
pub proof fn lemma_find_byte_at(b: Seq<u8>, c: u8, k: int)
    requires
        0 <= k <= b.len(),
        k < b.len() ==> b[k] == c,
        forall|i: int| 0 <= i < k ==> b[i] != c,
    ensures
        find_byte(b, c) == k,
{
    lemma_find_byte(b, c);
    let f = find_byte(b, c);
    if f < k {
        assert(b[f] == c);
    } else if k < f {
        assert(b[k] != c);
    }
}

/// A line without its `\r`, when it ended in `\r\n`.
pub open spec fn strip_cr(l: Seq<u8>) -> Seq<u8> {
    if l.len() > 0 && l.last() == 13 {
        l.drop_last()
    } else {
        l
    }
}

/// The lines of a text, as `str::lines` cuts them: at `\n` or `\r\n`, with
/// the final line ending optional.
pub open spec fn lines_of(b: Seq<u8>) -> Seq<Seq<u8>>
    decreases b.len(),
{
    if b.len() == 0 {
        seq![]
    } else {
        let e = find_byte(b, 10);
        if e >= b.len() {
            seq![b]
        } else {
            proof {
                lemma_find_byte(b, 10);
            }
            seq![strip_cr(b.take(e))] + lines_of(b.skip(e + 1))
        }
    }
}

/// The pieces of `b` between the separators `c`, as `str::split` cuts them:
/// always at least one piece, possibly empty.
pub open spec fn split_on(b: Seq<u8>, c: u8) -> Seq<Seq<u8>>
    decreases b.len(),
{
    let e = find_byte(b, c);
    if e >= b.len() {
        seq![b]
    } else {
        proof {
            lemma_find_byte(b, c);
        }
        seq![b.take(e)] + split_on(b.skip(e + 1), c)
    }
}

/// Whether every byte is an ASCII digit.
pub open spec fn all_digits(d: Seq<u8>) -> bool {
    forall|i: int| 0 <= i < d.len() ==> is_digit(#[trigger] d[i])
}

/// The value of a string of decimal digits.
pub open spec fn dec_value(d: Seq<u8>) -> nat
    decreases d.len(),
{
    if d.len() == 0 {
        0
    } else {
        dec_value(d.drop_last()) * 10 + (d.last() - 48) as nat
    }
}

/// An unsigned number as Rust's integer `FromStr` reads one: an optional `+`,
/// then one or more ASCII digits, and nothing else.
pub open spec fn parse_unsigned(b: Seq<u8>) -> Option<nat> {
    let d = if b.len() > 0 && b[0] == 43 {
        b.drop_first()
    } else {
        b
    };
    if d.len() > 0 && all_digits(d) {
        Some(dec_value(d))
    } else {
        None
    }
}

/// An unsigned number that must not exceed `max`: how `u8`..`u128` parse.
pub open spec fn parse_at_most(b: Seq<u8>, max: nat) -> Option<nat> {
    match parse_unsigned(b) {
        Some(n) => if n <= max {
            Some(n)
        } else {
            None
        },
        None => None,
    }
}

/// The decimal digits of `n`, most significant first, no leading zero.
pub open spec fn dec(n: nat) -> Seq<u8>
    decreases n,
{
    if n < 10 {
        seq![(n + 48) as u8]
    } else {
        dec(n / 10).push((n % 10 + 48) as u8)
    }
}

pub proof fn lemma_dec_value_prefix(d: Seq<u8>, j: int)
    requires
        0 <= j <= d.len(),
        all_digits(d),
    ensures
        dec_value(d.take(j)) <= dec_value(d),
    decreases d.len(),
{
    if j < d.len() {
        let e = d.drop_last();
        assert(e.take(j) =~= d.take(j));
        lemma_dec_value_prefix(e, j);
    } else {
        assert(d.take(j) =~= d);
    }
}

pub proof fn lemma_dec_round_trip(n: nat)
    ensures
        dec(n).len() > 0,
        all_digits(dec(n)),
        dec_value(dec(n)) == n,
        dec(n)[0] != 43,
        forall|i: int| 0 <= i < dec(n).len() ==> is_digit(#[trigger] dec(n)[i]),
    decreases n,
{
    if n >= 10 {
        lemma_dec_round_trip(n / 10);
        assert(dec(n).drop_last() =~= dec(n / 10));
        assert(dec(n).last() == (n % 10 + 48) as u8);
        assert(dec_value(dec(n)) == dec_value(dec(n / 10)) * 10 + n % 10);
        assert((n / 10) * 10 + n % 10 == n);
        assert(dec(n)[0] == dec(n / 10)[0]);
    } else {
        assert(dec(n).drop_last() =~= Seq::<u8>::empty());
        assert(dec_value(Seq::<u8>::empty()) == 0);
        assert(dec(n).last() == (n + 48) as u8);
    }
}

/// Reading back what `dec` wrote gives the number.
pub proof fn lemma_parse_dec(n: nat, max: nat)
    requires
        n <= max,
    ensures
        parse_at_most(dec(n), max) == Some(n),
{
    lemma_dec_round_trip(n);
}

/// Index of the first `c` in `b[lo..hi]`, or `hi` when there is none.
pub fn find_in(b: &[u8], lo: usize, hi: usize, c: u8) -> (k: usize)
    requires
        lo <= hi <= b@.len(),
    ensures
        k == lo + find_byte(b@.subrange(lo as int, hi as int), c),
        lo <= k <= hi,
{
    let mut k = lo;
    while k < hi && b[k] != c
        invariant
            lo <= k <= hi <= b@.len(),
            forall|i: int| lo <= i < k ==> b@[i] != c,
        decreases hi - k,
    {
        k += 1;
    }
    proof {
        let s = b@.subrange(lo as int, hi as int);
        lemma_find_byte_at(s, c, k - lo);
    }
    k
}

/// Reads `b[lo..hi]` as an unsigned number no greater than `u128::MAX`.
pub fn parse_u128_in(b: &[u8], lo: usize, hi: usize) -> (r: Option<u128>)
    requires
        lo <= hi <= b@.len(),
    ensures
        r == (match parse_at_most(b@.subrange(lo as int, hi as int), u128::MAX as nat) {
            Some(n) => Some(n as u128),
            None => None,
        }),
{
    let ghost s = b@.subrange(lo as int, hi as int);
    let mut start = lo;
    if lo < hi && b[lo] == 43 {
        start = lo + 1;
    }
    let ghost d = b@.subrange(start as int, hi as int);
    assert(d =~= (if s.len() > 0 && s[0] == 43 {
        s.drop_first()
    } else {
        s
    }));
    if start >= hi {
        return None;
    }
    let mut acc: u128 = 0;
    let mut k = start;
    while k < hi
        invariant
            start <= k <= hi <= b@.len(),
            d == b@.subrange(start as int, hi as int),
            s == b@.subrange(lo as int, hi as int),
            d == (if s.len() > 0 && s[0] == 43 {
                s.drop_first()
            } else {
                s
            }),
            d.len() > 0,
            acc == dec_value(d.take(k - start)),
            forall|i: int| start <= i < k ==> is_digit(#[trigger] b@[i]),
        decreases hi - k,
    {
        let c = b[k];
        if c < 48 || c > 57 {
            assert(d[k - start] == b@[k as int]);
            assert(!is_digit(d[k - start]));
            return None;
        }
        proof {
            assert(d.take(k - start + 1).drop_last() =~= d.take(k - start));
            assert(d[k - start] == b@[k as int]);
            assert(dec_value(d.take(k - start + 1)) == acc * 10 + (c - 48));
        }
        let digit = (c - 48) as u128;
        let next = match acc.checked_mul(10) {
            Some(m) => m.checked_add(digit),
            None => None,
        };
        match next {
            Some(v) => {
                acc = v;
            },
            None => {
                proof {
                    if all_digits(d) {
                        lemma_dec_value_prefix(d, k - start + 1);
                    }
                }
                return None;
            },
        }
        k += 1;
    }
    assert(d.take(k - start) =~= d);
    Some(acc)
}


/// Bytes as the characters they spell (each byte one character).
pub open spec fn chars_of(b: Seq<u8>) -> Seq<char> {
    b.map_values(|x: u8| x as char)
}

/// The one-character text of decimal digit `d`.
pub fn digit_str(d: u8) -> (s: &'static str)
    requires
        d < 10,
    ensures
        s@ == seq![(d + 48) as char],
{
    if d == 0 {
        proof {
            reveal_strlit("0");
        }
        "0"
    } else if d == 1 {
        proof {
            reveal_strlit("1");
        }
        "1"
    } else if d == 2 {
        proof {
            reveal_strlit("2");
        }
        "2"
    } else if d == 3 {
        proof {
            reveal_strlit("3");
        }
        "3"
    } else if d == 4 {
        proof {
            reveal_strlit("4");
        }
        "4"
    } else if d == 5 {
        proof {
            reveal_strlit("5");
        }
        "5"
    } else if d == 6 {
        proof {
            reveal_strlit("6");
        }
        "6"
    } else if d == 7 {
        proof {
            reveal_strlit("7");
        }
        "7"
    } else if d == 8 {
        proof {
            reveal_strlit("8");
        }
        "8"
    } else {
        proof {
            reveal_strlit("9");
        }
        "9"
    }
}

/// Appends the decimal digits of `n`, as `Display` writes an unsigned number.
pub fn append_dec(out: &mut String, n: u128)
    ensures
        final(out)@ == old(out)@ + chars_of(dec(n as nat)),
    decreases n,
{
    if n >= 10 {
        append_dec(out, n / 10);
    }
    let d = (n % 10) as u8;
    out.append(digit_str(d));
    proof {
        if n >= 10 {
            assert(chars_of(dec(n as nat)) =~= chars_of(dec((n / 10) as nat)).push((d + 48) as char));
        } else {
            assert(chars_of(dec(n as nat)) =~= seq![(d + 48) as char]);
        }
    }
}

} // verus!
