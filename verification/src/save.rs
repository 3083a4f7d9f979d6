//! The save format: a strict `key=value` text, one key per line, every key
//! present exactly once. The engine stays clockless; the wall-clock absence a
//! save records is settled through the same simulation (`State::advance`).

use vstd::prelude::*;
use vstd::string::{StrSliceExecFns, StringExecFns, StringSliceAdditionalSpecFns};
use vstd::utf8::{encode_utf8, is_ascii_chars, is_ascii_chars_encode_utf8};

use crate::engine::params::{saturating_mul_u64, Params, MICRO, SLOTS, SPECIES};
use crate::engine::state::{
    advance_fits, cost_sum, kinds_in_range, slots_distinct, spec_advance, Reef, State,
    ANCHOR_POS_MAX,
};
use crate::text::{
    all_digits, append_dec, chars_of, lemma_dec_round_trip, lemma_find_byte_at, lemma_parse_dec,
    dec, find_byte, find_in, lemma_find_byte, lines_of, parse_at_most, parse_u128_in,
    split_on, strip_cr,
};

verus! {

/// The save format's version; a file of any other version is not ours.
pub const VERSION: u32 = 4;

/// Sanity bound on parsed populations: legitimate play tops out far below it,
/// so a larger count is a corrupt (hand-edited) file.
pub const MAX_POPULATION: u32 = 100_000;

/// Number of keys a save holds.
pub const KEYS: usize = 12;

/// The bytes of save key `k`, in the order the file writes them.
pub open spec fn key_bytes(k: int) -> Seq<u8> {
    if k == 0 {
        seq![118u8]
    } else if k == 1 {
        seq![115u8, 97, 118, 101, 100, 95, 97, 116]
    } else if k == 2 {
        seq![112u8, 111, 112, 117, 108, 97, 116, 105, 111, 110]
    } else if k == 3 {
        seq![112u8, 111, 111, 108]
    } else if k == 4 {
        seq![110u8, 117, 116, 114, 105, 101, 110, 116]
    } else if k == 5 {
        seq![99u8, 111, 108, 108, 101, 99, 116, 97, 98, 108, 101]
    } else if k == 6 {
        seq![99u8, 117, 114, 114, 101, 110, 99, 121]
    } else if k == 7 {
        seq![115u8, 99, 111, 114, 101]
    } else if k == 8 {
        seq![114u8, 111, 99, 107, 115]
    } else if k == 9 {
        seq![97u8, 103, 101]
    } else if k == 10 {
        seq![115u8, 116, 97, 114, 116, 101, 100]
    } else {
        seq![97u8, 110, 99, 104, 111, 114]
    }
}

/// Which key `l` names, or -1 when it names none.
pub open spec fn key_index(l: Seq<u8>) -> int {
    if l == key_bytes(0) {
        0
    } else if l == key_bytes(1) {
        1
    } else if l == key_bytes(2) {
        2
    } else if l == key_bytes(3) {
        3
    } else if l == key_bytes(4) {
        4
    } else if l == key_bytes(5) {
        5
    } else if l == key_bytes(6) {
        6
    } else if l == key_bytes(7) {
        7
    } else if l == key_bytes(8) {
        8
    } else if l == key_bytes(9) {
        9
    } else if l == key_bytes(10) {
        10
    } else if l == key_bytes(11) {
        11
    } else {
        -1
    }
}

/// A line's key (before its first `=`) and value (after it).
pub open spec fn has_eq(l: Seq<u8>) -> bool {
    find_byte(l, 61) < l.len()
}

pub open spec fn line_key(l: Seq<u8>) -> Seq<u8> {
    l.take(find_byte(l, 61))
}

pub open spec fn line_value(l: Seq<u8>) -> Seq<u8> {
    l.skip(find_byte(l, 61) + 1)
}

/// Which key a line sets, or -1 when it is not a `key=value` line of ours.
pub open spec fn line_key_index(l: Seq<u8>) -> int {
    if has_eq(l) {
        key_index(line_key(l))
    } else {
        -1
    }
}

/// How many of the lines set key `k`.
pub open spec fn key_count(ls: Seq<Seq<u8>>, k: int) -> nat
    decreases ls.len(),
{
    if ls.len() == 0 {
        0
    } else {
        key_count(ls.drop_last(), k) + if line_key_index(ls.last()) == k {
            1nat
        } else {
            0
        }
    }
}

/// The first line that sets key `k`.
pub open spec fn key_line(ls: Seq<Seq<u8>>, k: int) -> int
    decreases ls.len(),
{
    if ls.len() == 0 {
        0
    } else if key_count(ls.drop_last(), k) > 0 {
        key_line(ls.drop_last(), k)
    } else {
        ls.len() - 1
    }
}

/// The value written under key `k`.
pub open spec fn value_of(ls: Seq<Seq<u8>>, k: int) -> Seq<u8> {
    line_value(ls[key_line(ls, k)])
}

/// Four comma-separated numbers, each at most `max`, and nothing more.
pub open spec fn denotes_four(v: Seq<u8>, max: nat, xs: Seq<int>) -> bool {
    let ps = split_on(v, 44);
    &&& ps.len() == SPECIES
    &&& xs.len() == SPECIES
    &&& forall|i: int| 0 <= i < SPECIES ==> parse_at_most(#[trigger] ps[i], max) == Some(xs[i] as nat)
}

/// One `kind:slot` piece: a kind the parameters know and an in-range slot.
pub open spec fn decode_reef(piece: Seq<u8>, nkinds: int) -> Option<Reef> {
    let c = find_byte(piece, 58);
    if c >= piece.len() {
        None
    } else {
        match (parse_at_most(piece.take(c), u128::MAX as nat), parse_at_most(piece.skip(c + 1), u128::MAX as nat)) {
            (Some(k), Some(sl)) => if k < nkinds && sl < SLOTS {
                Some(Reef { kind: k as usize, slot: sl as u8 })
            } else {
                None
            },
            _ => None,
        }
    }
}

pub open spec fn decode_reef_list(pieces: Seq<Seq<u8>>, nkinds: int) -> Option<Seq<Reef>>
    decreases pieces.len(),
{
    if pieces.len() == 0 {
        Some(seq![])
    } else {
        match (decode_reef_list(pieces.drop_last(), nkinds), decode_reef(pieces.last(), nkinds)) {
            (Some(rs), Some(r)) => Some(rs.push(r)),
            _ => None,
        }
    }
}

/// `kind:slot,kind:slot,...`, an empty value being an empty list; no slot
/// twice.
pub open spec fn decode_reefs(v: Seq<u8>, nkinds: int) -> Option<Seq<Reef>> {
    if v.len() == 0 {
        Some(seq![])
    } else {
        match decode_reef_list(split_on(v, 44), nkinds) {
            Some(rs) => if slots_distinct(rs) {
                Some(rs)
            } else {
                None
            },
            None => None,
        }
    }
}

/// The value written under key `k` is the corresponding field of `(s, at)`.
pub open spec fn denotes(k: int, v: Seq<u8>, s: State, at: u64, nkinds: int) -> bool {
    if k == 0 {
        parse_at_most(v, u32::MAX as nat) == Some(VERSION as nat)
    } else if k == 1 {
        parse_at_most(v, u64::MAX as nat) == Some(at as nat)
    } else if k == 2 {
        denotes_four(v, u32::MAX as nat, seq![s.population[0] as int, s.population[1] as int, s.population[2] as int, s.population[3] as int])
    } else if k == 3 {
        denotes_four(v, u128::MAX as nat, seq![s.pool[0] as int, s.pool[1] as int, s.pool[2] as int, s.pool[3] as int])
    } else if k == 4 {
        parse_at_most(v, u128::MAX as nat) == Some(s.nutrient as nat)
    } else if k == 5 {
        parse_at_most(v, u128::MAX as nat) == Some(s.collectable as nat)
    } else if k == 6 {
        parse_at_most(v, u128::MAX as nat) == Some(s.currency as nat)
    } else if k == 7 {
        parse_at_most(v, u128::MAX as nat) == Some(s.score as nat)
    } else if k == 8 {
        decode_reefs(v, nkinds) == Some(s.reefs@)
    } else if k == 9 {
        parse_at_most(v, u64::MAX as nat) == Some(s.tick_count as nat)
    } else if k == 10 {
        (v == seq![48u8] && !s.started) || (v == seq![49u8] && s.started)
    } else {
        parse_at_most(v, u16::MAX as nat) == Some(s.anchor_pos as nat)
    }
}

/// `b` is, line for line, a save of `(s, at)`: every line sets a key of ours,
/// every key is set exactly once, and each value is the field it names.
pub open spec fn is_save_of(b: Seq<u8>, nkinds: int, s: State, at: u64) -> bool {
    let ls = lines_of(b);
    &&& forall|i: int| 0 <= i < ls.len() ==> line_key_index(#[trigger] ls[i]) >= 0
    &&& forall|k: int| 0 <= k < KEYS ==> #[trigger] key_count(ls, k) == 1
    &&& forall|k: int| 0 <= k < KEYS ==> #[trigger] denotes(k, value_of(ls, k), s, at, nkinds)
}

/// A state a playthrough could have produced: no absurd population, the
/// anchor on the pane, only unlocked reefs within the score's budget, a clock
/// that only ran after the start, and no started run without a reef.
pub open spec fn plausible(s: State, p: Params) -> bool {
    &&& forall|i: int| 0 <= i < SPECIES ==> #[trigger] s.population[i] <= MAX_POPULATION
    &&& s.anchor_pos <= ANCHOR_POS_MAX
    &&& forall|i: int| 0 <= i < s.reefs@.len() ==> p.reef_kinds@[(#[trigger] s.reefs@[i]).kind as int].unlock <= s.score
    &&& cost_sum(s.reefs@, p.reef_kinds@) <= p.spec_budget(s.score)
    &&& (s.started || s.tick_count == 0)
    &&& (!s.started || s.reefs@.len() > 0)
}


/// Counting lines per key: one more line adds one exactly when it sets the key.
pub proof fn lemma_key_count_push(ls: Seq<Seq<u8>>, l: Seq<u8>, k: int)
    ensures
        key_count(ls.push(l), k) == key_count(ls, k) + if line_key_index(l) == k {
            1nat
        } else {
            0
        },
        key_count(ls, k) > 0 ==> key_line(ls.push(l), k) == key_line(ls, k),
        key_count(ls, k) == 0 ==> key_line(ls.push(l), k) == ls.len(),
{
    assert(ls.push(l).drop_last() =~= ls);
}

pub proof fn lemma_key_line(ls: Seq<Seq<u8>>, k: int)
    requires
        key_count(ls, k) > 0,
    ensures
        0 <= key_line(ls, k) < ls.len(),
        line_key_index(ls[key_line(ls, k)]) == k,
    decreases ls.len(),
{
    if key_count(ls.drop_last(), k) > 0 {
        lemma_key_line(ls.drop_last(), k);
    }
}

pub proof fn lemma_key_count_concat(a: Seq<Seq<u8>>, b: Seq<Seq<u8>>, k: int)
    ensures
        key_count(a + b, k) == key_count(a, k) + key_count(b, k),
        key_count(a, k) > 0 ==> key_line(a + b, k) == key_line(a, k),
    decreases b.len(),
{
    if b.len() == 0 {
        assert(a + b =~= a);
    } else {
        lemma_key_count_concat(a, b.drop_last(), k);
        assert((a + b).drop_last() =~= a + b.drop_last());
        if key_count(a, k) > 0 {
            assert(key_count((a + b).drop_last(), k) > 0);
        }
    }
}

/// Which save key `b[lo..hi]` names.
fn match_key(b: &[u8], lo: usize, hi: usize) -> (k: Option<usize>)
    requires
        lo <= hi <= b@.len(),
    ensures
        match k {
            Some(i) => i < KEYS && key_index(b@.subrange(lo as int, hi as int)) == i,
            None => key_index(b@.subrange(lo as int, hi as int)) == -1,
        },
{
    if hi - lo == 1 && b[lo + 0] == 118 {
        proof {
            assert(b@.subrange(lo as int, hi as int) =~= key_bytes(0));
        }
        return Some(0);
    }
    if hi - lo == 8 && b[lo + 0] == 115 && b[lo + 1] == 97 && b[lo + 2] == 118 && b[lo + 3] == 101 && b[lo + 4] == 100 && b[lo + 5] == 95 && b[lo + 6] == 97 && b[lo + 7] == 116 {
        proof {
            assert(b@.subrange(lo as int, hi as int) =~= key_bytes(1));
        }
        return Some(1);
    }
    if hi - lo == 10 && b[lo + 0] == 112 && b[lo + 1] == 111 && b[lo + 2] == 112 && b[lo + 3] == 117 && b[lo + 4] == 108 && b[lo + 5] == 97 && b[lo + 6] == 116 && b[lo + 7] == 105 && b[lo + 8] == 111 && b[lo + 9] == 110 {
        proof {
            assert(b@.subrange(lo as int, hi as int) =~= key_bytes(2));
        }
        return Some(2);
    }
    if hi - lo == 4 && b[lo + 0] == 112 && b[lo + 1] == 111 && b[lo + 2] == 111 && b[lo + 3] == 108 {
        proof {
            assert(b@.subrange(lo as int, hi as int) =~= key_bytes(3));
        }
        return Some(3);
    }
    if hi - lo == 8 && b[lo + 0] == 110 && b[lo + 1] == 117 && b[lo + 2] == 116 && b[lo + 3] == 114 && b[lo + 4] == 105 && b[lo + 5] == 101 && b[lo + 6] == 110 && b[lo + 7] == 116 {
        proof {
            assert(b@.subrange(lo as int, hi as int) =~= key_bytes(4));
        }
        return Some(4);
    }
    if hi - lo == 11 && b[lo + 0] == 99 && b[lo + 1] == 111 && b[lo + 2] == 108 && b[lo + 3] == 108 && b[lo + 4] == 101 && b[lo + 5] == 99 && b[lo + 6] == 116 && b[lo + 7] == 97 && b[lo + 8] == 98 && b[lo + 9] == 108 && b[lo + 10] == 101 {
        proof {
            assert(b@.subrange(lo as int, hi as int) =~= key_bytes(5));
        }
        return Some(5);
    }
    if hi - lo == 8 && b[lo + 0] == 99 && b[lo + 1] == 117 && b[lo + 2] == 114 && b[lo + 3] == 114 && b[lo + 4] == 101 && b[lo + 5] == 110 && b[lo + 6] == 99 && b[lo + 7] == 121 {
        proof {
            assert(b@.subrange(lo as int, hi as int) =~= key_bytes(6));
        }
        return Some(6);
    }
    if hi - lo == 5 && b[lo + 0] == 115 && b[lo + 1] == 99 && b[lo + 2] == 111 && b[lo + 3] == 114 && b[lo + 4] == 101 {
        proof {
            assert(b@.subrange(lo as int, hi as int) =~= key_bytes(7));
        }
        return Some(7);
    }
    if hi - lo == 5 && b[lo + 0] == 114 && b[lo + 1] == 111 && b[lo + 2] == 99 && b[lo + 3] == 107 && b[lo + 4] == 115 {
        proof {
            assert(b@.subrange(lo as int, hi as int) =~= key_bytes(8));
        }
        return Some(8);
    }
    if hi - lo == 3 && b[lo + 0] == 97 && b[lo + 1] == 103 && b[lo + 2] == 101 {
        proof {
            assert(b@.subrange(lo as int, hi as int) =~= key_bytes(9));
        }
        return Some(9);
    }
    if hi - lo == 7 && b[lo + 0] == 115 && b[lo + 1] == 116 && b[lo + 2] == 97 && b[lo + 3] == 114 && b[lo + 4] == 116 && b[lo + 5] == 101 && b[lo + 6] == 100 {
        proof {
            assert(b@.subrange(lo as int, hi as int) =~= key_bytes(10));
        }
        return Some(10);
    }
    if hi - lo == 6 && b[lo + 0] == 97 && b[lo + 1] == 110 && b[lo + 2] == 99 && b[lo + 3] == 104 && b[lo + 4] == 111 && b[lo + 5] == 114 {
        proof {
            assert(b@.subrange(lo as int, hi as int) =~= key_bytes(11));
        }
        return Some(11);
    }
    proof {
        let sub = b@.subrange(lo as int, hi as int);
        assert forall|i: int| 0 <= i < sub.len() implies sub[i] == b@[lo + i] by {}
        assert(sub != key_bytes(0)) by {
            if sub == key_bytes(0) {
                assert(sub.len() == 1);
                assert(sub[0] == b@[lo + 0]);
            }
        }
        assert(sub != key_bytes(1)) by {
            if sub == key_bytes(1) {
                assert(sub.len() == 8);
                assert(sub[0] == b@[lo + 0]);
                assert(sub[1] == b@[lo + 1]);
                assert(sub[2] == b@[lo + 2]);
                assert(sub[3] == b@[lo + 3]);
                assert(sub[4] == b@[lo + 4]);
                assert(sub[5] == b@[lo + 5]);
                assert(sub[6] == b@[lo + 6]);
                assert(sub[7] == b@[lo + 7]);
            }
        }
        assert(sub != key_bytes(2)) by {
            if sub == key_bytes(2) {
                assert(sub.len() == 10);
                assert(sub[0] == b@[lo + 0]);
                assert(sub[1] == b@[lo + 1]);
                assert(sub[2] == b@[lo + 2]);
                assert(sub[3] == b@[lo + 3]);
                assert(sub[4] == b@[lo + 4]);
                assert(sub[5] == b@[lo + 5]);
                assert(sub[6] == b@[lo + 6]);
                assert(sub[7] == b@[lo + 7]);
                assert(sub[8] == b@[lo + 8]);
                assert(sub[9] == b@[lo + 9]);
            }
        }
        assert(sub != key_bytes(3)) by {
            if sub == key_bytes(3) {
                assert(sub.len() == 4);
                assert(sub[0] == b@[lo + 0]);
                assert(sub[1] == b@[lo + 1]);
                assert(sub[2] == b@[lo + 2]);
                assert(sub[3] == b@[lo + 3]);
            }
        }
        assert(sub != key_bytes(4)) by {
            if sub == key_bytes(4) {
                assert(sub.len() == 8);
                assert(sub[0] == b@[lo + 0]);
                assert(sub[1] == b@[lo + 1]);
                assert(sub[2] == b@[lo + 2]);
                assert(sub[3] == b@[lo + 3]);
                assert(sub[4] == b@[lo + 4]);
                assert(sub[5] == b@[lo + 5]);
                assert(sub[6] == b@[lo + 6]);
                assert(sub[7] == b@[lo + 7]);
            }
        }
        assert(sub != key_bytes(5)) by {
            if sub == key_bytes(5) {
                assert(sub.len() == 11);
                assert(sub[0] == b@[lo + 0]);
                assert(sub[1] == b@[lo + 1]);
                assert(sub[2] == b@[lo + 2]);
                assert(sub[3] == b@[lo + 3]);
                assert(sub[4] == b@[lo + 4]);
                assert(sub[5] == b@[lo + 5]);
                assert(sub[6] == b@[lo + 6]);
                assert(sub[7] == b@[lo + 7]);
                assert(sub[8] == b@[lo + 8]);
                assert(sub[9] == b@[lo + 9]);
                assert(sub[10] == b@[lo + 10]);
            }
        }
        assert(sub != key_bytes(6)) by {
            if sub == key_bytes(6) {
                assert(sub.len() == 8);
                assert(sub[0] == b@[lo + 0]);
                assert(sub[1] == b@[lo + 1]);
                assert(sub[2] == b@[lo + 2]);
                assert(sub[3] == b@[lo + 3]);
                assert(sub[4] == b@[lo + 4]);
                assert(sub[5] == b@[lo + 5]);
                assert(sub[6] == b@[lo + 6]);
                assert(sub[7] == b@[lo + 7]);
            }
        }
        assert(sub != key_bytes(7)) by {
            if sub == key_bytes(7) {
                assert(sub.len() == 5);
                assert(sub[0] == b@[lo + 0]);
                assert(sub[1] == b@[lo + 1]);
                assert(sub[2] == b@[lo + 2]);
                assert(sub[3] == b@[lo + 3]);
                assert(sub[4] == b@[lo + 4]);
            }
        }
        assert(sub != key_bytes(8)) by {
            if sub == key_bytes(8) {
                assert(sub.len() == 5);
                assert(sub[0] == b@[lo + 0]);
                assert(sub[1] == b@[lo + 1]);
                assert(sub[2] == b@[lo + 2]);
                assert(sub[3] == b@[lo + 3]);
                assert(sub[4] == b@[lo + 4]);
            }
        }
        assert(sub != key_bytes(9)) by {
            if sub == key_bytes(9) {
                assert(sub.len() == 3);
                assert(sub[0] == b@[lo + 0]);
                assert(sub[1] == b@[lo + 1]);
                assert(sub[2] == b@[lo + 2]);
            }
        }
        assert(sub != key_bytes(10)) by {
            if sub == key_bytes(10) {
                assert(sub.len() == 7);
                assert(sub[0] == b@[lo + 0]);
                assert(sub[1] == b@[lo + 1]);
                assert(sub[2] == b@[lo + 2]);
                assert(sub[3] == b@[lo + 3]);
                assert(sub[4] == b@[lo + 4]);
                assert(sub[5] == b@[lo + 5]);
                assert(sub[6] == b@[lo + 6]);
            }
        }
        assert(sub != key_bytes(11)) by {
            if sub == key_bytes(11) {
                assert(sub.len() == 6);
                assert(sub[0] == b@[lo + 0]);
                assert(sub[1] == b@[lo + 1]);
                assert(sub[2] == b@[lo + 2]);
                assert(sub[3] == b@[lo + 3]);
                assert(sub[4] == b@[lo + 4]);
                assert(sub[5] == b@[lo + 5]);
            }
        }
    }
    None
}

/// Four comma-separated numbers in `b[lo..hi]`, each at most `max`.
fn parse_four(b: &[u8], lo: usize, hi: usize, max: u128) -> (r: Option<[u128; SPECIES]>)
    requires
        lo <= hi <= b@.len(),
    ensures
        match r {
            Some(a) => denotes_four(b@.subrange(lo as int, hi as int), max as nat, seq![a[0] as int, a[1] as int, a[2] as int, a[3] as int]),
            None => forall|xs: Seq<int>| !denotes_four(b@.subrange(lo as int, hi as int), max as nat, xs),
        },
{
    let ghost v = b@.subrange(lo as int, hi as int);
    let mut out: [u128; SPECIES] = [0; SPECIES];
    let mut start = lo;
    let mut i: usize = 0;
    let ghost mut seen: Seq<Seq<u8>> = seq![];
    while i < SPECIES
        invariant
            lo <= start <= hi <= b@.len(),
            v == b@.subrange(lo as int, hi as int),
            i <= SPECIES,
            seen.len() == i,
            i < SPECIES ==> split_on(v, 44) == seen + split_on(b@.subrange(start as int, hi as int), 44),
            i == SPECIES ==> split_on(v, 44) == seen,
            forall|j: int| 0 <= j < i ==> parse_at_most(#[trigger] seen[j], max as nat) == Some(out[j] as nat),
        decreases SPECIES - i,
    {
        let e = find_in(b, start, hi, 44);
        let ghost rest = b@.subrange(start as int, hi as int);
        proof {
            lemma_find_byte(rest, 44);
            if e < hi {
                assert(rest.take(e - start) =~= b@.subrange(start as int, e as int));
                assert(rest.skip(e - start + 1) =~= b@.subrange(e + 1, hi as int));
            } else {
                assert(rest =~= b@.subrange(start as int, e as int));
            }
        }
        let n = match parse_u128_in(b, start, e) {
            Some(n) => n,
            None => {
                proof {
                    assert(split_on(v, 44)[i as int] == b@.subrange(start as int, e as int));
                }
                return None;
            },
        };
        if n > max {
            proof {
                assert(split_on(v, 44)[i as int] == b@.subrange(start as int, e as int));
            }
            return None;
        }
        out[i] = n;
        proof {
            seen = seen.push(b@.subrange(start as int, e as int));
        }
        if i + 1 < SPECIES {
            if e == hi {
                proof {
                    assert(split_on(v, 44) =~= seen);
                }
                return None;
            }
            proof {
                assert(split_on(v, 44) =~= seen + split_on(b@.subrange(e + 1, hi as int), 44));
            }
            start = e + 1;
        } else {
            if e != hi {
                proof {
                    let more = split_on(b@.subrange(e + 1, hi as int), 44);
                    assert(split_on(v, 44) =~= seen + more);
                    assert(more.len() >= 1);
                }
                return None;
            }
            proof {
                assert(split_on(v, 44) =~= seen);
            }
            start = e;
        }
        i += 1;
    }
    proof {
        let a = seq![out[0] as int, out[1] as int, out[2] as int, out[3] as int];
        assert(split_on(v, 44).len() == 4);
    }
    Some(out)
}


/// A decoded list of pieces is, over any prefix of the pieces, the same prefix
/// of the list.
pub proof fn lemma_decode_prefix(a: Seq<Seq<u8>>, b: Seq<Seq<u8>>, nkinds: int)
    ensures
        decode_reef_list(a + b, nkinds) matches Some(rs) ==> decode_reef_list(a, nkinds) == Some(
            rs.take(a.len() as int),
        ) && rs.len() == a.len() + b.len(),
    decreases b.len(),
{
    if b.len() == 0 {
        assert(a + b =~= a);
        if let Some(rs) = decode_reef_list(a, nkinds) {
            lemma_decode_len(a, nkinds);
            assert(rs.take(a.len() as int) =~= rs);
        }
    } else {
        lemma_decode_prefix(a, b.drop_last(), nkinds);
        assert((a + b).drop_last() =~= a + b.drop_last());
        if let Some(rs) = decode_reef_list(a + b, nkinds) {
            let rs0 = decode_reef_list(a + b.drop_last(), nkinds)->0;
            assert(rs == rs0.push(decode_reef((a + b).last(), nkinds)->0));
            assert(rs.take(a.len() as int) =~= rs0.take(a.len() as int));
        }
    }
}

pub proof fn lemma_decode_len(ps: Seq<Seq<u8>>, nkinds: int)
    ensures
        decode_reef_list(ps, nkinds) matches Some(rs) ==> rs.len() == ps.len(),
    decreases ps.len(),
{
    if ps.len() > 0 {
        lemma_decode_len(ps.drop_last(), nkinds);
    }
}

/// A decoded reef list names only known kinds and in-range slots.
pub proof fn decode_reefs_in_range(v: Seq<u8>, nkinds: int)
    ensures
        decode_reefs(v, nkinds) matches Some(rs) ==> kinds_in_range_n(rs, nkinds) && slots_distinct(rs),
{
    if v.len() > 0 {
        decode_list_in_range(split_on(v, 44), nkinds);
    }
}

pub open spec fn kinds_in_range_n(rs: Seq<Reef>, nkinds: int) -> bool {
    forall|i: int| 0 <= i < rs.len() ==> (#[trigger] rs[i]).kind < nkinds && rs[i].slot < SLOTS
}

proof fn decode_list_in_range(ps: Seq<Seq<u8>>, nkinds: int)
    ensures
        decode_reef_list(ps, nkinds) matches Some(rs) ==> kinds_in_range_n(rs, nkinds),
    decreases ps.len(),
{
    if ps.len() > 0 {
        decode_list_in_range(ps.drop_last(), nkinds);
        if let Some(rs) = decode_reef_list(ps, nkinds) {
            let rs0 = decode_reef_list(ps.drop_last(), nkinds)->0;
            assert forall|i: int| 0 <= i < rs.len() implies (#[trigger] rs[i]).kind < nkinds && rs[i].slot < SLOTS by {
                if i < rs0.len() {
                    assert(rs[i] == rs0[i]);
                }
            }
        }
    }
}

/// The reef list in `b[lo..hi]`: `kind:slot,kind:slot,...`.
fn parse_reefs(b: &[u8], lo: usize, hi: usize, nkinds: usize) -> (r: Option<Vec<Reef>>)
    requires
        lo <= hi <= b@.len(),
    ensures
        match r {
            Some(v) => decode_reefs(b@.subrange(lo as int, hi as int), nkinds as int) == Some(v@),
            None => decode_reefs(b@.subrange(lo as int, hi as int), nkinds as int) is None,
        },
{
    let ghost v = b@.subrange(lo as int, hi as int);
    if lo == hi {
        return Some(Vec::new());
    }
    let ghost n = nkinds as int;
    let mut reefs: Vec<Reef> = Vec::new();
    let mut used: [bool; 9] = [false; 9];
    let mut start = lo;
    let ghost mut seen: Seq<Seq<u8>> = seq![];
    loop
        invariant_except_break
            lo <= start <= hi <= b@.len(),
            v == b@.subrange(lo as int, hi as int),
            v.len() > 0,
            n == nkinds as int,
            split_on(v, 44) == seen + split_on(b@.subrange(start as int, hi as int), 44),
            decode_reef_list(seen, n) == Some(reefs@),
            slots_distinct(reefs@),
            forall|s: int| 0 <= s < 9 ==> (used[s] <==> exists|i: int|
                0 <= i < reefs@.len() && (#[trigger] reefs@[i]).slot == s),
            forall|i: int| 0 <= i < reefs@.len() ==> (#[trigger] reefs@[i]).slot < 9,
        ensures
            v == b@.subrange(lo as int, hi as int),
            v.len() > 0,
            split_on(v, 44) == seen,
            decode_reef_list(seen, n) == Some(reefs@),
            slots_distinct(reefs@),
        decreases hi - start,
    {
        let e = find_in(b, start, hi, 44);
        let ghost rest = b@.subrange(start as int, hi as int);
        let ghost piece = b@.subrange(start as int, e as int);
        proof {
            lemma_find_byte(rest, 44);
            if e < hi {
                assert(rest.take(e - start) =~= piece);
                assert(rest.skip(e - start + 1) =~= b@.subrange(e + 1, hi as int));
                assert(split_on(v, 44) =~= seen.push(piece) + split_on(b@.subrange(e + 1, hi as int), 44));
            } else {
                assert(rest =~= piece);
                assert(split_on(v, 44) =~= seen.push(piece));
            }
            lemma_decode_prefix(seen.push(piece), split_on(v, 44).skip(seen.len() as int + 1), n);
            assert(seen.push(piece) + split_on(v, 44).skip(seen.len() as int + 1) =~= split_on(v, 44));
            assert(seen.push(piece).drop_last() =~= seen);
        }
        let c = find_in(b, start, e, 58);
        proof {
            assert(piece.take(c - start) =~= b@.subrange(start as int, c as int));
            if c < e {
                assert(piece.skip(c - start + 1) =~= b@.subrange(c + 1, e as int));
            }
        }
        if c == e {
            return None;
        }
        let kind = match parse_u128_in(b, start, c) {
            Some(k) => k,
            None => {
                return None;
            },
        };
        let slot = match parse_u128_in(b, c + 1, e) {
            Some(s) => s,
            None => {
                return None;
            },
        };
        if kind >= nkinds as u128 || slot >= 9 {
            return None;
        }
        let reef = Reef { kind: kind as usize, slot: slot as u8 };
        assert(decode_reef(piece, n) == Some(reef));
        if used[slot as usize] {
            proof {
                let i = choose|i: int| 0 <= i < reefs@.len() && (#[trigger] reefs@[i]).slot == slot;
                lemma_decode_len(seen, n);
                assert(seen.push(piece).last() == piece);
                assert(decode_reef_list(seen.push(piece), n) == Some(reefs@.push(reef)));
                if let Some(rs) = decode_reef_list(split_on(v, 44), n) {
                    let t = rs.take(seen.len() as int + 1);
                    assert(t == reefs@.push(reef));
                    assert(rs[i] == t[i]);
                    assert(rs[reefs@.len() as int] == t[reefs@.len() as int]);
                    assert(!slots_distinct(rs));
                }
            }
            return None;
        }
        let ghost old_reefs = reefs@;
        let ghost old_used = used;
        used[slot as usize] = true;
        reefs.push(reef);
        proof {
            assert(seen.push(piece).last() == piece);
            assert(decode_reef_list(seen.push(piece), n) == Some(reefs@));
            seen = seen.push(piece);
            assert forall|s: int| 0 <= s < 9 implies (used[s] <==> exists|i: int|
                0 <= i < reefs@.len() && (#[trigger] reefs@[i]).slot == s) by {
                if s == slot as int {
                    assert(reefs@[reefs@.len() - 1].slot == s);
                } else {
                    assert(used[s] == old_used[s]);
                    if old_used[s] {
                        let i = choose|i: int| 0 <= i < old_reefs.len() && (#[trigger] old_reefs[i]).slot == s;
                        assert(reefs@[i] == old_reefs[i]);
                    }
                    if exists|i: int| 0 <= i < reefs@.len() && (#[trigger] reefs@[i]).slot == s {
                        let i = choose|i: int| 0 <= i < reefs@.len() && (#[trigger] reefs@[i]).slot == s;
                        assert(i < old_reefs.len());
                        assert(reefs@[i] == old_reefs[i]);
                    }
                }
            }
            assert forall|i: int, j: int|
                0 <= i < reefs@.len() && 0 <= j < reefs@.len() && i != j implies (#[trigger] reefs@[i]).slot
                    != (#[trigger] reefs@[j]).slot by {
                if i < old_reefs.len() && j < old_reefs.len() {
                    assert(reefs@[i] == old_reefs[i]);
                    assert(reefs@[j] == old_reefs[j]);
                } else if i < old_reefs.len() {
                    assert(reefs@[i] == old_reefs[i]);
                    assert(!old_used[slot as int]);
                } else if j < old_reefs.len() {
                    assert(reefs@[j] == old_reefs[j]);
                    assert(!old_used[slot as int]);
                }
            }
        }
        if e == hi {
            break;
        }
        start = e + 1;
    }
    Some(reefs)
}


/// Two saves read from the same text hold the same fields: a save's text pins
/// down everything it stores.
pub proof fn lemma_save_fields_pinned(b: Seq<u8>, nkinds: int, s: State, at: u64, t: State, bt: u64)
    requires
        is_save_of(b, nkinds, s, at),
        is_save_of(b, nkinds, t, bt),
    ensures
        s.population == t.population,
        s.pool == t.pool,
        s.nutrient == t.nutrient,
        s.collectable == t.collectable,
        s.currency == t.currency,
        s.score == t.score,
        s.reefs@ == t.reefs@,
        s.tick_count == t.tick_count,
        s.started == t.started,
        s.anchor_pos == t.anchor_pos,
        at == bt,
{
    let ls = lines_of(b);
    assert(denotes(1, value_of(ls, 1), s, at, nkinds));
    assert(denotes(1, value_of(ls, 1), t, bt, nkinds));
    assert(denotes(2, value_of(ls, 2), s, at, nkinds));
    assert(denotes(2, value_of(ls, 2), t, bt, nkinds));
    assert(denotes(3, value_of(ls, 3), s, at, nkinds));
    assert(denotes(3, value_of(ls, 3), t, bt, nkinds));
    assert(denotes(4, value_of(ls, 4), s, at, nkinds));
    assert(denotes(4, value_of(ls, 4), t, bt, nkinds));
    assert(denotes(5, value_of(ls, 5), s, at, nkinds));
    assert(denotes(5, value_of(ls, 5), t, bt, nkinds));
    assert(denotes(6, value_of(ls, 6), s, at, nkinds));
    assert(denotes(6, value_of(ls, 6), t, bt, nkinds));
    assert(denotes(7, value_of(ls, 7), s, at, nkinds));
    assert(denotes(7, value_of(ls, 7), t, bt, nkinds));
    assert(denotes(8, value_of(ls, 8), s, at, nkinds));
    assert(denotes(8, value_of(ls, 8), t, bt, nkinds));
    assert(denotes(9, value_of(ls, 9), s, at, nkinds));
    assert(denotes(9, value_of(ls, 9), t, bt, nkinds));
    assert(denotes(10, value_of(ls, 10), s, at, nkinds));
    assert(denotes(10, value_of(ls, 10), t, bt, nkinds));
    assert(denotes(11, value_of(ls, 11), s, at, nkinds));
    assert(denotes(11, value_of(ls, 11), t, bt, nkinds));
    let p2 = split_on(value_of(ls, 2), 44);
    let p3 = split_on(value_of(ls, 3), 44);
    assert forall|i: int| 0 <= i < SPECIES implies s.population[i] == t.population[i] by {
        assert(parse_at_most(p2[i], u32::MAX as nat) == Some(s.population[i] as nat));
        assert(parse_at_most(p2[i], u32::MAX as nat) == Some(t.population[i] as nat));
    }
    assert forall|i: int| 0 <= i < SPECIES implies s.pool[i] == t.pool[i] by {
        assert(parse_at_most(p3[i], u128::MAX as nat) == Some(s.pool[i] as nat));
        assert(parse_at_most(p3[i], u128::MAX as nat) == Some(t.pool[i] as nat));
    }
    assert(s.population@ =~= t.population@);
    assert(s.pool@ =~= t.pool@);
}

/// When the one state the text can hold is implausible, the text is no save.
proof fn lemma_no_save_if_implausible(b: Seq<u8>, nkinds: int, s: State, at: u64, p: Params)
    requires
        is_save_of(b, nkinds, s, at),
        !plausible(s, p),
    ensures
        forall|t: State, bt: u64| !(is_save_of(b, nkinds, t, bt) && plausible(t, p)),
{
    assert forall|t: State, bt: u64| !(is_save_of(b, nkinds, t, bt) && plausible(t, p)) by {
        if is_save_of(b, nkinds, t, bt) {
            lemma_save_fields_pinned(b, nkinds, s, at, t, bt);
            assert(s.population@ =~= t.population@);
        }
    }
}

/// A number in `b[lo..hi]` no greater than `max`.
fn number_at_most(b: &[u8], lo: usize, hi: usize, max: u128) -> (r: Option<u128>)
    requires
        lo <= hi <= b@.len(),
    ensures
        r == (match parse_at_most(b@.subrange(lo as int, hi as int), max as nat) {
            Some(n) => Some(n as u128),
            None => None,
        }),
{
    match parse_u128_in(b, lo, hi) {
        Some(n) => if n <= max {
            Some(n)
        } else {
            None
        },
        None => None,
    }
}

/// The value range recorded for key `k`.
fn range_at(slots: &Vec<Option<(usize, usize)>>, k: usize) -> (r: (usize, usize))
    requires
        k < slots@.len(),
        slots@[k as int] is Some,
    ensures
        slots@[k as int] == Some(r),
{
    match slots[k] {
        Some(r) => r,
        None => (0, 0),
    }
}

/// What pass one establishes: each key is set on exactly one line, every line
/// sets a key, and `slots[k]` is where key `k`'s value lies.
pub open spec fn value_ranges_found(bs: Seq<u8>, slots: Seq<Option<(usize, usize)>>) -> bool {
    let ls = lines_of(bs);
    &&& slots.len() == KEYS
    &&& forall|i: int| 0 <= i < ls.len() ==> line_key_index(#[trigger] ls[i]) >= 0
    &&& forall|k: int| 0 <= k < KEYS ==> #[trigger] key_count(ls, k) == 1
    &&& forall|k: int|
        0 <= k < KEYS ==> (#[trigger] slots[k]) is Some && {
            let (lo, hi) = slots[k]->0;
            &&& lo <= hi <= bs.len()
            &&& bs.subrange(lo as int, hi as int) == value_of(ls, k)
        }
}

/// When no state can agree with the value under key `k`, the text is no save.
proof fn lemma_not_a_save_for_key(b: Seq<u8>, nkinds: int, k: int)
    requires
        0 <= k < KEYS,
        forall|s: State, at: u64| !denotes(k, value_of(lines_of(b), k), s, at, nkinds),
    ensures
        forall|s: State, at: u64| !is_save_of(b, nkinds, s, at),
{
    assert forall|s: State, at: u64| !is_save_of(b, nkinds, s, at) by {
        if is_save_of(b, nkinds, s, at) {
            assert(denotes(k, value_of(lines_of(b), k), s, at, nkinds));
        }
    }
}

/// Pass one of the parse: every line must set a key of ours, none twice, and
/// every key must be set; the result is where each key's value lies.
fn value_ranges(b: &[u8]) -> (r: Option<Vec<Option<(usize, usize)>>>)
    ensures
        match r {
            Some(slots) => value_ranges_found(b@, slots@),
            None => forall|nk: int, s: State, at: u64| !is_save_of(b@, nk, s, at),
        },
{
    let ghost bs = b@;
    let mut slots: Vec<Option<(usize, usize)>> = Vec::new();
    let mut j: usize = 0;
    while j < KEYS
        invariant
            j <= KEYS,
            slots@.len() == j,
            forall|k: int| 0 <= k < j ==> slots@[k] is None,
        decreases KEYS - j,
    {
        slots.push(None);
        j += 1;
    }
    let mut pos: usize = 0;
    assert(bs.skip(0) =~= bs);
    let ghost mut done: Seq<Seq<u8>> = seq![];
    while pos < b.len()
        invariant
            bs == b@,
            pos <= b@.len(),
            lines_of(bs) == done + lines_of(bs.skip(pos as int)),
            forall|i: int| 0 <= i < done.len() ==> line_key_index(#[trigger] done[i]) >= 0,
            slots@.len() == KEYS,
            forall|k: int| 0 <= k < KEYS ==> (slots@[k] is None <==> #[trigger] key_count(done, k) == 0),
            forall|k: int| 0 <= k < KEYS ==> #[trigger] key_count(done, k) <= 1,
            forall|k: int|
                0 <= k < KEYS && (#[trigger] slots@[k]) is Some ==> {
                    let (lo, hi) = slots@[k]->0;
                    &&& lo <= hi <= bs.len()
                    &&& bs.subrange(lo as int, hi as int) == value_of(done, k)
                    &&& key_count(done, k) == 1
                },
        decreases b@.len() - pos,
    {
        let e = find_in(b, pos, b.len(), 10);
        let mut end = e;
        if e < b.len() && e > pos && b[e - 1] == 13 {
            end = e - 1;
        }
        let ghost rest = bs.skip(pos as int);
        let ghost line = bs.subrange(pos as int, end as int);
        proof {
            assert(bs.subrange(pos as int, bs.len() as int) =~= rest);
            lemma_find_byte(rest, 10);
            let f = e - pos;
            if e < bs.len() {
                assert(rest.take(f) =~= bs.subrange(pos as int, e as int));
                assert(strip_cr(rest.take(f)) =~= line);
                assert(rest.skip(f + 1) =~= bs.skip(e + 1));
                assert(lines_of(rest) =~= seq![line] + lines_of(bs.skip(e + 1)));
            } else {
                assert(rest =~= line);
                assert(lines_of(rest) =~= seq![line]);
            }
        }
        let eq = find_in(b, pos, end, 61);
        proof {
            lemma_find_byte(line, 61);
            assert(line.take(eq - pos) =~= bs.subrange(pos as int, eq as int));
            if eq < end {
                assert(line.skip(eq - pos + 1) =~= bs.subrange(eq + 1, end as int));
            }
            assert(lines_of(bs)[done.len() as int] == line);
        }
        if eq == end {
            proof {
                assert(line_key_index(line) == -1);
            }
            return None;
        }
        let k = match match_key(b, pos, eq) {
            Some(k) => k,
            None => {
                proof {
                    assert(line_key_index(line) == -1);
                }
                return None;
            },
        };
        let ghost next = done.push(line);
        proof {
            assert forall|kk: int| 0 <= kk < KEYS implies #[trigger] key_count(next, kk) == key_count(done, kk)
                + if kk == k {
                1nat
            } else {
                0
            } by {
                lemma_key_count_push(done, line, kk);
            }
        }
        if slots[k].is_some() {
            proof {
                let tail = lines_of(bs.skip(pos as int));
                assert(tail =~= seq![line] + tail.skip(1));
                assert(lines_of(bs) =~= next + tail.skip(1));
                lemma_key_count_concat(next, tail.skip(1), k as int);
            }
            return None;
        }
        slots.set(k, Some((eq + 1, end)));
        proof {
            assert forall|kk: int|
                0 <= kk < KEYS && (#[trigger] slots@[kk]) is Some implies {
                    let (lo, hi) = slots@[kk]->0;
                    &&& lo <= hi <= bs.len()
                    &&& bs.subrange(lo as int, hi as int) == value_of(next, kk)
                    &&& key_count(next, kk) == 1
                } by {
                lemma_key_count_push(done, line, kk);
                if kk != k {
                    lemma_key_line(done, kk);
                    assert(next[key_line(done, kk)] == done[key_line(done, kk)]);
                } else {
                    assert(next[done.len() as int] == line);
                }
            }
            assert forall|i: int| 0 <= i < next.len() implies line_key_index(#[trigger] next[i]) >= 0 by {
                if i < done.len() {
                    assert(next[i] == done[i]);
                }
            }
            if e < bs.len() {
                assert(lines_of(bs) =~= next + lines_of(bs.skip(e + 1)));
            } else {
                assert(bs.skip(bs.len() as int) =~= Seq::<u8>::empty());
                assert(lines_of(bs) =~= next + lines_of(bs.skip(bs.len() as int)));
            }
            done = next;
        }
        pos = if e < b.len() {
            e + 1
        } else {
            b.len()
        };
    }
    proof {
        assert(bs.skip(pos as int) =~= Seq::<u8>::empty());
        assert(done + lines_of(bs.skip(pos as int)) =~= done);
    }
    let mut k: usize = 0;
    while k < KEYS
        invariant
            k <= KEYS,
            bs == b@,
            lines_of(bs) == done,
            forall|k: int| 0 <= k < KEYS ==> (slots@[k] is None <==> #[trigger] key_count(done, k) == 0),
            slots@.len() == KEYS,
            forall|kk: int| 0 <= kk < k ==> (#[trigger] slots@[kk]) is Some,
        decreases KEYS - k,
    {
        if slots[k].is_none() {
            proof {
                assert(key_count(done, k as int) == 0);
                assert forall|nk: int, s: State, at: u64| !is_save_of(bs, nk, s, at) by {
                    if is_save_of(bs, nk, s, at) {
                        assert(key_count(lines_of(bs), k as int) == 1);
                    }
                }
            }
            return None;
        }
        k += 1;
    }
    let ghost ls = lines_of(bs);
    assert(ls == done);
    assert forall|kk: int| 0 <= kk < KEYS implies #[trigger] key_count(ls, kk) == 1 by {
        assert(slots@[kk] is Some);
    }
    Some(slots)
}
/// Pass two of the parse: each value must be the field its key names.
#[verifier::rlimit(60)]
fn decode_fields(b: &[u8], slots: &Vec<Option<(usize, usize)>>, params: &Params) -> (r: Option<(State, u64)>)
    requires
        value_ranges_found(b@, slots@),
    ensures
        match r {
            Some((s, at)) => is_save_of(b@, params.reef_kinds@.len() as int, s, at) && s.reefs_valid(params),
            None => forall|s: State, at: u64| !is_save_of(b@, params.reef_kinds@.len() as int, s, at),
        },
{
    let ghost bs = b@;
    let ghost nk = params.reef_kinds@.len() as int;
    let ghost ls = lines_of(bs);
    let nkinds = params.reef_kinds.len();
    let (lo, hi) = range_at(&slots, 0);
    match number_at_most(b, lo, hi, u32::MAX as u128) {
        Some(v) => if v != VERSION as u128 {
            proof {
                lemma_not_a_save_for_key(bs, nk, 0);
            }
            return None;
        },
        None => {
            proof {
                lemma_not_a_save_for_key(bs, nk, 0);
            }
            return None;
        },
    }
    let (lo, hi) = range_at(&slots, 1);
    let saved_at = match number_at_most(b, lo, hi, u64::MAX as u128) {
        Some(v) => v as u64,
        None => {
            proof {
                lemma_not_a_save_for_key(bs, nk, 1);
            }
            return None;
        },
    };
    let (lo, hi) = range_at(&slots, 2);
    let population = match parse_four(b, lo, hi, u32::MAX as u128) {
        Some(a) => [a[0] as u32, a[1] as u32, a[2] as u32, a[3] as u32],
        None => {
            proof {
                lemma_not_a_save_for_key(bs, nk, 2);
            }
            return None;
        },
    };
    let (lo, hi) = range_at(&slots, 3);
    let pool = match parse_four(b, lo, hi, u128::MAX) {
        Some(a) => a,
        None => {
            proof {
                lemma_not_a_save_for_key(bs, nk, 3);
            }
            return None;
        },
    };
    let (lo, hi) = range_at(&slots, 4);
    let nutrient = match number_at_most(b, lo, hi, u128::MAX) {
        Some(v) => v,
        None => {
            proof {
                lemma_not_a_save_for_key(bs, nk, 4);
            }
            return None;
        },
    };
    let (lo, hi) = range_at(&slots, 5);
    let collectable = match number_at_most(b, lo, hi, u128::MAX) {
        Some(v) => v,
        None => {
            proof {
                lemma_not_a_save_for_key(bs, nk, 5);
            }
            return None;
        },
    };
    let (lo, hi) = range_at(&slots, 6);
    let currency = match number_at_most(b, lo, hi, u128::MAX) {
        Some(v) => v,
        None => {
            proof {
                lemma_not_a_save_for_key(bs, nk, 6);
            }
            return None;
        },
    };
    let (lo, hi) = range_at(&slots, 7);
    let score = match number_at_most(b, lo, hi, u128::MAX) {
        Some(v) => v,
        None => {
            proof {
                lemma_not_a_save_for_key(bs, nk, 7);
            }
            return None;
        },
    };
    let (lo, hi) = range_at(&slots, 8);
    let ghost reef_text = bs.subrange(lo as int, hi as int);
    let reefs = match parse_reefs(b, lo, hi, nkinds) {
        Some(v) => v,
        None => {
            proof {
                lemma_not_a_save_for_key(bs, nk, 8);
            }
            return None;
        },
    };
    let (lo, hi) = range_at(&slots, 9);
    let tick_count = match number_at_most(b, lo, hi, u64::MAX as u128) {
        Some(v) => v as u64,
        None => {
            proof {
                lemma_not_a_save_for_key(bs, nk, 9);
            }
            return None;
        },
    };
    let (lo, hi) = range_at(&slots, 10);
    let started = if hi > lo && hi - lo == 1 && b[lo] == 48 {
        false
    } else if hi > lo && hi - lo == 1 && b[lo] == 49 {
        true
    } else {
        proof {
            let v = bs.subrange(lo as int, hi as int);
            assert(v != seq![48u8] && v != seq![49u8]) by {
                if v == seq![48u8] || v == seq![49u8] {
                    assert(v.len() == 1);
                    assert(v[0] == bs[lo as int]);
                }
            }
            lemma_not_a_save_for_key(bs, nk, 10);
        }
        return None;
    };
    proof {
        let v = bs.subrange(lo as int, hi as int);
        if started {
            assert(v =~= seq![49u8]);
        } else {
            assert(v =~= seq![48u8]);
        }
    }
    let (lo, hi) = range_at(&slots, 11);
    let anchor_pos = match number_at_most(b, lo, hi, u16::MAX as u128) {
        Some(v) => v as u16,
        None => {
            proof {
                lemma_not_a_save_for_key(bs, nk, 11);
            }
            return None;
        },
    };
    let state = State {
        population,
        pool,
        nutrient,
        collectable,
        currency,
        score,
        reefs,
        tick_count,
        started,
        anchor_pos,
    };
    proof {
        assert forall|kk: int| 0 <= kk < KEYS implies #[trigger] denotes(kk, value_of(ls, kk), state, saved_at, nk) by {
            assert(slots@[kk] is Some);
        }
        assert(is_save_of(bs, nk, state, saved_at));
        decode_reefs_in_range(reef_text, nk);
    }
    Some((state, saved_at))
}

/// Whether `s` is a state a playthrough could have produced.
fn is_plausible(s: &State, params: &Params) -> (ok: bool)
    requires
        s.reefs_valid(params),
    ensures
        ok == plausible(*s, *params),
{
    let mut i: usize = 0;
    while i < SPECIES
        invariant
            i <= SPECIES,
            forall|j: int| 0 <= j < i ==> s.population[j] <= MAX_POPULATION,
        decreases SPECIES - i,
    {
        if s.population[i] > MAX_POPULATION {
            assert(!plausible(*s, *params)) by {
                assert(s.population@[i as int] > MAX_POPULATION);
                assert(!(s.population[i as int] <= MAX_POPULATION));
            }
            return false;
        }
        i += 1;
    }
    if s.anchor_pos > ANCHOR_POS_MAX {
        return false;
    }
    let mut i: usize = 0;
    let mut placed: u128 = 0;
    let ghost costs = crate::engine::state::reef_costs(s.reefs@, params.reef_kinds@);
    while i < s.reefs.len()
        invariant
            i <= s.reefs@.len(),
            s.reefs_valid(params),
            costs == crate::engine::state::reef_costs(s.reefs@, params.reef_kinds@),
            forall|j: int| 0 <= j < i ==> params.reef_kinds@[(#[trigger] s.reefs@[j]).kind as int].unlock <= s.score,
            placed == crate::engine::state::seq_sum(costs.take(i as int)),
            placed <= i * 0xffff_ffff,
        decreases s.reefs@.len() - i,
    {
        let kind = s.reefs[i].kind;
        if params.reef_kinds[kind].unlock > s.score {
            assert(!plausible(*s, *params)) by {
                assert(params.reef_kinds@[(s.reefs@[i as int]).kind as int].unlock > s.score);
            }
            return false;
        }
        proof {
            crate::engine::state::lemma_prefix_sum(costs, i as int);
        }
        placed = placed + params.reef_kinds[kind].cost as u128;
        i += 1;
    }
    assert(costs.take(i as int) =~= costs);
    if placed > params.budget(s.score) as u128 {
        return false;
    }
    if !s.started && s.tick_count > 0 {
        return false;
    }
    if s.started && s.reefs.len() == 0 {
        return false;
    }
    true
}

/// Strict parse: every key present exactly once with the right shape, or
/// nothing; a half-read save never masquerades as a valid one. Reef kinds
/// are checked against `params`, and the state must be one a playthrough
/// could have produced.
pub fn parse(text: &str, params: &Params) -> (r: Option<(State, u64)>)
    ensures
        match r {
            Some((s, at)) => is_save_of(text.spec_bytes(), params.reef_kinds@.len() as int, s, at)
                && plausible(s, *params) && s.reefs_valid(params),
            None => forall|s: State, at: u64|
                !(is_save_of(text.spec_bytes(), params.reef_kinds@.len() as int, s, at) && plausible(s, *params)),
        },
{
    let b = text.as_bytes();
    let slots = match value_ranges(b) {
        Some(slots) => slots,
        None => {
            return None;
        },
    };
    let (state, saved_at) = match decode_fields(b, &slots, params) {
        Some(found) => found,
        None => {
            return None;
        },
    };
    if !is_plausible(&state, params) {
        proof {
            lemma_no_save_if_implausible(b@, params.reef_kinds@.len() as int, state, saved_at, *params);
        }
        return None;
    }
    Some((state, saved_at))
}


/// The line that writes value `v` under key `k`.
pub open spec fn save_line(k: int, v: Seq<u8>) -> Seq<u8> {
    key_bytes(k).push(61) + v
}

/// Four numbers, comma-separated.
pub open spec fn four_text(xs: Seq<nat>) -> Seq<u8> {
    dec(xs[0]).push(44) + dec(xs[1]).push(44) + dec(xs[2]).push(44) + dec(xs[3])
}

/// One reef as `kind:slot`.
pub open spec fn reef_text(r: Reef) -> Seq<u8> {
    dec(r.kind as nat).push(58) + dec(r.slot as nat)
}

/// The reefs as `kind:slot,kind:slot,...`; no reef is the empty text.
pub open spec fn reefs_text(rs: Seq<Reef>) -> Seq<u8>
    decreases rs.len(),
{
    if rs.len() == 0 {
        seq![]
    } else if rs.len() == 1 {
        reef_text(rs[0])
    } else {
        reefs_text(rs.drop_last()).push(44) + reef_text(rs.last())
    }
}

/// The value written under each key, in key order.
pub open spec fn save_values(s: State, at: u64) -> Seq<Seq<u8>> {
    seq![
        dec(VERSION as nat),
        dec(at as nat),
        four_text(seq![s.population[0] as nat, s.population[1] as nat, s.population[2] as nat, s.population[3] as nat]),
        four_text(seq![s.pool[0] as nat, s.pool[1] as nat, s.pool[2] as nat, s.pool[3] as nat]),
        dec(s.nutrient as nat),
        dec(s.collectable as nat),
        dec(s.currency as nat),
        dec(s.score as nat),
        reefs_text(s.reefs@),
        dec(s.tick_count as nat),
        dec(if s.started { 1 } else { 0 }),
        dec(s.anchor_pos as nat),
    ]
}

/// Lines joined, each ended by `\n`.
pub open spec fn joined_lines(ls: Seq<Seq<u8>>) -> Seq<u8>
    decreases ls.len(),
{
    if ls.len() == 0 {
        seq![]
    } else {
        joined_lines(ls.drop_last()) + ls.last().push(10)
    }
}

/// The lines of the save of `(s, at)`, one per key, in key order.
pub open spec fn save_lines(s: State, at: u64) -> Seq<Seq<u8>> {
    Seq::new(KEYS as nat, |k: int| save_line(k, save_values(s, at)[k]))
}

/// The bytes of the save of `(s, at)`.
pub open spec fn save_bytes(s: State, at: u64) -> Seq<u8> {
    joined_lines(save_lines(s, at))
}

/// The text of the save of `(s, at)`.
pub open spec fn save_text(s: State, at: u64) -> Seq<char> {
    chars_of(save_bytes(s, at))
}

/// Appends `k=`.
fn append_key(out: &mut String, k: usize)
    requires
        k < KEYS,
    ensures
        final(out)@ == old(out)@ + chars_of(key_bytes(k as int).push(61)),
{
    if k == 0 {
        out.append("v=");
        proof {
            reveal_strlit("v=");
        }
    } else if k == 1 {
        out.append("saved_at=");
        proof {
            reveal_strlit("saved_at=");
        }
    } else if k == 2 {
        out.append("population=");
        proof {
            reveal_strlit("population=");
        }
    } else if k == 3 {
        out.append("pool=");
        proof {
            reveal_strlit("pool=");
        }
    } else if k == 4 {
        out.append("nutrient=");
        proof {
            reveal_strlit("nutrient=");
        }
    } else if k == 5 {
        out.append("collectable=");
        proof {
            reveal_strlit("collectable=");
        }
    } else if k == 6 {
        out.append("currency=");
        proof {
            reveal_strlit("currency=");
        }
    } else if k == 7 {
        out.append("score=");
        proof {
            reveal_strlit("score=");
        }
    } else if k == 8 {
        out.append("rocks=");
        proof {
            reveal_strlit("rocks=");
        }
    } else if k == 9 {
        out.append("age=");
        proof {
            reveal_strlit("age=");
        }
    } else if k == 10 {
        out.append("started=");
        proof {
            reveal_strlit("started=");
        }
    } else {
        out.append("anchor=");
        proof {
            reveal_strlit("anchor=");
        }
    }
    assert(chars_of(key_bytes(k as int).push(61)) =~= chars_of(key_bytes(k as int).push(61)));
}

/// Appends four numbers, comma-separated.
fn append_four(out: &mut String, xs: [u128; SPECIES])
    ensures
        final(out)@ == old(out)@ + chars_of(four_text(seq![xs[0] as nat, xs[1] as nat, xs[2] as nat, xs[3] as nat])),
{
    let ghost start = out@;
    append_dec(out, xs[0]);
    out.append(",");
    append_dec(out, xs[1]);
    out.append(",");
    append_dec(out, xs[2]);
    out.append(",");
    append_dec(out, xs[3]);
    proof {
        reveal_strlit(",");
        let ns = seq![xs[0] as nat, xs[1] as nat, xs[2] as nat, xs[3] as nat];
        assert(chars_of(four_text(ns)) =~= chars_of(dec(ns[0])) + seq![',']
            + chars_of(dec(ns[1])) + seq![','] + chars_of(dec(ns[2])) + seq![','] + chars_of(dec(ns[3])));
        assert(out@ =~= start + chars_of(four_text(ns)));
    }
}

/// Appends the reefs as `kind:slot,kind:slot,...`.
fn append_reefs(out: &mut String, reefs: &Vec<Reef>)
    ensures
        final(out)@ == old(out)@ + chars_of(reefs_text(reefs@)),
{
    let ghost start = out@;
    let mut i: usize = 0;
    assert(reefs@.take(0) =~= Seq::<Reef>::empty());
    while i < reefs.len()
        invariant
            i <= reefs@.len(),
            out@ == start + chars_of(reefs_text(reefs@.take(i as int))),
        decreases reefs@.len() - i,
    {
        let ghost before = out@;
        if i > 0 {
            out.append(",");
        }
        append_dec(out, reefs[i].kind as u128);
        out.append(":");
        append_dec(out, reefs[i].slot as u128);
        proof {
            reveal_strlit(",");
            reveal_strlit(":");
            let t = reefs@.take(i + 1);
            assert(t.drop_last() =~= reefs@.take(i as int));
            assert(t.last() == reefs@[i as int]);
            let r = reefs@[i as int];
            assert(chars_of(reef_text(r)) =~= chars_of(dec(r.kind as nat)) + seq![':'] + chars_of(dec(r.slot as nat)));
            if i > 0 {
                assert(chars_of(reefs_text(t)) =~= chars_of(reefs_text(reefs@.take(i as int))) + seq![','] + chars_of(reef_text(r)));
            } else {
                assert(chars_of(reefs_text(t)) =~= chars_of(reef_text(r)));
            }
            assert(out@ =~= start + chars_of(reefs_text(t)));
        }
        i += 1;
    }
    assert(reefs@.take(i as int) =~= reefs@);
}

/// The save text of `state`, stamped with the wall-clock second it was
/// written at.
pub fn serialize(state: &State, saved_at: u64) -> (text: String)
    ensures
        text@ == save_text(*state, saved_at),
{
    let mut out = String::new();
    let ghost vals = save_values(*state, saved_at);
    let ghost mut lines: Seq<Seq<u8>> = seq![];
    let mut k: usize = 0;
    while k < KEYS
        invariant
            k <= KEYS,
            vals == save_values(*state, saved_at),
            lines == save_lines(*state, saved_at).take(k as int),
            out@ == chars_of(joined_lines(lines)),
        decreases KEYS - k,
    {
        let ghost before = out@;
        append_key(&mut out, k);
        if k == 0 {
            append_dec(&mut out, VERSION as u128);
        } else if k == 1 {
            append_dec(&mut out, saved_at as u128);
        } else if k == 2 {
            append_four(&mut out, [state.population[0] as u128, state.population[1] as u128, state.population[2] as u128, state.population[3] as u128]);
        } else if k == 3 {
            append_four(&mut out, state.pool);
        } else if k == 4 {
            append_dec(&mut out, state.nutrient);
        } else if k == 5 {
            append_dec(&mut out, state.collectable);
        } else if k == 6 {
            append_dec(&mut out, state.currency);
        } else if k == 7 {
            append_dec(&mut out, state.score);
        } else if k == 8 {
            append_reefs(&mut out, &state.reefs);
        } else if k == 9 {
            append_dec(&mut out, state.tick_count as u128);
        } else if k == 10 {
            append_dec(&mut out, if state.started { 1 } else { 0 });
        } else {
            append_dec(&mut out, state.anchor_pos as u128);
        }
        out.append("\n");
        proof {
            reveal_strlit("\n");
            let line = save_line(k as int, vals[k as int]);
            assert(out@ =~= before + chars_of(line.push(10)));
            let next = lines.push(line);
            assert(next =~= save_lines(*state, saved_at).take(k + 1));
            assert(next.drop_last() =~= lines);
            assert(chars_of(joined_lines(next)) =~= chars_of(joined_lines(lines)) + chars_of(line.push(10)));
            lines = next;
        }
        k += 1;
    }
    assert(lines =~= save_lines(*state, saved_at));
    out
}

/// No line break in the text.
pub open spec fn unbroken(b: Seq<u8>) -> bool {
    forall|i: int| 0 <= i < b.len() ==> (#[trigger] b[i]) != 10 && b[i] != 13
}

/// Every byte is ASCII.
pub open spec fn ascii_bytes(b: Seq<u8>) -> bool {
    forall|i: int| 0 <= i < b.len() ==> (#[trigger] b[i]) < 128
}

proof fn lemma_digits_unbroken(d: Seq<u8>)
    requires
        all_digits(d),
    ensures
        unbroken(d),
        ascii_bytes(d),
        forall|i: int| 0 <= i < d.len() ==> (#[trigger] d[i]) != 44 && d[i] != 58 && d[i] != 61,
{
}

proof fn lemma_dec_facts(n: nat)
    ensures
        unbroken(dec(n)),
        ascii_bytes(dec(n)),
        forall|i: int| 0 <= i < dec(n).len() ==> (#[trigger] dec(n)[i]) != 44 && dec(n)[i] != 58 && dec(n)[i] != 61,
        dec(n).len() > 0,
{
    lemma_dec_round_trip(n);
    lemma_digits_unbroken(dec(n));
}

proof fn lemma_joined_front(ls: Seq<Seq<u8>>)
    requires
        ls.len() > 0,
    ensures
        joined_lines(ls) == ls[0].push(10) + joined_lines(ls.drop_first()),
    decreases ls.len(),
{
    if ls.len() == 1 {
        assert(ls.drop_first() =~= Seq::<Seq<u8>>::empty());
        assert(ls.drop_last() =~= Seq::<Seq<u8>>::empty());
        assert(joined_lines(ls.drop_last()) =~= Seq::<u8>::empty());
        assert(joined_lines(ls.drop_first()) =~= Seq::<u8>::empty());
        assert(ls.last() == ls[0]);
        assert(joined_lines(ls) =~= ls[0].push(10));
        assert(ls[0].push(10) + joined_lines(ls.drop_first()) =~= ls[0].push(10));
    } else {
        lemma_joined_front(ls.drop_last());
        assert(ls.drop_last().drop_first() =~= ls.drop_first().drop_last());
        assert(ls.drop_first().last() == ls.last());
        assert(joined_lines(ls) =~= ls[0].push(10) + joined_lines(ls.drop_first()));
    }
}

/// Reading lines back out of joined lines gives the lines.
proof fn lemma_lines_of_joined(ls: Seq<Seq<u8>>)
    requires
        forall|i: int| 0 <= i < ls.len() ==> unbroken(#[trigger] ls[i]),
    ensures
        lines_of(joined_lines(ls)) == ls,
    decreases ls.len(),
{
    if ls.len() > 0 {
        lemma_joined_front(ls);
        let l = ls[0];
        let rest = joined_lines(ls.drop_first());
        let b = l.push(10) + rest;
        assert forall|i: int| 0 <= i < ls.drop_first().len() implies unbroken(#[trigger] ls.drop_first()[i]) by {
            assert(ls.drop_first()[i] == ls[i + 1]);
        }
        lemma_lines_of_joined(ls.drop_first());
        assert(unbroken(l));
        lemma_find_byte_at(b, 10, l.len() as int);
        assert(b.take(l.len() as int) =~= l);
        assert(b.skip(l.len() as int + 1) =~= rest);
        assert(strip_cr(l) == l);
        assert(lines_of(b) =~= seq![l] + ls.drop_first());
        assert(seq![l] + ls.drop_first() =~= ls);
    } else {
        assert(joined_lines(ls) =~= Seq::<u8>::empty());
    }
}

proof fn lemma_keys_tame(k: int)
    requires
        0 <= k < KEYS,
    ensures
        unbroken(key_bytes(k)),
        forall|i: int| 0 <= i < key_bytes(k).len() ==> (#[trigger] key_bytes(k)[i]) != 61,
        key_index(key_bytes(k)) == k,
        ascii_bytes(key_bytes(k)),
{
}

/// The line `k=v` sets key `k` to `v`.
proof fn lemma_save_line(k: int, v: Seq<u8>)
    requires
        0 <= k < KEYS,
        unbroken(v),
    ensures
        line_key_index(save_line(k, v)) == k,
        line_value(save_line(k, v)) == v,
        unbroken(save_line(k, v)),
        ascii_bytes(v) ==> ascii_bytes(save_line(k, v)),
{
    lemma_keys_tame(k);
    let l = save_line(k, v);
    let n = key_bytes(k).len() as int;
    assert(l[n] == 61);
    assert forall|i: int| 0 <= i < n implies l[i] != 61 by {
        assert(l[i] == key_bytes(k)[i]);
    }
    lemma_find_byte_at(l, 61, n);
    assert(l.take(n) =~= key_bytes(k));
    assert(l.skip(n + 1) =~= v);
    assert forall|i: int| 0 <= i < l.len() implies (#[trigger] l[i]) != 10 && l[i] != 13 && (ascii_bytes(v) ==> l[i] < 128) by {
        if i < n {
            assert(l[i] == key_bytes(k)[i]);
        } else if i > n {
            assert(l[i] == v[i - n - 1]);
        }
    }
}

/// Text with no separator `c` is one piece; a piece then `c` then the rest
/// splits into that piece and the rest's pieces.
proof fn lemma_split_none(b: Seq<u8>, c: u8)
    requires
        forall|i: int| 0 <= i < b.len() ==> b[i] != c,
    ensures
        split_on(b, c) == seq![b],
{
    lemma_find_byte_at(b, c, b.len() as int);
}

proof fn lemma_split_front(a: Seq<u8>, c: u8, rest: Seq<u8>)
    requires
        forall|i: int| 0 <= i < a.len() ==> a[i] != c,
    ensures
        split_on(a.push(c) + rest, c) == seq![a] + split_on(rest, c),
{
    let b = a.push(c) + rest;
    assert forall|i: int| 0 <= i < a.len() implies b[i] != c by {
        assert(b[i] == a[i]);
    }
    lemma_find_byte_at(b, c, a.len() as int);
    assert(b.take(a.len() as int) =~= a);
    assert(b.skip(a.len() as int + 1) =~= rest);
}

proof fn lemma_split_back(a: Seq<u8>, c: u8, z: Seq<u8>)
    requires
        forall|i: int| 0 <= i < z.len() ==> z[i] != c,
    ensures
        split_on(a.push(c) + z, c) == split_on(a, c).push(z),
    decreases a.len(),
{
    let e = find_byte(a, c);
    lemma_find_byte(a, c);
    if e >= a.len() {
        lemma_split_front(a, c, z);
        lemma_split_none(z, c);
        lemma_split_none(a, c);
        assert(seq![a] + seq![z] =~= seq![a].push(z));
    } else {
        let head = a.take(e);
        let tail = a.skip(e + 1);
        assert(a =~= head.push(c) + tail);
        assert(a.push(c) + z =~= head.push(c) + (tail.push(c) + z));
        assert forall|i: int| 0 <= i < head.len() implies head[i] != c by {}
        lemma_split_front(head, c, tail.push(c) + z);
        lemma_split_front(head, c, tail);
        lemma_split_back(tail, c, z);
        assert(seq![head] + split_on(tail, c).push(z) =~= (seq![head] + split_on(tail, c)).push(z));
    }
}

proof fn lemma_four_text(xs: Seq<nat>, max: nat)
    requires
        xs.len() == 4,
        forall|i: int| 0 <= i < 4 ==> #[trigger] xs[i] <= max,
    ensures
        denotes_four(four_text(xs), max, seq![xs[0] as int, xs[1] as int, xs[2] as int, xs[3] as int]),
        unbroken(four_text(xs)),
        ascii_bytes(four_text(xs)),
{
    lemma_dec_facts(xs[0]);
    lemma_dec_facts(xs[1]);
    lemma_dec_facts(xs[2]);
    lemma_dec_facts(xs[3]);
    let (d0, d1, d2, d3) = (dec(xs[0]), dec(xs[1]), dec(xs[2]), dec(xs[3]));
    let t = four_text(xs);
    assert(t =~= d0.push(44) + (d1.push(44) + (d2.push(44) + d3)));
    lemma_split_front(d0, 44, d1.push(44) + (d2.push(44) + d3));
    lemma_split_front(d1, 44, d2.push(44) + d3);
    lemma_split_front(d2, 44, d3);
    lemma_split_none(d3, 44);
    assert(split_on(t, 44) =~= seq![d0, d1, d2, d3]);
    lemma_parse_dec(xs[0], max);
    lemma_parse_dec(xs[1], max);
    lemma_parse_dec(xs[2], max);
    lemma_parse_dec(xs[3], max);
    assert forall|i: int| 0 <= i < t.len() implies (#[trigger] t[i]) != 10 && t[i] != 13 && t[i] < 128 by {
        if i < d0.len() {
            assert(t[i] == d0[i]);
        } else if i > d0.len() && i < d0.len() + 1 + d1.len() {
            assert(t[i] == d1[i - d0.len() - 1]);
        } else if i > d0.len() + 1 + d1.len() && i < d0.len() + d1.len() + 2 + d2.len() {
            assert(t[i] == d2[i - d0.len() - d1.len() - 2]);
        } else if i > d0.len() + d1.len() + 2 + d2.len() {
            assert(t[i] == d3[i - d0.len() - d1.len() - d2.len() - 3]);
        }
    }
}

proof fn lemma_reef_text(r: Reef, nkinds: int)
    requires
        r.kind < nkinds,
        r.slot < SLOTS,
    ensures
        decode_reef(reef_text(r), nkinds) == Some(r),
        unbroken(reef_text(r)),
        ascii_bytes(reef_text(r)),
        forall|i: int| 0 <= i < reef_text(r).len() ==> (#[trigger] reef_text(r)[i]) != 44,
{
    let dk = dec(r.kind as nat);
    let ds = dec(r.slot as nat);
    lemma_dec_facts(r.kind as nat);
    lemma_dec_facts(r.slot as nat);
    let t = reef_text(r);
    assert forall|i: int| 0 <= i < dk.len() implies t[i] != 58 by {
        assert(t[i] == dk[i]);
    }
    lemma_find_byte_at(t, 58, dk.len() as int);
    assert(t.take(dk.len() as int) =~= dk);
    assert(t.skip(dk.len() as int + 1) =~= ds);
    lemma_parse_dec(r.kind as nat, u128::MAX as nat);
    lemma_parse_dec(r.slot as nat, u128::MAX as nat);
    assert forall|i: int| 0 <= i < t.len() implies (#[trigger] t[i]) != 10 && t[i] != 13 && t[i] != 44 && t[i] < 128 by {
        if i < dk.len() {
            assert(t[i] == dk[i]);
        } else if i > dk.len() {
            assert(t[i] == ds[i - dk.len() - 1]);
        }
    }
}

proof fn lemma_reefs_text(rs: Seq<Reef>, nkinds: int)
    requires
        rs.len() > 0,
        forall|i: int| 0 <= i < rs.len() ==> (#[trigger] rs[i]).kind < nkinds && rs[i].slot < SLOTS,
    ensures
        decode_reef_list(split_on(reefs_text(rs), 44), nkinds) == Some(rs),
        unbroken(reefs_text(rs)),
        ascii_bytes(reefs_text(rs)),
        reefs_text(rs).len() > 0,
    decreases rs.len(),
{
    lemma_reef_text(rs.last(), nkinds);
    if rs.len() == 1 {
        lemma_reef_text(rs[0], nkinds);
        lemma_split_none(reef_text(rs[0]), 44);
        let pieces = split_on(reef_text(rs[0]), 44);
        assert(pieces == seq![reef_text(rs[0])]);
        assert(pieces.drop_last() =~= Seq::<Seq<u8>>::empty());
        assert(decode_reef_list(pieces.drop_last(), nkinds) == Some(Seq::<Reef>::empty()));
        assert(pieces.last() == reef_text(rs[0]));
        assert(Seq::<Reef>::empty().push(rs[0]) =~= rs);
    } else {
        let front = rs.drop_last();
        assert forall|i: int| 0 <= i < front.len() implies (#[trigger] front[i]).kind < nkinds && front[i].slot < SLOTS by {
            assert(front[i] == rs[i]);
        }
        lemma_reefs_text(front, nkinds);
        lemma_split_back(reefs_text(front), 44, reef_text(rs.last()));
        let ps = split_on(reefs_text(front), 44).push(reef_text(rs.last()));
        assert(ps.drop_last() =~= split_on(reefs_text(front), 44));
        assert(front.push(rs.last()) =~= rs);
        let t = reefs_text(rs);
        let a = reefs_text(front);
        let z = reef_text(rs.last());
        assert forall|i: int| 0 <= i < t.len() implies (#[trigger] t[i]) != 10 && t[i] != 13 && t[i] < 128 by {
            if i < a.len() {
                assert(t[i] == a[i]);
            } else if i > a.len() {
                assert(t[i] == z[i - a.len() - 1]);
            }
        }
    }
}

/// A state the save format can hold: its reefs name known kinds in distinct
/// on-board slots.
pub open spec fn storable(s: State, nkinds: int) -> bool {
    &&& kinds_in_range_n(s.reefs@, nkinds)
    &&& slots_distinct(s.reefs@)
}

/// What a read gives back of a write: the bytes of the text `serialize`
/// writes for `(s, at)` are, line for line, a save of exactly that state and
/// timestamp, and of no other. So `parse` of that text, whose contract speaks
/// of these bytes, gives back every field of `s` and `at` whenever `s` is a
/// state a playthrough could have produced.
pub proof fn law_save_round_trip(s: State, at: u64, nkinds: int)
    requires
        storable(s, nkinds),
    ensures
        is_save_of(encode_utf8(save_text(s, at)), nkinds, s, at),
        forall|t: State, bt: u64| #[trigger] is_save_of(encode_utf8(save_text(s, at)), nkinds, t, bt) ==> {
            &&& t.population == s.population
            &&& t.pool == s.pool
            &&& t.nutrient == s.nutrient
            &&& t.collectable == s.collectable
            &&& t.currency == s.currency
            &&& t.score == s.score
            &&& t.reefs@ == s.reefs@
            &&& t.tick_count == s.tick_count
            &&& t.started == s.started
            &&& t.anchor_pos == s.anchor_pos
            &&& bt == at
        },
{
    let b = save_bytes(s, at);
    lemma_save_is_save(s, at, nkinds);
    assert(encode_utf8(save_text(s, at)) == b);
    assert forall|t: State, bt: u64| #[trigger] is_save_of(encode_utf8(save_text(s, at)), nkinds, t, bt) implies {
        &&& t.population == s.population
        &&& t.pool == s.pool
        &&& t.nutrient == s.nutrient
        &&& t.collectable == s.collectable
        &&& t.currency == s.currency
        &&& t.score == s.score
        &&& t.reefs@ == s.reefs@
        &&& t.tick_count == s.tick_count
        &&& t.started == s.started
        &&& t.anchor_pos == s.anchor_pos
        &&& bt == at
    } by {
        lemma_save_fields_pinned(b, nkinds, s, at, t, bt);
    }
}

/// The written bytes are ASCII and, line for line, a save of what they were
/// written from.
proof fn lemma_save_is_save(s: State, at: u64, nkinds: int)
    requires
        storable(s, nkinds),
    ensures
        is_save_of(save_bytes(s, at), nkinds, s, at),
        encode_utf8(save_text(s, at)) == save_bytes(s, at),
{
    let vals = save_values(s, at);
    let ls = save_lines(s, at);
    lemma_values_denote(s, at, nkinds);
    assert forall|k: int| 0 <= k < KEYS implies #[trigger] line_key_index(ls[k]) == k && unbroken(ls[k])
        && ascii_bytes(ls[k]) && denotes(k, line_value(ls[k]), s, at, nkinds) by {
        assert(ls[k] == save_line(k, vals[k]));
        assert(unbroken(vals[k]) && ascii_bytes(vals[k]) && denotes(k, vals[k], s, at, nkinds));
        lemma_save_line(k, vals[k]);
    }
    lemma_lines_are_save(ls, s, at, nkinds);
}

/// One line per key, in key order, each denoting its field: joined, they are
/// an ASCII save.
proof fn lemma_lines_are_save(ls: Seq<Seq<u8>>, s: State, at: u64, nkinds: int)
    requires
        ls.len() == KEYS,
        forall|k: int| 0 <= k < KEYS ==> #[trigger] line_key_index(ls[k]) == k && unbroken(ls[k])
            && ascii_bytes(ls[k]) && denotes(k, line_value(ls[k]), s, at, nkinds),
    ensures
        is_save_of(joined_lines(ls), nkinds, s, at),
        encode_utf8(chars_of(joined_lines(ls))) == joined_lines(ls),
{
    assert forall|i: int| 0 <= i < ls.len() implies ascii_bytes(#[trigger] ls[i]) && unbroken(ls[i]) by {
        assert(line_key_index(ls[i]) == i);
    }
    lemma_joined_ascii(ls);
    lemma_lines_of_joined(ls);
    lemma_key_counts(ls);
    assert forall|k: int| 0 <= k < KEYS implies #[trigger] denotes(k, value_of(ls, k), s, at, nkinds) by {
        assert(key_count(ls, k) == 1);
        assert(key_line(ls, k) == k);
        assert(line_key_index(ls[k]) == k);
    }
    assert forall|i: int| 0 <= i < ls.len() implies line_key_index(#[trigger] ls[i]) >= 0 by {
        assert(line_key_index(ls[i]) == i);
    }
    lemma_save_ascii(joined_lines(ls));
}

/// Each written value is free of line breaks, ASCII, and reads back as the
/// field it was written from.
proof fn lemma_values_denote(s: State, at: u64, nkinds: int)
    requires
        storable(s, nkinds),
    ensures
        forall|k: int| 0 <= k < KEYS ==> unbroken(#[trigger] save_values(s, at)[k]) && ascii_bytes(save_values(s, at)[k])
            && denotes(k, save_values(s, at)[k], s, at, nkinds),
{
    let vals = save_values(s, at);
    let pop = seq![s.population[0] as nat, s.population[1] as nat, s.population[2] as nat, s.population[3] as nat];
    let pool = seq![s.pool[0] as nat, s.pool[1] as nat, s.pool[2] as nat, s.pool[3] as nat];
    lemma_four_text(pop, u32::MAX as nat);
    lemma_four_text(pool, u128::MAX as nat);
    lemma_dec_facts(VERSION as nat);
    lemma_dec_facts(at as nat);
    lemma_dec_facts(s.nutrient as nat);
    lemma_dec_facts(s.collectable as nat);
    lemma_dec_facts(s.currency as nat);
    lemma_dec_facts(s.score as nat);
    lemma_dec_facts(s.tick_count as nat);
    lemma_dec_facts(if s.started { 1 } else { 0 });
    lemma_dec_facts(s.anchor_pos as nat);
    if s.reefs@.len() > 0 {
        lemma_reefs_text(s.reefs@, nkinds);
    } else {
        assert(reefs_text(s.reefs@) =~= Seq::<u8>::empty());
    }
    assert forall|k: int| 0 <= k < KEYS implies unbroken(#[trigger] vals[k]) && ascii_bytes(vals[k]) && denotes(k, vals[k], s, at, nkinds) by {
        if k == 0 {
            lemma_parse_dec(VERSION as nat, u32::MAX as nat);
        } else if k == 1 {
            lemma_parse_dec(at as nat, u64::MAX as nat);
        } else if k == 2 {
            assert(seq![pop[0] as int, pop[1] as int, pop[2] as int, pop[3] as int] =~= seq![s.population[0] as int, s.population[1] as int, s.population[2] as int, s.population[3] as int]);
        } else if k == 3 {
            assert(seq![pool[0] as int, pool[1] as int, pool[2] as int, pool[3] as int] =~= seq![s.pool[0] as int, s.pool[1] as int, s.pool[2] as int, s.pool[3] as int]);
        } else if k == 4 {
            lemma_parse_dec(s.nutrient as nat, u128::MAX as nat);
        } else if k == 5 {
            lemma_parse_dec(s.collectable as nat, u128::MAX as nat);
        } else if k == 6 {
            lemma_parse_dec(s.currency as nat, u128::MAX as nat);
        } else if k == 7 {
            lemma_parse_dec(s.score as nat, u128::MAX as nat);
        } else if k == 8 {
            if s.reefs@.len() > 0 {
                assert(decode_reef_list(split_on(reefs_text(s.reefs@), 44), nkinds) == Some(s.reefs@));
            } else {
                assert(s.reefs@ =~= Seq::<Reef>::empty());
            }
            assert(vals[8] == reefs_text(s.reefs@));
        } else if k == 9 {
            lemma_parse_dec(s.tick_count as nat, u64::MAX as nat);
        } else if k == 10 {
            assert(dec(0) =~= seq![48u8]);
            assert(dec(1) =~= seq![49u8]);
        } else {
            lemma_parse_dec(s.anchor_pos as nat, u16::MAX as nat);
        }
    }
}

proof fn lemma_key_counts(ls: Seq<Seq<u8>>)
    requires
        ls.len() == KEYS,
        forall|k: int| 0 <= k < KEYS ==> #[trigger] line_key_index(ls[k]) == k,
    ensures
        forall|k: int| 0 <= k < KEYS ==> #[trigger] key_count(ls, k) == 1 && key_line(ls, k) == k,
{
    assert forall|n: int, k: int| 0 <= n <= KEYS && 0 <= k < KEYS implies #[trigger] key_count(ls.take(n), k) == if k < n {
        1nat
    } else {
        0
    } && (k < n ==> key_line(ls.take(n), k) == k) by {
        lemma_key_count_prefix(ls, n, k);
    }
    assert(ls.take(KEYS as int) =~= ls);
    assert forall|k: int| 0 <= k < KEYS implies #[trigger] key_count(ls, k) == 1 && key_line(ls, k) == k by {
        assert(key_count(ls.take(KEYS as int), k) == 1);
    }
}

proof fn lemma_key_count_prefix(ls: Seq<Seq<u8>>, n: int, k: int)
    requires
        ls.len() == KEYS,
        forall|j: int| 0 <= j < KEYS ==> #[trigger] line_key_index(ls[j]) == j,
        0 <= n <= KEYS,
        0 <= k < KEYS,
    ensures
        key_count(ls.take(n), k) == if k < n {
            1nat
        } else {
            0
        },
        k < n ==> key_line(ls.take(n), k) == k,
    decreases n,
{
    if n > 0 {
        lemma_key_count_prefix(ls, n - 1, k);
        assert(ls.take(n).drop_last() =~= ls.take(n - 1));
        assert(ls.take(n).last() == ls[n - 1]);
    } else {
        assert(ls.take(n) =~= Seq::<Seq<u8>>::empty());
    }
}

proof fn lemma_joined_ascii(ls: Seq<Seq<u8>>)
    requires
        forall|i: int| 0 <= i < ls.len() ==> ascii_bytes(#[trigger] ls[i]),
    ensures
        ascii_bytes(joined_lines(ls)),
    decreases ls.len(),
{
    if ls.len() > 0 {
        let front = ls.drop_last();
        assert forall|i: int| 0 <= i < front.len() implies ascii_bytes(#[trigger] front[i]) by {
            assert(front[i] == ls[i]);
        }
        lemma_joined_ascii(front);
        let a = joined_lines(front);
        let z = ls.last().push(10);
        assert(ascii_bytes(ls[ls.len() - 1]));
        assert forall|i: int| 0 <= i < a.len() + z.len() implies (#[trigger] (a + z)[i]) < 128 by {
            if i < a.len() {
                assert((a + z)[i] == a[i]);
            } else {
                assert((a + z)[i] == z[i - a.len()]);
            }
        }
    }
}

/// ASCII bytes spelled as characters encode back to themselves.
proof fn lemma_save_ascii(b: Seq<u8>)
    requires
        forall|i: int| 0 <= i < b.len() ==> (#[trigger] b[i]) < 128,
    ensures
        encode_utf8(chars_of(b)) == b,
{
    let cs = chars_of(b);
    assert(is_ascii_chars(cs));
    is_ascii_chars_encode_utf8(cs);
    assert(cs.map_values(|c: char| c as u8) =~= b);
}

// ---------------------------------------------------------------------------
// Where saves live, and settling an absence.
// ---------------------------------------------------------------------------

/// Index of the last `/` in `p`, or -1 when there is none.
pub open spec fn last_slash(p: Seq<char>) -> int
    decreases p.len(),
{
    if p.len() == 0 {
        -1
    } else if p.last() == '/' {
        p.len() - 1
    } else {
        last_slash(p.drop_last())
    }
}

/// `p` with its file name (what follows the last `/`) replaced by `name`.
pub open spec fn with_file_name(p: Seq<char>, name: Seq<char>) -> Seq<char> {
    p.take(last_slash(p) + 1) + name
}

proof fn lemma_last_slash(p: Seq<char>)
    ensures
        -1 <= last_slash(p) < p.len(),
        last_slash(p) >= 0 ==> p[last_slash(p)] == '/',
        forall|i: int| last_slash(p) < i < p.len() ==> p[i] != '/',
    decreases p.len(),
{
    if p.len() > 0 && p.last() != '/' {
        let q = p.drop_last();
        lemma_last_slash(q);
        assert forall|i: int| last_slash(p) < i < p.len() implies p[i] != '/' by {
            if i < q.len() {
                assert(p[i] == q[i]);
            }
        }
    }
}

/// Which save file to use for the given time scale. Real time (scale 1) uses
/// the real save at `default_path`; any fast-forward is a throwaway test run
/// and gets its own sibling file, `save.test.txt`, so it never clobbers a
/// genuine save.
pub fn path_for(default_path: &str, time_scale: u64) -> (path: String)
    ensures
        path@ == if time_scale == 1 {
            default_path@
        } else {
            with_file_name(default_path@, "save.test.txt"@)
        },
{
    if time_scale == 1 {
        return String::from_str(default_path);
    }
    let n = default_path.unicode_len();
    let mut k: usize = n;
    while k > 0 && default_path.get_char(k - 1) != '/'
        invariant
            k <= n,
            n == default_path@.len(),
            forall|i: int| k <= i < n ==> default_path@[i] != '/',
        decreases k,
    {
        k -= 1;
    }
    proof {
        lemma_last_slash(default_path@);
        let p = default_path@;
        if k > 0 {
            assert(p[k - 1] == '/');
        }
        assert(last_slash(p) + 1 == k as int);
    }
    let mut path = String::from_str(default_path.substring_char(0, k));
    path.append("save.test.txt");
    path
}

/// The state to resume from a save of `state` written at `saved_at`, read
/// back at `now`. Before the run starts the clock does not run, so an absence
/// settles nothing; once it has started, the absence is simulated tick by
/// tick (`State::advance`), its wall-clock seconds scaled by the fast-mode
/// `time_scale` (both saturating; a clock that went backwards settles
/// nothing). Simulation stops early only at a tick that would overflow.
pub fn settle(state: State, saved_at: u64, now: u64, time_scale: u64, params: &Params) -> (s: State)
    requires
        params.tick_wf(),
        state.reefs_valid(params),
    ensures
        !state.started ==> s == state,
        state.started ==> exists|done: nat| {
            &&& done <= elapsed_ticks(saved_at, now, time_scale)
            &&& s == spec_advance(state, *params, done)
            &&& advance_fits(state, *params, done)
            &&& (done < elapsed_ticks(saved_at, now, time_scale) ==> !crate::engine::state::tick_fits(s, *params))
        },
{
    let mut state = state;
    if state.run_started() {
        let elapsed = saturating_mul_u64(now.saturating_sub(saved_at), time_scale);
        let done = state.advance_while_fits(elapsed, params);
        proof {
            assert(elapsed as nat == elapsed_ticks(saved_at, now, time_scale));
            let d = done as nat;
            assert(d <= elapsed_ticks(saved_at, now, time_scale));
        }
    }
    state
}

/// Ticks an absence from `saved_at` to `now` settles at `time_scale`: the
/// elapsed seconds (none if the clock went backwards) times the scale,
/// pinned at `u64::MAX`.
pub open spec fn elapsed_ticks(saved_at: u64, now: u64, time_scale: u64) -> nat {
    let secs: int = if now >= saved_at {
        now - saved_at
    } else {
        0
    };
    if secs * time_scale > u64::MAX {
        u64::MAX as nat
    } else {
        (secs * time_scale) as nat
    }
}

} // verus!
