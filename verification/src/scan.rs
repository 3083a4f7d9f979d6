//! Character-level scanning for line-oriented scripts: cutting lines the way
//! `str::lines` does, splitting on Unicode whitespace the way
//! `str::split_whitespace` does, and trimming.

use vstd::prelude::*;
use vstd::string::StrSliceExecFns;

verus! {

/// Unicode `White_Space`, as `char::is_whitespace` reads it.
pub open spec fn is_ws(c: char) -> bool {
    let u = c as u32;
    (9 <= u <= 13) || u == 32 || u == 0x85 || u == 0xA0 || u == 0x1680 || (0x2000 <= u <= 0x200A)
        || u == 0x2028 || u == 0x2029 || u == 0x202F || u == 0x205F || u == 0x3000
}

pub fn is_ws_char(c: char) -> (b: bool)
    ensures
        b == is_ws(c),
{
    let u = c as u32;
    (9 <= u && u <= 13) || u == 32 || u == 0x85 || u == 0xA0 || u == 0x1680 || (0x2000 <= u && u
        <= 0x200A) || u == 0x2028 || u == 0x2029 || u == 0x202F || u == 0x205F || u == 0x3000
}

/// Index of the first `c` in `s`, or `s.len()` when there is none.
pub open spec fn find_char(s: Seq<char>, c: char) -> int
    decreases s.len(),
{
    if s.len() == 0 {
        0
    } else if s[0] == c {
        0
    } else {
        1 + find_char(s.drop_first(), c)
    }
}

pub proof fn lemma_find_char(s: Seq<char>, c: char)
    ensures
        0 <= find_char(s, c) <= s.len(),
        find_char(s, c) < s.len() ==> s[find_char(s, c)] == c,
        forall|i: int| 0 <= i < find_char(s, c) ==> s[i] != c,
    decreases s.len(),
{
    if s.len() > 0 && s[0] != c {
        lemma_find_char(s.drop_first(), c);
        assert forall|i: int| 0 <= i < find_char(s, c) implies s[i] != c by {
            if i > 0 {
                assert(s[i] == s.drop_first()[i - 1]);
            }
        }
    }
}

/// `find_char` is pinned by the two facts that define it.
pub proof fn lemma_find_char_at(s: Seq<char>, c: char, k: int)
    requires
        0 <= k <= s.len(),
        k < s.len() ==> s[k] == c,
        forall|i: int| 0 <= i < k ==> s[i] != c,
    ensures
        find_char(s, c) == k,
{
    lemma_find_char(s, c);
    let f = find_char(s, c);
    if f < k {
        assert(s[f] == c);
    } else if k < f {
        assert(s[k] != c);
    }
}

/// A line without the carriage return of a `\r\n` ending.
pub open spec fn strip_cr_c(l: Seq<char>) -> Seq<char> {
    if l.len() > 0 && l.last() == '\r' {
        l.drop_last()
    } else {
        l
    }
}

/// The lines of a text, as `str::lines` cuts them: at `\n` or `\r\n`, with the
/// final line ending optional.
pub open spec fn text_lines(t: Seq<char>) -> Seq<Seq<char>>
    decreases t.len(),
{
    if t.len() == 0 {
        seq![]
    } else {
        let e = find_char(t, '\n');
        if e >= t.len() {
            seq![t]
        } else {
            proof {
                lemma_find_char(t, '\n');
            }
            seq![strip_cr_c(t.take(e))] + text_lines(t.skip(e + 1))
        }
    }
}

/// Length of the leading run of non-whitespace characters.
pub open spec fn word_len(s: Seq<char>) -> int
    decreases s.len(),
{
    if s.len() == 0 || is_ws(s[0]) {
        0
    } else {
        1 + word_len(s.drop_first())
    }
}

pub proof fn lemma_word_len(s: Seq<char>)
    ensures
        0 <= word_len(s) <= s.len(),
        word_len(s) < s.len() ==> is_ws(s[word_len(s)]),
        forall|i: int| 0 <= i < word_len(s) ==> !is_ws(s[i]),
    decreases s.len(),
{
    if s.len() > 0 && !is_ws(s[0]) {
        lemma_word_len(s.drop_first());
        assert forall|i: int| 0 <= i < word_len(s) implies !is_ws(s[i]) by {
            if i > 0 {
                assert(s[i] == s.drop_first()[i - 1]);
            }
        }
    }
}

pub proof fn lemma_word_len_at(s: Seq<char>, k: int)
    requires
        0 <= k <= s.len(),
        k < s.len() ==> is_ws(s[k]),
        forall|i: int| 0 <= i < k ==> !is_ws(s[i]),
    ensures
        word_len(s) == k,
{
    lemma_word_len(s);
    let f = word_len(s);
    if f < k {
        assert(!is_ws(s[f]));
    } else if k < f {
        assert(is_ws(s[k]));
    }
}

/// The words of `s`, as `str::split_whitespace` yields them: the maximal runs
/// of non-whitespace characters, in order.
pub open spec fn words(s: Seq<char>) -> Seq<Seq<char>>
    decreases s.len(),
{
    if s.len() == 0 {
        seq![]
    } else if is_ws(s[0]) {
        words(s.drop_first())
    } else {
        let k = word_len(s);
        proof {
            lemma_word_len(s);
        }
        seq![s.take(k)] + words(s.skip(k))
    }
}

/// `s` without its leading and trailing whitespace, as `str::trim` gives it.
pub open spec fn trimmed(s: Seq<char>) -> Seq<char>
    decreases s.len(),
{
    if s.len() == 0 {
        s
    } else if is_ws(s[0]) {
        trimmed(s.drop_first())
    } else if is_ws(s.last()) {
        trimmed(s.drop_last())
    } else {
        s
    }
}

/// The characters of `text`, one by one.
pub fn chars_vec(text: &str) -> (cs: Vec<char>)
    ensures
        cs@ == text@,
{
    let n = text.unicode_len();
    let mut cs: Vec<char> = Vec::new();
    let mut i: usize = 0;
    while i < n
        invariant
            n == text@.len(),
            i <= n,
            cs@ == text@.take(i as int),
        decreases n - i,
    {
        cs.push(text.get_char(i));
        assert(text@.take(i + 1) =~= text@.take(i as int).push(text@[i as int]));
        i += 1;
    }
    assert(text@.take(n as int) =~= text@);
    cs
}

/// Index of the first `c` in `cs[lo..hi]`, or `hi` when there is none.
pub fn find_char_in(cs: &Vec<char>, lo: usize, hi: usize, c: char) -> (k: usize)
    requires
        lo <= hi <= cs@.len(),
    ensures
        k == lo + find_char(cs@.subrange(lo as int, hi as int), c),
        lo <= k <= hi,
{
    let mut k = lo;
    while k < hi && cs[k] != c
        invariant
            lo <= k <= hi <= cs@.len(),
            forall|i: int| lo <= i < k ==> cs@[i] != c,
        decreases hi - k,
    {
        k += 1;
    }
    proof {
        lemma_find_char_at(cs@.subrange(lo as int, hi as int), c, k - lo);
    }
    k
}

/// The words of `cs[lo..hi]`, as index ranges into `cs`.
pub fn word_ranges(cs: &Vec<char>, lo: usize, hi: usize) -> (ws: Vec<(usize, usize)>)
    requires
        lo <= hi <= cs@.len(),
    ensures
        ws@.len() == words(cs@.subrange(lo as int, hi as int)).len(),
        forall|j: int|
            0 <= j < ws@.len() ==> {
                &&& lo <= (#[trigger] ws@[j]).0 <= ws@[j].1 <= hi
                &&& cs@.subrange(ws@[j].0 as int, ws@[j].1 as int) == words(
                    cs@.subrange(lo as int, hi as int),
                )[j]
            },
{
    let ghost all = words(cs@.subrange(lo as int, hi as int));
    let mut ws: Vec<(usize, usize)> = Vec::new();
    let mut q = lo;
    while q < hi
        invariant
            lo <= q <= hi <= cs@.len(),
            all == words(cs@.subrange(lo as int, hi as int)),
            all == ws@.map_values(|r: (usize, usize)| cs@.subrange(r.0 as int, r.1 as int)) + words(
                cs@.subrange(q as int, hi as int),
            ),
            forall|j: int| 0 <= j < ws@.len() ==> lo <= (#[trigger] ws@[j]).0 <= ws@[j].1 <= q,
        decreases hi - q,
    {
        let ghost rest = cs@.subrange(q as int, hi as int);
        let ghost before = ws@.map_values(|r: (usize, usize)| cs@.subrange(r.0 as int, r.1 as int));
        if is_ws_char(cs[q]) {
            assert(rest.drop_first() =~= cs@.subrange(q + 1, hi as int));
            q += 1;
        } else {
            let mut e = q;
            while e < hi && !is_ws_char(cs[e])
                invariant
                    q <= e <= hi <= cs@.len(),
                    forall|i: int| q <= i < e ==> !is_ws(cs@[i]),
                decreases hi - e,
            {
                e += 1;
            }
            proof {
                lemma_word_len_at(rest, e - q);
                assert(rest.take(e - q) =~= cs@.subrange(q as int, e as int));
                assert(rest.skip(e - q) =~= cs@.subrange(e as int, hi as int));
            }
            ws.push((q, e));
            proof {
                let after = ws@.map_values(|r: (usize, usize)| cs@.subrange(r.0 as int, r.1 as int));
                assert(after =~= before.push(cs@.subrange(q as int, e as int)));
                assert(before + words(rest) =~= after + words(cs@.subrange(e as int, hi as int)));
            }
            q = e;
        }
    }
    proof {
        assert(words(cs@.subrange(q as int, hi as int)) =~= Seq::<Seq<char>>::empty());
        let m = ws@.map_values(|r: (usize, usize)| cs@.subrange(r.0 as int, r.1 as int));
        assert(all =~= m);
        assert forall|j: int| 0 <= j < ws@.len() implies cs@.subrange(
            (#[trigger] ws@[j]).0 as int,
            ws@[j].1 as int,
        ) == all[j] by {
            assert(m[j] == cs@.subrange(ws@[j].0 as int, ws@[j].1 as int));
        }
    }
    ws
}

/// `cs[lo..hi]` without its leading and trailing whitespace, as a range.
pub fn trim_range(cs: &Vec<char>, lo: usize, hi: usize) -> (r: (usize, usize))
    requires
        lo <= hi <= cs@.len(),
    ensures
        lo <= r.0 <= r.1 <= hi,
        cs@.subrange(r.0 as int, r.1 as int) == trimmed(cs@.subrange(lo as int, hi as int)),
{
    let mut a = lo;
    let mut b = hi;
    while a < b && (is_ws_char(cs[a]) || is_ws_char(cs[b - 1]))
        invariant
            lo <= a <= b <= hi <= cs@.len(),
            trimmed(cs@.subrange(a as int, b as int)) == trimmed(cs@.subrange(lo as int, hi as int)),
        decreases b - a,
    {
        let ghost s = cs@.subrange(a as int, b as int);
        if is_ws_char(cs[a]) {
            assert(s.drop_first() =~= cs@.subrange(a + 1, b as int));
            a += 1;
        } else {
            assert(s.drop_last() =~= cs@.subrange(a as int, b - 1));
            b -= 1;
        }
    }
    (a, b)
}

} // verus!
