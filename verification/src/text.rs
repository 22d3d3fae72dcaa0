//! Verified text utilities for the output of the external subsystem tools.
//!
//! Every monitor and query parses line-oriented tool output. The functions
//! here give that parsing an exact mathematical meaning over character
//! sequences: splitting, trimming, substring search and bounded decimal
//! parsing, each with a contract tying the executable code to a spec
//! function. Whitespace means the ASCII whitespace the tools emit.

use vstd::prelude::*;
use vstd::string::StrSliceExecFns;
use vstd::string::StringExecFns;

verus! {

/// ASCII whitespace as found in tool output.
pub open spec fn is_space(c: char) -> bool {
    c == ' ' || c == '\t' || c == '\r' || c == '\n'
}

/// Runtime test for ASCII whitespace.
pub fn is_space_char(c: char) -> (r: bool)
    ensures
        r == is_space(c),
{
    c == ' ' || c == '\t' || c == '\r' || c == '\n'
}

/// Index of the first occurrence of `c` in `s`, or -1 when absent.
pub open spec fn first_idx(s: Seq<char>, c: char) -> int
    decreases s.len(),
{
    if s.len() == 0 {
        -1
    } else if s[0] == c {
        0
    } else {
        let r = first_idx(s.skip(1), c);
        if r < 0 {
            -1
        } else {
            r + 1
        }
    }
}

pub proof fn lemma_first_idx_is(s: Seq<char>, c: char, k: int)
    requires
        0 <= k < s.len(),
        s[k] == c,
        forall|j: int| 0 <= j < k ==> s[j] != c,
    ensures
        first_idx(s, c) == k,
    decreases k,
{
    if k == 0 {
    } else {
        lemma_first_idx_is(s.skip(1), c, k - 1);
    }
}

pub proof fn lemma_first_idx_none(s: Seq<char>, c: char)
    requires
        forall|j: int| 0 <= j < s.len() ==> s[j] != c,
    ensures
        first_idx(s, c) == -1,
    decreases s.len(),
{
    if s.len() > 0 {
        lemma_first_idx_none(s.skip(1), c);
    }
}

/// The pieces of `s` between occurrences of `sep`; empty pieces are kept,
/// and a sequence without a separator is one piece.
pub open spec fn split_seq(s: Seq<char>, sep: char) -> Seq<Seq<char>>
    decreases s.len(),
{
    let k = first_idx(s, sep);
    if 0 <= k < s.len() {
        seq![s.take(k)] + split_seq(s.skip(k + 1), sep)
    } else {
        seq![s]
    }
}

/// Splits `s` at every occurrence of `sep`.
pub fn split_str(s: &str, sep: char) -> (r: Vec<String>)
    ensures
        r@.map_values(|p: String| p@) == split_seq(s@, sep),
{
    let n = s.unicode_len();
    let mut pieces: Vec<String> = Vec::new();
    let mut start: usize = 0;
    let mut j: usize = 0;
    proof {
        assert(s@.skip(0) =~= s@);
        assert(pieces@.map_values(|p: String| p@) + split_seq(s@, sep) =~= split_seq(s@, sep));
    }
    while j < n
        invariant
            start <= j <= n,
            n == s@.len(),
            split_seq(s@, sep) == pieces@.map_values(|p: String| p@) + split_seq(
                s@.skip(start as int),
                sep,
            ),
            forall|m: int| start <= m < j ==> s@[m] != sep,
        decreases n - j,
    {
        if s.get_char(j) == sep {
            let piece = s.substring_char(start, j).to_owned();
            proof {
                let tail = s@.skip(start as int);
                assert forall|m: int| 0 <= m < j - start implies tail[m] != sep by {
                    assert(tail[m] == s@[start + m]);
                }
                assert(tail[j - start] == sep);
                lemma_first_idx_is(tail, sep, j - start);
                assert(tail.take(j - start) =~= s@.subrange(start as int, j as int));
                assert(tail.skip(j - start + 1) =~= s@.skip(j + 1));
                assert(piece@ == tail.take(j - start));
                assert((pieces@.push(piece)).map_values(|p: String| p@) =~= pieces@.map_values(
                    |p: String| p@,
                ).push(piece@));
                assert(pieces@.map_values(|p: String| p@) + split_seq(tail, sep) =~= (
                pieces@.push(piece)).map_values(|p: String| p@) + split_seq(s@.skip(j + 1), sep));
            }
            pieces.push(piece);
            start = j + 1;
        }
        j = j + 1;
    }
    let last = s.substring_char(start, n).to_owned();
    proof {
        let tail = s@.skip(start as int);
        assert forall|m: int| 0 <= m < tail.len() implies tail[m] != sep by {
            assert(tail[m] == s@[start + m]);
        }
        lemma_first_idx_none(tail, sep);
        assert(last@ =~= tail);
        assert(split_seq(tail, sep) =~= seq![last@]);
        assert((pieces@.push(last)).map_values(|p: String| p@) =~= pieces@.map_values(
            |p: String| p@,
        ).push(last@));
        assert(pieces@.map_values(|p: String| p@) + seq![last@] =~= (pieces@.push(
            last,
        )).map_values(|p: String| p@));
    }
    pieces.push(last);
    pieces
}

/// A line with a trailing carriage return loses it.
pub open spec fn strip_cr(x: Seq<char>) -> Seq<char> {
    if x.len() > 0 && x.last() == '\r' {
        x.drop_last()
    } else {
        x
    }
}

/// The lines of `s`: pieces between newlines, without a final empty piece,
/// each without a trailing carriage return.
pub open spec fn lines_seq(s: Seq<char>) -> Seq<Seq<char>> {
    let p = split_seq(s, '\n');
    let q = if p.len() > 0 && p.last().len() == 0 {
        p.drop_last()
    } else {
        p
    };
    q.map_values(|x: Seq<char>| strip_cr(x))
}

/// Splits `s` into lines.
pub fn lines(s: &str) -> (r: Vec<String>)
    ensures
        r@.map_values(|p: String| p@) == lines_seq(s@),
{
    let mut pieces = split_str(s, '\n');
    let ghost p = pieces@.map_values(|p: String| p@);
    if pieces.len() > 0 && pieces[pieces.len() - 1].unicode_len() == 0 {
        proof {
            assert(p.last().len() == 0);
        }
        pieces.pop();
        proof {
            assert(pieces@.map_values(|q: String| q@) =~= p.drop_last());
        }
    } else {
        proof {
            if p.len() > 0 {
                assert(p.last() == pieces@.last()@);
            }
        }
    }
    let ghost q = pieces@.map_values(|x: String| x@);
    let mut out: Vec<String> = Vec::new();
    let mut i: usize = 0;
    while i < pieces.len()
        invariant
            i <= pieces@.len(),
            q == pieces@.map_values(|x: String| x@),
            out@.map_values(|x: String| x@) == q.take(i as int).map_values(
                |x: Seq<char>| strip_cr(x),
            ),
        decreases pieces@.len() - i,
    {
        let piece = &pieces[i];
        let len = piece.unicode_len();
        let stripped = if len > 0 && piece.get_char(len - 1) == '\r' {
            piece.substring_char(0, len - 1).to_owned()
        } else {
            piece.clone()
        };
        proof {
            assert(piece@.drop_last() =~= piece@.subrange(0, piece@.len() - 1));
            assert(stripped@ == strip_cr(q[i as int]));
            assert((out@.push(stripped)).map_values(|x: String| x@) =~= out@.map_values(
                |x: String| x@,
            ).push(stripped@));
            assert(q.take(i + 1).map_values(|x: Seq<char>| strip_cr(x)) =~= q.take(
                i as int,
            ).map_values(|x: Seq<char>| strip_cr(x)).push(strip_cr(q[i as int])));
        }
        out.push(stripped);
        i = i + 1;
    }
    proof {
        assert(q.take(q.len() as int) =~= q);
    }
    out
}

/// `s` without its longest prefix of characters satisfying `p`.
pub open spec fn drop_while(s: Seq<char>, p: spec_fn(char) -> bool) -> Seq<char>
    decreases s.len(),
{
    if s.len() > 0 && p(s[0]) {
        drop_while(s.skip(1), p)
    } else {
        s
    }
}

/// `s` without its longest suffix of characters satisfying `p`.
pub open spec fn drop_while_end(s: Seq<char>, p: spec_fn(char) -> bool) -> Seq<char>
    decreases s.len(),
{
    if s.len() > 0 && p(s.last()) {
        drop_while_end(s.drop_last(), p)
    } else {
        s
    }
}

pub proof fn lemma_drop_while_is(s: Seq<char>, p: spec_fn(char) -> bool, a: int)
    requires
        0 <= a <= s.len(),
        forall|j: int| 0 <= j < a ==> p(s[j]),
        a < s.len() ==> !p(s[a]),
    ensures
        drop_while(s, p) == s.skip(a),
    decreases a,
{
    if a == 0 {
        assert(s.skip(0) =~= s);
    } else {
        lemma_drop_while_is(s.skip(1), p, a - 1);
        assert(s.skip(1).skip(a - 1) =~= s.skip(a));
    }
}

pub proof fn lemma_drop_while_end_is(s: Seq<char>, p: spec_fn(char) -> bool, b: int)
    requires
        0 <= b <= s.len(),
        forall|j: int| b <= j < s.len() ==> p(s[j]),
        b > 0 ==> !p(s[b - 1]),
    ensures
        drop_while_end(s, p) == s.take(b),
    decreases s.len() - b,
{
    if b == s.len() {
        assert(s.take(b) =~= s);
    } else {
        lemma_drop_while_end_is(s.drop_last(), p, b);
        assert(s.drop_last().take(b) =~= s.take(b));
    }
}

/// `s` without leading and trailing ASCII whitespace.
pub open spec fn trim_seq(s: Seq<char>) -> Seq<char> {
    drop_while_end(drop_while(s, |c: char| is_space(c)), |c: char| is_space(c))
}

/// Trims ASCII whitespace from both ends.
pub fn trim_str(s: &str) -> (r: String)
    ensures
        r@ == trim_seq(s@),
{
    let n = s.unicode_len();
    let mut a: usize = 0;
    while a < n && is_space_char(s.get_char(a))
        invariant
            a <= n,
            n == s@.len(),
            forall|j: int| 0 <= j < a ==> is_space(s@[j]),
        decreases n - a,
    {
        a = a + 1;
    }
    let mut b: usize = n;
    while b > a && is_space_char(s.get_char(b - 1))
        invariant
            a <= b <= n,
            n == s@.len(),
            forall|j: int| 0 <= j < a ==> is_space(s@[j]),
            forall|j: int| b <= j < n ==> is_space(s@[j]),
        decreases b,
    {
        b = b - 1;
    }
    let r = s.substring_char(a, b).to_owned();
    proof {
        let sp = |c: char| is_space(c);
        lemma_drop_while_is(s@, sp, a as int);
        let t = s@.skip(a as int);
        assert forall|j: int| (b - a) <= j < t.len() implies sp(t[j]) by {
            assert(t[j] == s@[a + j]);
        }
        if b > a {
            assert(t[b - a - 1] == s@[b - 1]);
        }
        lemma_drop_while_end_is(t, sp, b - a);
        assert(t.take(b - a) =~= s@.subrange(a as int, b as int));
    }
    r
}

/// `s` without every leading occurrence of `c`.
pub fn strip_leading_char(s: &str, c: char) -> (r: String)
    ensures
        r@ == drop_while(s@, |x: char| x == c),
{
    let n = s.unicode_len();
    let mut a: usize = 0;
    while a < n && s.get_char(a) == c
        invariant
            a <= n,
            n == s@.len(),
            forall|j: int| 0 <= j < a ==> s@[j] == c,
        decreases n - a,
    {
        a = a + 1;
    }
    let r = s.substring_char(a, n).to_owned();
    proof {
        lemma_drop_while_is(s@, |x: char| x == c, a as int);
        assert(s@.subrange(a as int, n as int) =~= s@.skip(a as int));
    }
    r
}

/// `s` without every trailing occurrence of `c`.
pub fn strip_trailing_char(s: &str, c: char) -> (r: String)
    ensures
        r@ == drop_while_end(s@, |x: char| x == c),
{
    let n = s.unicode_len();
    let mut b: usize = n;
    while b > 0 && s.get_char(b - 1) == c
        invariant
            b <= n,
            n == s@.len(),
            forall|j: int| b <= j < n ==> s@[j] == c,
        decreases b,
    {
        b = b - 1;
    }
    let r = s.substring_char(0, b).to_owned();
    proof {
        lemma_drop_while_end_is(s@, |x: char| x == c, b as int);
        assert(s@.subrange(0, b as int) =~= s@.take(b as int));
    }
    r
}

/// The needle `n` occurs in `h` at position `i`.
pub open spec fn contains_at(h: Seq<char>, n: Seq<char>, i: int) -> bool {
    0 <= i && i + n.len() <= h.len() && h.subrange(i, i + n.len()) == n
}

/// The needle `n` occurs somewhere in `h`.
pub open spec fn contains_seq(h: Seq<char>, n: Seq<char>) -> bool {
    exists|i: int| contains_at(h, n, i)
}

/// Substring search: whether `needle` occurs in `hay`.
pub fn contains_str(hay: &str, needle: &str) -> (r: bool)
    ensures
        r == contains_seq(hay@, needle@),
{
    let hn = hay.unicode_len();
    let nn = needle.unicode_len();
    if nn > hn {
        proof {
            assert forall|i: int| !contains_at(hay@, needle@, i) by {}
        }
        return false;
    }
    if nn == 0 {
        proof {
            assert(hay@.subrange(0, 0) =~= needle@);
            assert(contains_at(hay@, needle@, 0));
        }
        return true;
    }
    let mut i: usize = 0;
    while i < hn - nn + 1
        invariant
            1 <= nn <= hn,
            hn == hay@.len(),
            nn == needle@.len(),
            i <= hn - nn + 1,
            forall|m: int| 0 <= m < i ==> !contains_at(hay@, needle@, m),
        decreases hn - nn + 1 - i,
    {
        let mut j: usize = 0;
        let mut matched = true;
        while j < nn && matched
            invariant
                matched ==> forall|m: int| 0 <= m < j ==> hay@[i + m] == needle@[m],
                !matched ==> hay@.subrange(i as int, i + nn) != needle@,
                j <= nn,
                i + nn <= hn,
                hn == hay@.len(),
                nn == needle@.len(),
            decreases nn - j,
        {
            if hay.get_char(i + j) != needle.get_char(j) {
                proof {
                    assert(hay@.subrange(i as int, i + nn)[j as int] == hay@[i + j]);
                }
                matched = false;
            }
            j = j + 1;
        }
        if matched {
            proof {
                assert(hay@.subrange(i as int, i + nn) =~= needle@);
                assert(contains_at(hay@, needle@, i as int));
            }
            return true;
        }
        proof {
            assert(!contains_at(hay@, needle@, i as int));
        }
        i = i + 1;
    }
    proof {
        assert forall|m: int| !contains_at(hay@, needle@, m) by {
            if 0 <= m <= hn - nn {
                assert(!contains_at(hay@, needle@, m));
            }
        }
    }
    false
}

/// A decimal digit.
pub open spec fn is_digit(c: char) -> bool {
    '0' <= c && c <= '9'
}

pub open spec fn all_digits(s: Seq<char>) -> bool {
    forall|j: int| 0 <= j < s.len() ==> is_digit(#[trigger] s[j])
}

/// Value of a decimal digit; 0 for any other character.
pub open spec fn digit_of(c: char) -> nat {
    if is_digit(c) {
        (c as nat - '0' as nat) as nat
    } else {
        0
    }
}

/// Value of a digit sequence read as a decimal numeral.
pub open spec fn digits_val(s: Seq<char>) -> nat
    decreases s.len(),
{
    if s.len() == 0 {
        0
    } else {
        digits_val(s.drop_last()) * 10 + digit_of(s.last())
    }
}

/// The parse-or-zero convention for the tools' numeric fields: the
/// numeral's value when `s` is a nonempty string of decimal digits whose
/// value fits, otherwise 0 (no sign, no spaces, nothing else).
pub open spec fn parse_u32_or_zero(s: Seq<char>) -> u32 {
    if s.len() > 0 && all_digits(s) && digits_val(s) <= u32::MAX {
        digits_val(s) as u32
    } else {
        0u32
    }
}

/// The same convention for a value that must fit a u8.
pub open spec fn parse_u8_or_zero(s: Seq<char>) -> u8 {
    if s.len() > 0 && all_digits(s) && digits_val(s) <= u8::MAX {
        digits_val(s) as u8
    } else {
        0u8
    }
}

/// A longer digit prefix never has a smaller value.
pub proof fn lemma_digits_val_monotone(s: Seq<char>, j: int)
    requires
        0 <= j <= s.len(),
        all_digits(s),
    ensures
        digits_val(s.take(j)) <= digits_val(s),
    decreases s.len(),
{
    if j < s.len() {
        assert(s.drop_last().take(j) =~= s.take(j));
        assert(all_digits(s.drop_last())) by {
            assert(forall|m: int|
                0 <= m < s.len() - 1 ==> #[trigger] s.drop_last()[m] == s[m]);
        }
        lemma_digits_val_monotone(s.drop_last(), j);
    } else {
        assert(s.take(j) =~= s);
    }
}

/// Decimal parsing with the tools' failure convention: anything that is not
/// a plain in-range numeral is 0.
pub fn parse_u32_str(s: &str) -> (r: u32)
    ensures
        r == parse_u32_or_zero(s@),
{
    let n = s.unicode_len();
    if n == 0 {
        return 0;
    }
    let mut acc: u64 = 0;
    let mut j: usize = 0;
    while j < n
        invariant
            j <= n,
            n == s@.len(),
            n > 0,
            acc == digits_val(s@.take(j as int)),
            acc <= u32::MAX,
            forall|m: int| 0 <= m < j ==> is_digit(#[trigger] s@[m]),
        decreases n - j,
    {
        let c = s.get_char(j);
        if c < '0' || c > '9' {
            proof {
                assert(!is_digit(s@[j as int]));
                assert(!all_digits(s@));
            }
            return 0;
        }
        let d: u64 = (c as u32 as u64) - 48;
        let next: u64 = acc * 10 + d;
        proof {
            assert(s@.take(j + 1).drop_last() =~= s@.take(j as int));
            assert(s@.take(j + 1).last() == s@[j as int]);
        }
        if next > 0xffff_ffff {
            proof {
                assert(digits_val(s@.take(j + 1)) > u32::MAX);
                if all_digits(s@) {
                    lemma_digits_val_monotone(s@, j + 1);
                }
            }
            return 0;
        }
        acc = next;
        j = j + 1;
    }
    proof {
        assert(s@.take(n as int) =~= s@);
    }
    acc as u32
}

/// Likewise for a value that must fit a u8.
pub fn parse_u8_str(s: &str) -> (r: u8)
    ensures
        r == parse_u8_or_zero(s@),
{
    let v = parse_u32_str(s);
    if v <= 255 {
        v as u8
    } else {
        0
    }
}

/// `s` without its occurrences of `c`, order kept.
pub open spec fn remove_seq(s: Seq<char>, c: char) -> Seq<char>
    decreases s.len(),
{
    if s.len() == 0 {
        Seq::empty()
    } else if s.last() == c {
        remove_seq(s.drop_last(), c)
    } else {
        remove_seq(s.drop_last(), c).push(s.last())
    }
}

/// `s` with every occurrence of `c` removed.
pub fn remove_char(s: &str, c: char) -> (r: String)
    ensures
        r@ == remove_seq(s@, c),
{
    let n = s.unicode_len();
    let mut acc = String::new();
    let mut j: usize = 0;
    while j < n
        invariant
            j <= n,
            n == s@.len(),
            acc@ == remove_seq(s@.take(j as int), c),
        decreases n - j,
    {
        proof {
            assert(s@.take(j + 1).drop_last() =~= s@.take(j as int));
            assert(s@.take(j + 1).last() == s@[j as int]);
        }
        if s.get_char(j) != c {
            let piece = s.substring_char(j, j + 1);
            proof {
                assert(piece@ =~= seq![s@[j as int]]);
                assert(acc@ + piece@ =~= remove_seq(s@.take(j + 1), c));
            }
            acc.append(piece);
        }
        j = j + 1;
    }
    proof {
        assert(s@.take(n as int) =~= s@);
    }
    acc
}

/// The elements from `from` on, joined with single spaces.
pub open spec fn join_space(parts: Seq<Seq<char>>) -> Seq<char>
    decreases parts.len(),
{
    if parts.len() == 0 {
        Seq::empty()
    } else if parts.len() == 1 {
        parts[0]
    } else {
        join_space(parts.drop_last()) + seq![' '] + parts.last()
    }
}

/// Joins `parts[from..]` with single spaces.
pub fn join_from(parts: &Vec<String>, from: usize) -> (r: String)
    requires
        from <= parts@.len(),
    ensures
        r@ == join_space(parts@.map_values(|p: String| p@).skip(from as int)),
{
    let ghost views = parts@.map_values(|p: String| p@);
    let mut acc = String::new();
    let mut i: usize = from;
    while i < parts.len()
        invariant
            from <= i <= parts@.len(),
            views == parts@.map_values(|p: String| p@),
            acc@ == join_space(views.subrange(from as int, i as int)),
        decreases parts@.len() - i,
    {
        proof {
            assert(views.subrange(from as int, i + 1).drop_last() =~= views.subrange(
                from as int,
                i as int,
            ));
            assert(views.subrange(from as int, i + 1).last() == views[i as int]);
        }
        if i > from {
            acc.append(" ");
        }
        acc.append(parts[i].as_str());
        proof {
            reveal_strlit(" ");
            if i == from {
                assert(views.subrange(from as int, from as int) =~= Seq::<Seq<char>>::empty());
                assert(acc@ =~= join_space(views.subrange(from as int, i + 1)));
            } else {
                assert(" "@ =~= seq![' ']);
                assert(acc@ =~= join_space(views.subrange(from as int, i + 1)));
            }
        }
        i = i + 1;
    }
    proof {
        assert(views.subrange(from as int, views.len() as int) =~= views.skip(from as int));
    }
    acc
}

/// Index of the first ASCII whitespace character, or -1 when there is none.
pub open spec fn first_space_idx(s: Seq<char>) -> int
    decreases s.len(),
{
    if s.len() == 0 {
        -1
    } else if is_space(s[0]) {
        0
    } else {
        let r = first_space_idx(s.skip(1));
        if r < 0 {
            -1
        } else {
            r + 1
        }
    }
}

pub proof fn lemma_first_space_idx_is(s: Seq<char>, k: int)
    requires
        0 <= k < s.len(),
        is_space(s[k]),
        forall|j: int| 0 <= j < k ==> !is_space(s[j]),
    ensures
        first_space_idx(s) == k,
    decreases k,
{
    if k > 0 {
        lemma_first_space_idx_is(s.skip(1), k - 1);
    }
}

pub proof fn lemma_first_space_idx_none(s: Seq<char>)
    requires
        forall|j: int| 0 <= j < s.len() ==> !is_space(s[j]),
    ensures
        first_space_idx(s) == -1,
    decreases s.len(),
{
    if s.len() > 0 {
        lemma_first_space_idx_none(s.skip(1));
    }
}

/// The maximal runs of non-whitespace characters in `s`, in order.
pub open spec fn tokens_seq(s: Seq<char>) -> Seq<Seq<char>>
    decreases s.len(),
{
    if s.len() == 0 {
        Seq::empty()
    } else if is_space(s[0]) {
        tokens_seq(s.skip(1))
    } else {
        let k = first_space_idx(s);
        if 1 <= k < s.len() {
            seq![s.take(k)] + tokens_seq(s.skip(k))
        } else {
            seq![s]
        }
    }
}

/// Splits `s` into whitespace-separated tokens.
pub fn tokens(s: &str) -> (r: Vec<String>)
    ensures
        r@.map_values(|p: String| p@) == tokens_seq(s@),
{
    let n = s.unicode_len();
    let mut out: Vec<String> = Vec::new();
    let mut i: usize = 0;
    proof {
        assert(s@.skip(0) =~= s@);
        assert(out@.map_values(|p: String| p@) + tokens_seq(s@) =~= tokens_seq(s@));
    }
    while i < n
        invariant
            i <= n,
            n == s@.len(),
            tokens_seq(s@) == out@.map_values(|p: String| p@) + tokens_seq(s@.skip(i as int)),
        decreases n - i,
    {
        proof {
            assert(s@.skip(i as int)[0] == s@[i as int]);
            assert(s@.skip(i as int).skip(1) =~= s@.skip(i + 1));
        }
        if is_space_char(s.get_char(i)) {
            i = i + 1;
        } else {
            let start = i;
            let mut j = i + 1;
            while j < n && !is_space_char(s.get_char(j))
                invariant
                    start < j <= n,
                    n == s@.len(),
                    !is_space(s@[start as int]),
                    forall|m: int| start <= m < j ==> !is_space(s@[m]),
                decreases n - j,
            {
                j = j + 1;
            }
            let tok = s.substring_char(start, j).to_owned();
            proof {
                let tail = s@.skip(start as int);
                assert forall|m: int| 0 <= m < j - start implies !is_space(tail[m]) by {
                    assert(tail[m] == s@[start + m]);
                }
                if j < n {
                    assert(tail[j - start] == s@[j as int]);
                    lemma_first_space_idx_is(tail, j - start);
                    assert(tail.take(j - start) =~= s@.subrange(start as int, j as int));
                    assert(tail.skip(j - start) =~= s@.skip(j as int));
                    assert(tokens_seq(tail) == seq![tok@] + tokens_seq(s@.skip(j as int)));
                } else {
                    lemma_first_space_idx_none(tail);
                    assert(tok@ =~= tail);
                    assert(tokens_seq(tail) =~= seq![tok@]);
                    assert(tokens_seq(s@.skip(j as int)) =~= Seq::<Seq<char>>::empty());
                }
                assert((out@.push(tok)).map_values(|p: String| p@) =~= out@.map_values(
                    |p: String| p@,
                ).push(tok@));
                assert(out@.map_values(|p: String| p@) + tokens_seq(tail) =~= (out@.push(
                    tok,
                )).map_values(|p: String| p@) + tokens_seq(s@.skip(j as int)));
            }
            out.push(tok);
            i = j;
        }
    }
    proof {
        assert(s@.skip(n as int) =~= Seq::<char>::empty());
        assert(out@.map_values(|p: String| p@) + tokens_seq(s@.skip(n as int)) =~= out@.map_values(
            |p: String| p@,
        ));
    }
    out
}

} // verus!
