//! Splitting and comparing text by characters.
use vstd::prelude::*;
use vstd::string::*;

verus! {

/// `s` cut at each occurrence of `sep`, scanning from the left; an empty
/// separator does not cut.
pub open spec fn split(s: Seq<char>, sep: Seq<char>) -> Seq<Seq<char>>
    decreases s.len(),
{
    if sep.len() == 0 || s.len() < sep.len() {
        seq![s]
    } else if s.subrange(0, sep.len() as int) == sep {
        seq![Seq::<char>::empty()] + split(s.subrange(sep.len() as int, s.len() as int), sep)
    } else {
        let r = split(s.subrange(1, s.len() as int), sep);
        r.update(0, seq![s[0]] + r[0])
    }
}

/// `r` with `cur` put in front of its first piece.
pub open spec fn prepend(cur: Seq<char>, r: Seq<Seq<char>>) -> Seq<Seq<char>> {
    r.update(0, cur + r[0])
}

pub proof fn lemma_split_nonempty(s: Seq<char>, sep: Seq<char>)
    ensures
        split(s, sep).len() >= 1,
    decreases s.len(),
{
    if sep.len() == 0 || s.len() < sep.len() {
    } else if s.subrange(0, sep.len() as int) == sep {
        lemma_split_nonempty(s.subrange(sep.len() as int, s.len() as int), sep);
    } else {
        lemma_split_nonempty(s.subrange(1, s.len() as int), sep);
    }
}

/// The index of the first `c` in `s`.
pub open spec fn first_index(s: Seq<char>, c: char) -> Option<int> {
    if exists|i: int| 0 <= i < s.len() && s[i] == c && forall|j: int| 0 <= j < i ==> s[j] != c {
        Some(
            choose|i: int| 0 <= i < s.len() && s[i] == c && forall|j: int| 0 <= j < i ==> s[j] != c,
        )
    } else {
        None
    }
}

pub proof fn lemma_first_index(s: Seq<char>, c: char)
    ensures
        match first_index(s, c) {
            Some(i) => 0 <= i < s.len() && s[i] == c && forall|j: int| 0 <= j < i ==> s[j] != c,
            None => forall|j: int| 0 <= j < s.len() ==> s[j] != c,
        },
{
    if first_index(s, c) is None {
        assert forall|j: int| 0 <= j < s.len() implies s[j] != c by {
            if s[j] == c {
                lemma_least_index(s, c, j);
            }
        }
    }
}

proof fn lemma_least_index(s: Seq<char>, c: char, j: int)
    requires
        0 <= j < s.len(),
        s[j] == c,
    ensures
        exists|k: int| 0 <= k <= j && s[k] == c && forall|q: int| 0 <= q < k ==> s[q] != c,
    decreases j,
{
    if exists|q: int| 0 <= q < j && s[q] == c {
        let q = choose|q: int| 0 <= q < j && s[q] == c;
        lemma_least_index(s, c, q);
    } else {
        assert(forall|q: int| 0 <= q < j ==> s[q] != c);
    }
}

/// Compares two strings by content.
pub fn str_eq(a: &str, b: &str) -> (r: bool)
    ensures
        r == (a@ == b@),
{
    let n = a.unicode_len();
    if n != b.unicode_len() {
        return false;
    }
    let mut i: usize = 0;
    while i < n
        invariant
            n == a@.len(),
            n == b@.len(),
            i <= n,
            forall|k: int| 0 <= k < i ==> a@[k] == b@[k],
        decreases n - i,
    {
        if a.get_char(i) != b.get_char(i) {
            return false;
        }
        i = i + 1;
    }
    assert(a@ =~= b@);
    true
}

/// Compares two strings by content, looking at every character whatever the
/// outcome, so that the time taken does not tell where they differ.
pub fn constant_time_eq(a: &str, b: &str) -> (r: bool)
    ensures
        r == (a@ == b@),
{
    let n = a.unicode_len();
    if n != b.unicode_len() {
        return false;
    }
    let mut same = true;
    let mut i: usize = 0;
    while i < n
        invariant
            n == a@.len(),
            n == b@.len(),
            i <= n,
            same == forall|k: int| 0 <= k < i ==> a@[k] == b@[k],
        decreases n - i,
    {
        let eq = a.get_char(i) == b.get_char(i);
        same = if eq {
            same
        } else {
            false
        };
        i = i + 1;
    }
    if same {
        assert(a@ =~= b@);
    }
    same
}

/// The index of the first `c` in `s`.
pub fn find_char(s: &str, c: char) -> (r: Option<usize>)
    ensures
        match r {
            Some(i) => first_index(s@, c) == Some(i as int),
            None => first_index(s@, c) is None,
        },
{
    let n = s.unicode_len();
    let mut i: usize = 0;
    while i < n
        invariant
            n == s@.len(),
            i <= n,
            forall|j: int| 0 <= j < i ==> s@[j] != c,
        decreases n - i,
    {
        if s.get_char(i) == c {
            proof {
                let k = choose|k: int|
                    0 <= k < s@.len() && s@[k] == c && forall|j: int| 0 <= j < k ==> s@[j] != c;
                assert(k == i) by {
                    if k < i {
                    } else if k > i {
                    }
                }
            }
            return Some(i);
        }
        i = i + 1;
    }
    None
}

/// Whether `sep` occurs in `s` at index `i`.
pub fn matches_at(s: &str, n: usize, i: usize, sep: &str, k: usize) -> (r: bool)
    requires
        n == s@.len(),
        k == sep@.len(),
        i + k <= n,
    ensures
        r == (s@.subrange(i as int, i + k) == sep@),
{
    let mut j: usize = 0;
    while j < k
        invariant
            n == s@.len(),
            k == sep@.len(),
            i + k <= n,
            j <= k,
            forall|q: int| 0 <= q < j ==> s@[i + q] == sep@[q],
        decreases k - j,
    {
        if s.get_char(i + j) != sep.get_char(j) {
            assert(s@.subrange(i as int, i + k)[j as int] != sep@[j as int]);
            return false;
        }
        j = j + 1;
    }
    assert(s@.subrange(i as int, i + k) =~= sep@);
    true
}

proof fn lemma_split_at_sep(s: Seq<char>, sep: Seq<char>, i: int)
    requires
        sep.len() > 0,
        0 <= i,
        i + sep.len() <= s.len(),
        s.subrange(i, i + sep.len()) == sep,
    ensures
        split(s.subrange(i, s.len() as int), sep) == seq![Seq::<char>::empty()] + split(
            s.subrange(i + sep.len(), s.len() as int),
            sep,
        ),
{
    let t = s.subrange(i, s.len() as int);
    assert(t.subrange(0, sep.len() as int) =~= sep);
    assert(t.subrange(sep.len() as int, t.len() as int) =~= s.subrange(
        i + sep.len(),
        s.len() as int,
    ));
}

proof fn lemma_split_no_sep(s: Seq<char>, sep: Seq<char>, i: int)
    requires
        sep.len() > 0,
        0 <= i,
        i + sep.len() <= s.len(),
        s.subrange(i, i + sep.len()) != sep,
    ensures
        split(s.subrange(i, s.len() as int), sep) == prepend(
            seq![s[i]],
            split(s.subrange(i + 1, s.len() as int), sep),
        ),
{
    let t = s.subrange(i, s.len() as int);
    assert(t.subrange(0, sep.len() as int) =~= s.subrange(i, i + sep.len()));
    assert(t.subrange(1, t.len() as int) =~= s.subrange(i + 1, s.len() as int));
}

/// `s` cut at each occurrence of `sep`, as slices of `s`.
pub fn split_str<'a>(s: &'a str, sep: &str) -> (r: Vec<&'a str>)
    requires
        sep@.len() > 0,
    ensures
        r@.map_values(|x: &str| x@) == split(s@, sep@),
{
    let n = s.unicode_len();
    let k = sep.unicode_len();
    let mut parts: Vec<&'a str> = Vec::new();
    let mut start: usize = 0;
    let mut i: usize = 0;
    proof {
        lemma_split_nonempty(s@, sep@);
        assert(s@.subrange(0, n as int) =~= s@);
        assert(prepend(s@.subrange(0, 0), split(s@, sep@)) =~= split(s@, sep@));
        assert(parts@.map_values(|x: &str| x@) =~= Seq::<Seq<char>>::empty());
        assert(Seq::<Seq<char>>::empty() + split(s@, sep@) =~= split(s@, sep@));
    }
    while k <= n - i
        invariant
            n == s@.len(),
            k == sep@.len(),
            k > 0,
            start <= i <= n,
            parts@.map_values(|x: &str| x@) + prepend(
                s@.subrange(start as int, i as int),
                split(s@.subrange(i as int, n as int), sep@),
            ) == split(s@, sep@),
        decreases n - i,
    {
        let ghost before = parts@.map_values(|x: &str| x@);
        let ghost cur = s@.subrange(start as int, i as int);
        if matches_at(s, n, i, sep, k) {
            let piece = s.substring_char(start, i);
            parts.push(piece);
            proof {
                lemma_split_at_sep(s@, sep@, i as int);
                let rest = split(s@.subrange(i + k, n as int), sep@);
                lemma_split_nonempty(s@.subrange(i + k, n as int), sep@);
                assert(parts@.map_values(|x: &str| x@) =~= before.push(cur));
                assert(prepend(cur, seq![Seq::<char>::empty()] + rest) =~= seq![cur] + rest);
                assert(prepend(s@.subrange(i + k, i + k), rest) =~= rest);
                assert(before + prepend(cur, seq![Seq::<char>::empty()] + rest) =~= before.push(cur)
                    + prepend(s@.subrange(i + k, i + k), rest));
            }
            i = i + k;
            start = i;
        } else {
            proof {
                lemma_split_no_sep(s@, sep@, i as int);
                let rest = split(s@.subrange(i + 1, n as int), sep@);
                lemma_split_nonempty(s@.subrange(i + 1, n as int), sep@);
                assert(s@.subrange(start as int, i + 1) =~= cur + seq![s@[i as int]]);
                assert((cur + seq![s@[i as int]]) + rest[0] =~= cur + (seq![s@[i as int]] + rest[0]));
                assert(prepend(cur, prepend(seq![s@[i as int]], rest)) =~= prepend(
                    s@.subrange(start as int, i + 1),
                    rest,
                ));
            }
            i = i + 1;
        }
    }
    let piece = s.substring_char(start, n);
    let ghost before = parts@.map_values(|x: &str| x@);
    parts.push(piece);
    proof {
        let t = s@.subrange(i as int, n as int);
        assert(split(t, sep@) == seq![t]);
        assert(s@.subrange(start as int, n as int) =~= s@.subrange(start as int, i as int) + t);
        assert(parts@.map_values(|x: &str| x@) =~= before + prepend(
            s@.subrange(start as int, i as int),
            split(t, sep@),
        ));
    }
    parts
}

} // verus!
