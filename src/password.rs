//! Random passwords drawn from character classes.
use vstd::prelude::*;
use vstd::string::*;
use rand::seq::{IndexedRandom, SliceRandom};

verus! {

pub const LOWERCASE: &'static str = "abcdefghijklmnopqrstuvwxyz";

pub const UPPERCASE: &'static str = "ABCDEFGHIJKLMNOPQRSTUVWXYZ";

pub const NUMBERS: &'static str = "0123456789";

pub const PUNCTUATION: &'static str = "!\"#$%&'()*+,-./:;<=>?@[\\]^_`{|}~";

pub struct PasswordOptions {
    pub exclude_characters: String,
    pub exclude_lowercase: bool,
    pub exclude_numbers: bool,
    pub exclude_punctuation: bool,
    pub exclude_uppercase: bool,
    pub include_space: bool,
    pub password_length: usize,
    pub require_each_included_type: bool,
}

#[derive(Debug, PartialEq, Eq, Structural)]
pub enum RandomPasswordError {
    /// Every character is excluded.
    EmptyCharSet,
    /// A class that must be represented has lost all its characters to
    /// `exclude_characters`.
    EmptyTypeSet,
    /// The length cannot hold one character of each included class.
    InvalidLength,
}

/// The characters of `set` that `excluded` does not hold.
pub open spec fn allowed_of(set: Seq<char>, excluded: Seq<char>) -> Seq<char> {
    set.filter(|c: char| !excluded.contains(c))
}

/// The included classes, each without the excluded characters, in the order
/// lowercase, uppercase, numbers, punctuation.
pub open spec fn type_sets_of(o: PasswordOptions) -> Seq<Seq<char>> {
    let x = o.exclude_characters@;
    let a = if o.exclude_lowercase {
        Seq::<Seq<char>>::empty()
    } else {
        seq![allowed_of(LOWERCASE@, x)]
    };
    let b = if o.exclude_uppercase {
        a
    } else {
        a.push(allowed_of(UPPERCASE@, x))
    };
    let c = if o.exclude_numbers {
        b
    } else {
        b.push(allowed_of(NUMBERS@, x))
    };
    if o.exclude_punctuation {
        c
    } else {
        c.push(allowed_of(PUNCTUATION@, x))
    }
}

/// Every character a password may hold.
pub open spec fn alphabet_of(o: PasswordOptions) -> Seq<char> {
    let all = type_sets_of(o).flatten();
    if o.include_space && !o.exclude_characters@.contains(' ') {
        all.push(' ')
    } else {
        all
    }
}

/// Some character of `p` is in `set`.
pub open spec fn represented(set: Seq<char>, p: Seq<char>) -> bool {
    exists|i: int| 0 <= i < p.len() && set.contains(p[i])
}

/// The error that the options give, if any.
pub open spec fn password_error(o: PasswordOptions) -> Option<RandomPasswordError> {
    if alphabet_of(o).len() == 0 {
        Some(RandomPasswordError::EmptyCharSet)
    } else if o.require_each_included_type && o.password_length < type_sets_of(o).len() {
        Some(RandomPasswordError::InvalidLength)
    } else if o.require_each_included_type && exists|k: int|
        0 <= k < type_sets_of(o).len() && #[trigger] type_sets_of(o)[k].len() == 0 {
        Some(RandomPasswordError::EmptyTypeSet)
    } else {
        None
    }
}

/// Relies on rand's `IndexedRandom::choose`: `None` for an empty slice,
/// else one of its items.
#[verifier::external_body]
fn choose_char(set: &Vec<char>) -> (r: Option<char>)
    ensures
        r is None <==> set@.len() == 0,
        r matches Some(c) ==> set@.contains(c),
{
    set.choose(&mut rand::rng()).copied()
}

/// Relies on rand's `SliceRandom::shuffle`, which permutes the slice.
#[verifier::external_body]
fn shuffle_chars(v: &mut Vec<char>)
    ensures
        final(v)@.to_multiset() == old(v)@.to_multiset(),
{
    v.shuffle(&mut rand::rng())
}

/// Relies on `String: FromIterator<&char>`, which keeps the characters in order.
#[verifier::external_body]
fn string_from_chars(v: &Vec<char>) -> (r: String)
    ensures
        r@ == v@,
{
    String::from_iter(v.iter())
}

fn chars_of(s: &str) -> (r: Vec<char>)
    ensures
        r@ == s@,
{
    let n = s.unicode_len();
    let mut out: Vec<char> = Vec::new();
    let mut i: usize = 0;
    while i < n
        invariant
            n == s@.len(),
            i <= n,
            out@ == s@.take(i as int),
        decreases n - i,
    {
        out.push(s.get_char(i));
        assert(out@ =~= s@.take(i + 1));
        i = i + 1;
    }
    assert(s@.take(n as int) =~= s@);
    out
}

fn contains_char(s: &Vec<char>, c: char) -> (r: bool)
    ensures
        r == s@.contains(c),
{
    let mut i: usize = 0;
    while i < s.len()
        invariant
            i <= s@.len(),
            forall|k: int| 0 <= k < i ==> s@[k] != c,
        decreases s@.len() - i,
    {
        if s[i] == c {
            return true;
        }
        i = i + 1;
    }
    false
}

/// The characters of `set` that `excluded` does not hold.
fn filter_allowed(set: &str, excluded: &Vec<char>) -> (r: Vec<char>)
    ensures
        r@ == allowed_of(set@, excluded@),
{
    let chars = chars_of(set);
    let mut out: Vec<char> = Vec::new();
    let mut i: usize = 0;
    while i < chars.len()
        invariant
            chars@ == set@,
            i <= chars@.len(),
            out@ == allowed_of(chars@.take(i as int), excluded@),
        decreases chars@.len() - i,
    {
        let c = chars[i];
        proof {
            reveal(Seq::filter);
            assert(chars@.take(i + 1).drop_last() =~= chars@.take(i as int));
            assert(chars@.take(i + 1).last() == c);
        }
        if !contains_char(excluded, c) {
            out.push(c);
        }
        i = i + 1;
    }
    assert(chars@.take(chars@.len() as int) =~= chars@);
    out
}

proof fn lemma_flatten_push(a: Seq<Seq<char>>, x: Seq<char>)
    ensures
        a.push(x).flatten() == a.flatten() + x,
    decreases a.len(),
{
    if a.len() == 0 {
        assert(a.push(x) =~= seq![x]);
        seq![x].lemma_flatten_one_element();
        assert(a.flatten() =~= Seq::<char>::empty());
        assert(Seq::<char>::empty() + x =~= x);
    } else {
        lemma_flatten_push(a.drop_first(), x);
        assert(a.push(x).drop_first() =~= a.drop_first().push(x));
        assert(a.push(x).first() == a.first());
        assert(a.first() + (a.drop_first().flatten() + x) =~= (a.first() + a.drop_first().flatten())
            + x);
    }
}

proof fn lemma_flatten_contains(a: Seq<Seq<char>>, k: int, c: char)
    requires
        0 <= k < a.len(),
        a[k].contains(c),
    ensures
        a.flatten().contains(c),
    decreases a.len(),
{
    let j = choose|j: int| 0 <= j < a[k].len() && a[k][j] == c;
    if k == 0 {
        assert((a[0] + a.drop_first().flatten())[j] == c);
    } else {
        lemma_flatten_contains(a.drop_first(), k - 1, c);
        let f = a.drop_first().flatten();
        let q = choose|q: int| 0 <= q < f.len() && f[q] == c;
        assert((a[0] + f)[a[0].len() + q] == c);
    }
}

/// A password of `password_length` characters of the alphabet of `opts`;
/// with `require_each_included_type`, one at least of each included class.
pub fn get_random_password(opts: PasswordOptions) -> (r: Result<String, RandomPasswordError>)
    ensures
        match password_error(opts) {
            Some(e) => r == Err::<String, RandomPasswordError>(e),
            None => r matches Ok(p) && p@.len() == opts.password_length && (forall|i: int|
                0 <= i < p@.len() ==> alphabet_of(opts).contains(#[trigger] p@[i])) && (
            opts.require_each_included_type ==> forall|k: int|
                0 <= k < type_sets_of(opts).len() ==> represented(
                    #[trigger] type_sets_of(opts)[k],
                    p@,
                )),
        },
{
    let excluded = chars_of(opts.exclude_characters.as_str());
    let mut type_sets: Vec<Vec<char>> = Vec::new();
    let ghost x = opts.exclude_characters@;
    if !opts.exclude_lowercase {
        type_sets.push(filter_allowed(LOWERCASE, &excluded));
    }
    if !opts.exclude_uppercase {
        type_sets.push(filter_allowed(UPPERCASE, &excluded));
    }
    if !opts.exclude_numbers {
        type_sets.push(filter_allowed(NUMBERS, &excluded));
    }
    if !opts.exclude_punctuation {
        type_sets.push(filter_allowed(PUNCTUATION, &excluded));
    }
    let ghost ts = type_sets@.map_values(|v: Vec<char>| v@);
    assert(ts =~= type_sets_of(opts));
    let mut allowed: Vec<char> = Vec::new();
    let mut k: usize = 0;
    while k < type_sets.len()
        invariant
            k <= type_sets@.len(),
            ts == type_sets@.map_values(|v: Vec<char>| v@),
            allowed@ == ts.take(k as int).flatten(),
        decreases type_sets@.len() - k,
    {
        let set = &type_sets[k];
        let mut j: usize = 0;
        let ghost base = allowed@;
        while j < set.len()
            invariant
                j <= set@.len(),
                allowed@ == base + set@.take(j as int),
            decreases set@.len() - j,
        {
            allowed.push(set[j]);
            assert(allowed@ =~= base + set@.take(j + 1));
            j = j + 1;
        }
        proof {
            assert(set@.take(set@.len() as int) =~= set@);
            assert(ts.take(k + 1) =~= ts.take(k as int).push(ts[k as int]));
            lemma_flatten_push(ts.take(k as int), ts[k as int]);
        }
        k = k + 1;
    }
    assert(ts.take(type_sets@.len() as int) =~= ts);
    if opts.include_space && !contains_char(&excluded, ' ') {
        allowed.push(' ');
    }
    assert(allowed@ == alphabet_of(opts));
    if allowed.len() == 0 {
        return Err(RandomPasswordError::EmptyCharSet);
    }
    let length = opts.password_length;
    if opts.require_each_included_type {
        if length < type_sets.len() {
            return Err(RandomPasswordError::InvalidLength);
        }
        let mut chars: Vec<char> = Vec::new();
        let mut k: usize = 0;
        while k < type_sets.len()
            invariant
                k <= type_sets@.len(),
                opts.require_each_included_type,
                alphabet_of(opts).len() > 0,
                length == opts.password_length,
                length >= type_sets@.len(),
                ts == type_sets@.map_values(|v: Vec<char>| v@),
                ts == type_sets_of(opts),
                allowed@ == alphabet_of(opts),
                chars@.len() == k,
                forall|q: int| 0 <= q < k ==> ts[q].contains(#[trigger] chars@[q]),
                forall|q: int| 0 <= q < k ==> ts[q].len() > 0,
            decreases type_sets@.len() - k,
        {
            match choose_char(&type_sets[k]) {
                Some(c) => {
                    chars.push(c);
                },
                None => {
                    assert(type_sets_of(opts)[k as int].len() == 0);
                    return Err(RandomPasswordError::EmptyTypeSet);
                },
            }
            k = k + 1;
        }
        proof {
            assert(!(exists|q: int| 0 <= q < ts.len() && #[trigger] ts[q].len() == 0));
            assert forall|q: int| 0 <= q < chars@.len() implies alphabet_of(opts).contains(
                chars@[q],
            ) by {
                lemma_flatten_contains(ts, q, chars@[q]);
                if opts.include_space && !opts.exclude_characters@.contains(' ') {
                    let f = ts.flatten();
                    let j = choose|j: int| 0 <= j < f.len() && f[j] == chars@[q];
                    assert(f.push(' ')[j] == chars@[q]);
                }
            }
        }
        let ghost required = chars@;
        while chars.len() < length
            invariant
                allowed@ == alphabet_of(opts),
                chars@.len() <= length,
                chars@.len() >= required.len(),
                chars@.take(required.len() as int) == required,
                forall|q: int| 0 <= q < chars@.len() ==> alphabet_of(opts).contains(
                    #[trigger] chars@[q],
                ),
            decreases length - chars@.len(),
        {
            match choose_char(&allowed) {
                Some(c) => {
                    let ghost prev = chars@;
                    chars.push(c);
                    assert(chars@.take(required.len() as int) =~= prev.take(required.len() as int));
                },
                None => {
                    return Err(RandomPasswordError::EmptyCharSet);
                },
            }
        }
        let ghost before = chars@;
        shuffle_chars(&mut chars);
        proof {
            before.to_multiset_ensures();
            chars@.to_multiset_ensures();
            assert forall|q: int| 0 <= q < chars@.len() implies alphabet_of(opts).contains(
                #[trigger] chars@[q],
            ) by {
                assert(chars@.to_multiset().count(chars@[q]) > 0);
                assert(before.contains(chars@[q]));
            }
            assert forall|k: int| 0 <= k < type_sets_of(opts).len() implies represented(
                #[trigger] type_sets_of(opts)[k],
                chars@,
            ) by {
                let c = required[k];
                assert(before[k] == c);
                assert(before.contains(c));
                assert(before.to_multiset().count(c) > 0);
                assert(chars@.contains(c));
                let i = choose|i: int| 0 <= i < chars@.len() && chars@[i] == c;
                assert(type_sets_of(opts)[k].contains(chars@[i]));
            }
        }
        Ok(string_from_chars(&chars))
    } else {
        proof {
            assert(!opts.require_each_included_type);
        }
        let mut chars: Vec<char> = Vec::new();
        while chars.len() < length
            invariant
                allowed@ == alphabet_of(opts),
                chars@.len() <= length,
                forall|q: int| 0 <= q < chars@.len() ==> alphabet_of(opts).contains(
                    #[trigger] chars@[q],
                ),
            decreases length - chars@.len(),
        {
            match choose_char(&allowed) {
                Some(c) => {
                    chars.push(c);
                },
                None => {
                    return Err(RandomPasswordError::EmptyCharSet);
                },
            }
        }
        Ok(string_from_chars(&chars))
    }
}

} // verus!
