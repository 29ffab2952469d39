//! Page tokens: the text `<page_index>:<page_size>` in decimal.
use vstd::prelude::*;
use vstd::string::*;
use crate::text::{find_char, first_index, lemma_first_index};

verus! {

pub open spec fn digit_char(d: nat) -> char {
    "0123456789"@[d as int]
}

/// The decimal digits of `n`.
pub open spec fn decimal(n: nat) -> Seq<char>
    decreases n,
{
    if n < 10 {
        seq![digit_char(n)]
    } else {
        decimal(n / 10).push(digit_char(n % 10))
    }
}

pub open spec fn is_digit(c: char) -> bool {
    '0' <= c <= '9'
}

pub open spec fn digit_value(c: char) -> nat {
    (c as u32 - '0' as u32) as nat
}

/// The number that the digits `s` spell.
pub open spec fn digits_value(s: Seq<char>) -> nat
    decreases s.len(),
{
    if s.len() == 0 {
        0
    } else {
        digits_value(s.drop_last()) * 10 + digit_value(s.last())
    }
}

pub open spec fn pow10(n: nat) -> nat
    decreases n,
{
    if n == 0 {
        1
    } else {
        10 * pow10((n - 1) as nat)
    }
}

/// A number of 1 to 10 decimal digits that fits in a `u32`.
pub open spec fn parse_u32_spec(s: Seq<char>) -> Option<u32> {
    if 0 < s.len() <= 10 && (forall|i: int| 0 <= i < s.len() ==> is_digit(#[trigger] s[i]))
        && digits_value(s) <= u32::MAX {
        Some(digits_value(s) as u32)
    } else {
        None
    }
}

fn digit_str(d: u64) -> (r: &'static str)
    requires
        d < 10,
    ensures
        r@ == seq![digit_char(d as nat)],
{
    proof {
        reveal_strlit("0123456789");
    }
    let r = match d {
        0 => "0",
        1 => "1",
        2 => "2",
        3 => "3",
        4 => "4",
        5 => "5",
        6 => "6",
        7 => "7",
        8 => "8",
        _ => "9",
    };
    proof {
        reveal_strlit("0");
        reveal_strlit("1");
        reveal_strlit("2");
        reveal_strlit("3");
        reveal_strlit("4");
        reveal_strlit("5");
        reveal_strlit("6");
        reveal_strlit("7");
        reveal_strlit("8");
        reveal_strlit("9");
        assert(r@ =~= seq![digit_char(d as nat)]);
    }
    r
}

/// Appends the decimal digits of `n`.
pub fn write_decimal(n: u64, out: &mut String)
    ensures
        final(out)@ == old(out)@ + decimal(n as nat),
    decreases n,
{
    if n >= 10 {
        write_decimal(n / 10, out);
    }
    out.append(digit_str(n % 10));
    proof {
        if n >= 10 {
            assert(decimal(n as nat) == decimal((n / 10) as nat).push(digit_char((n % 10) as nat)));
        }
    }
    assert(final(out)@ =~= old(out)@ + decimal(n as nat));
}

/// Reads a `u32` written in decimal.
pub fn parse_u32(s: &str) -> (r: Option<u32>)
    ensures
        r == parse_u32_spec(s@),
{
    let n = s.unicode_len();
    if n == 0 || n > 10 {
        return None;
    }
    let mut acc: u64 = 0;
    let mut i: usize = 0;
    while i < n
        invariant
            n == s@.len(),
            0 < n <= 10,
            i <= n,
            forall|k: int| 0 <= k < i ==> is_digit(#[trigger] s@[k]),
            acc == digits_value(s@.take(i as int)),
            acc < pow10(i as nat),
            pow10(i as nat) <= 10000000000,
        decreases n - i,
    {
        let c = s.get_char(i);
        if !('0' <= c && c <= '9') {
            return None;
        }
        let d = (c as u32 - '0' as u32) as u64;
        assert(s@.take(i + 1).drop_last() =~= s@.take(i as int));
        assert(pow10((i + 1) as nat) == 10 * pow10(i as nat));
        assert(acc * 10 + d < 10 * pow10(i as nat)) by (nonlinear_arith)
            requires
                acc < pow10(i as nat),
                d < 10,
        ;
        assert(i + 1 <= 10);
        proof {
            lemma_pow10_bound((i + 1) as nat);
        }
        acc = acc * 10 + d;
        i = i + 1;
    }
    assert(s@.take(n as int) =~= s@);
    if acc > 4294967295 {
        return None;
    }
    Some(acc as u32)
}

proof fn lemma_pow10_bound(n: nat)
    requires
        n <= 10,
    ensures
        pow10(n) <= 10000000000,
    decreases n,
{
    if n > 0 {
        lemma_pow10_bound((n - 1) as nat);
        lemma_pow10_mono((n - 1) as nat);
    }
}

proof fn lemma_pow10_mono(n: nat)
    requires
        n < 10,
    ensures
        10 * pow10(n) <= 10000000000,
    decreases n,
{
    reveal_with_fuel(pow10, 11);
    if n > 0 {
        lemma_pow10_mono((n - 1) as nat);
    }
}

/// A position in a listing: page `page_index` of pages of `page_size` items.
#[derive(Debug, PartialEq, Eq, Structural)]
pub struct PaginationToken {
    pub page_size: u32,
    pub page_index: u32,
}

/// The largest offset or limit a listing accepts.
pub const MAX_QUERY_VALUE: u64 = 2147483647;

/// The token text.
pub open spec fn token_text(t: PaginationToken) -> Seq<char> {
    decimal(t.page_index as nat) + seq![':'] + decimal(t.page_size as nat)
}

/// `(limit, offset)` of the page of `t`, where both are at most `i32::MAX`.
pub open spec fn query_parts(t: PaginationToken) -> Option<(u64, u64)> {
    if t.page_size <= MAX_QUERY_VALUE && t.page_index * t.page_size <= MAX_QUERY_VALUE {
        Some((t.page_size as u64, (t.page_index * t.page_size) as u64))
    } else {
        None
    }
}

/// The token of the page after `t`, where items remain after it.
pub open spec fn next_page(t: PaginationToken, count: u64) -> Option<PaginationToken> {
    if (t.page_index + 1) * t.page_size < count && t.page_index < u32::MAX {
        Some(PaginationToken { page_size: t.page_size, page_index: (t.page_index + 1) as u32 })
    } else {
        None
    }
}

/// The token that `text` spells: the index before the first `:`, the size
/// after it.
pub open spec fn token_of(text: Seq<char>) -> Option<PaginationToken> {
    match first_index(text, ':') {
        Some(i) => match (
            parse_u32_spec(text.subrange(0, i)),
            parse_u32_spec(text.subrange(i + 1, text.len() as int)),
        ) {
            (Some(page_index), Some(page_size)) => Some(PaginationToken { page_size, page_index }),
            _ => None,
        },
        None => None,
    }
}

impl PaginationToken {
    /// This token with its page size replaced.
    pub fn page_size(self, size: u32) -> (r: PaginationToken)
        ensures
            r == (PaginationToken { page_size: size, page_index: self.page_index }),
    {
        PaginationToken { page_size: size, page_index: self.page_index }
    }

    /// `(limit, offset)` of the page: the page size and the index times the
    /// size; `None` where either exceeds `i32::MAX`.
    pub fn as_query_parts(&self) -> (r: Option<(u64, u64)>)
        ensures
            r == query_parts(*self),
    {
        let size = self.page_size as u64;
        let index = self.page_index as u64;
        assert(index * size <= 4294967295 * 4294967295) by (nonlinear_arith)
            requires
                index <= 4294967295,
                size <= 4294967295,
        ;
        let offset = index * size;
        if size > MAX_QUERY_VALUE || offset > MAX_QUERY_VALUE {
            None
        } else {
            Some((size, offset))
        }
    }

    /// The token of the next page, where items remain after this one.
    pub fn get_next_page(&self, count: u64) -> (r: Option<PaginationToken>)
        ensures
            r == next_page(*self, count),
    {
        let size = self.page_size as u64;
        let next = self.page_index as u64 + 1;
        assert(next * size <= 4294967296 * 4294967295) by (nonlinear_arith)
            requires
                next <= 4294967296,
                size <= 4294967295,
        ;
        if next * size < count && self.page_index < 4294967295 {
            Some(PaginationToken { page_size: self.page_size, page_index: self.page_index + 1 })
        } else {
            None
        }
    }

    /// The token as text.
    pub fn to_text(&self) -> (r: String)
        ensures
            r@ == token_text(*self),
    {
        let mut out = String::new();
        write_decimal(self.page_index as u64, &mut out);
        out.append(":");
        write_decimal(self.page_size as u64, &mut out);
        proof {
            reveal_strlit(":");
        }
        assert(out@ =~= token_text(*self));
        out
    }

    /// Reads a token: two decimal numbers separated by `:`.
    pub fn parse(text: &str) -> (r: Option<PaginationToken>)
        ensures
            r == token_of(text@),
    {
        let n = text.unicode_len();
        match find_char(text, ':') {
            Some(i) => {
                proof {
                    lemma_first_index(text@, ':');
                }
                let index = parse_u32(text.substring_char(0, i));
                let size = parse_u32(text.substring_char(i + 1, n));
                match (index, size) {
                    (Some(page_index), Some(page_size)) => Some(PaginationToken { page_size, page_index }),
                    _ => None,
                }
            },
            None => None,
        }
    }
}

/// The token a request names, or `default` where it names none; `None`
/// where the text does not read as a token.
pub open spec fn requested_token(next: Option<String>, default: PaginationToken) -> Option<
    PaginationToken,
> {
    match next {
        Some(t) => token_of(t@),
        None => Some(default),
    }
}

/// The elements of `s` on the page at `offset` of at most `limit` items.
pub open spec fn page_of<T>(s: Seq<T>, offset: int, limit: int) -> Seq<T> {
    let lo = if offset < s.len() {
        offset
    } else {
        s.len() as int
    };
    let hi = if offset + limit < s.len() {
        offset + limit
    } else {
        s.len() as int
    };
    s.subrange(lo, hi)
}

} // verus!
