//! Character-level text helpers: white space, trimming, and building
//! strings from characters.

use vstd::prelude::*;
use vstd::std_specs::iter::IteratorSpec;

verus! {

/// Unicode white space, the characters that separate words.
pub open spec fn is_whitespace(c: char) -> bool {
    ||| ('\t' <= c && c <= '\r')
    ||| c == ' '
    ||| c == '\u{85}'
    ||| c == '\u{a0}'
    ||| c == '\u{1680}'
    ||| ('\u{2000}' <= c && c <= '\u{200a}')
    ||| c == '\u{2028}'
    ||| c == '\u{2029}'
    ||| c == '\u{202f}'
    ||| c == '\u{205f}'
    ||| c == '\u{3000}'
}

/// `s` without its leading white space.
pub open spec fn trim_start(s: Seq<char>) -> Seq<char>
    decreases s.len(),
{
    if s.len() > 0 && is_whitespace(s[0]) {
        trim_start(s.drop_first())
    } else {
        s
    }
}

/// `s` without its trailing white space.
pub open spec fn trim_end(s: Seq<char>) -> Seq<char>
    decreases s.len(),
{
    if s.len() > 0 && is_whitespace(s.last()) {
        trim_end(s.drop_last())
    } else {
        s
    }
}

/// `s` without leading and trailing white space.
pub open spec fn trim(s: Seq<char>) -> Seq<char> {
    trim_end(trim_start(s))
}

/// `s` without the copies of `c` at its start.
pub open spec fn strip_start(s: Seq<char>, c: char) -> Seq<char>
    decreases s.len(),
{
    if s.len() > 0 && s[0] == c {
        strip_start(s.drop_first(), c)
    } else {
        s
    }
}

/// `s` without the copies of `c` at its end.
pub open spec fn strip_end(s: Seq<char>, c: char) -> Seq<char>
    decreases s.len(),
{
    if s.len() > 0 && s.last() == c {
        strip_end(s.drop_last(), c)
    } else {
        s
    }
}

/// `s` without the copies of `c` at either end.
pub open spec fn strip_both(s: Seq<char>, c: char) -> Seq<char> {
    strip_end(strip_start(s, c), c)
}

/// Whether `c` is dropped from the ends: white space, or the one given
/// character.
pub open spec fn dropped(c: char, quote: Option<char>) -> bool {
    match quote {
        Some(q) => c == q,
        None => is_whitespace(c),
    }
}

pub open spec fn drop_start(s: Seq<char>, quote: Option<char>) -> Seq<char> {
    match quote {
        Some(q) => strip_start(s, q),
        None => trim_start(s),
    }
}

pub open spec fn drop_end(s: Seq<char>, quote: Option<char>) -> Seq<char> {
    match quote {
        Some(q) => strip_end(s, q),
        None => trim_end(s),
    }
}

fn is_dropped(c: char, quote: Option<char>) -> (r: bool)
    ensures
        r == dropped(c, quote),
{
    match quote {
        Some(q) => c == q,
        None => c == ' ' || ('\t' <= c && c <= '\r') || c == '\u{85}' || c == '\u{a0}' || c
            == '\u{1680}' || ('\u{2000}' <= c && c <= '\u{200a}') || c == '\u{2028}' || c
            == '\u{2029}' || c == '\u{202f}' || c == '\u{205f}' || c == '\u{3000}',
    }
}

/// The bounds of `cs[from..to]` once the dropped characters are taken off
/// both ends: white space when `quote` is `None`, else that character.
pub fn trimmed_range(cs: &Vec<char>, from: usize, to: usize, quote: Option<char>) -> (r: (
    usize,
    usize,
))
    requires
        from <= to <= cs@.len(),
    ensures
        from <= r.0 <= r.1 <= to,
        cs@.subrange(r.0 as int, r.1 as int) == drop_end(
            drop_start(cs@.subrange(from as int, to as int), quote),
            quote,
        ),
{
    let mut lo: usize = from;
    while lo < to && is_dropped(cs[lo], quote)
        invariant
            from <= lo <= to <= cs@.len(),
            drop_start(cs@.subrange(from as int, to as int), quote) == drop_start(
                cs@.subrange(lo as int, to as int),
                quote,
            ),
        decreases to - lo,
    {
        assert(cs@.subrange(lo as int, to as int).drop_first() =~= cs@.subrange(
            lo as int + 1,
            to as int,
        ));
        lo = lo + 1;
    }
    assert(drop_start(cs@.subrange(lo as int, to as int), quote) == cs@.subrange(
        lo as int,
        to as int,
    ));
    let mut hi: usize = to;
    while hi > lo && is_dropped(cs[hi - 1], quote)
        invariant
            from <= lo <= hi <= to <= cs@.len(),
            drop_end(cs@.subrange(lo as int, to as int), quote) == drop_end(
                cs@.subrange(lo as int, hi as int),
                quote,
            ),
        decreases hi - lo,
    {
        assert(cs@.subrange(lo as int, hi as int).drop_last() =~= cs@.subrange(
            lo as int,
            hi as int - 1,
        ));
        hi = hi - 1;
    }
    (lo, hi)
}

/// The characters of `s`, in order.
pub fn chars_of(s: &str) -> (r: Vec<char>)
    ensures
        r@ == s@,
{
    let mut out: Vec<char> = Vec::new();
    let mut it = s.chars();
    let ghost mut rem: Seq<char> = s@;
    loop
        invariant
            it.remaining() == rem,
            it.obeys_prophetic_iter_laws(),
            out@ + rem == s@,
        decreases rem.len(),
    {
        match it.next() {
            None => {
                assert(out@ + rem =~= out@);
                return out;
            },
            Some(c) => {
                out.push(c);
                proof {
                    assert(out@ + rem.drop_first() =~= s@);
                    rem = rem.drop_first();
                }
            },
        }
    }
}

/// Relies on `String`'s `FromIterator<&char>`: the characters of
/// `cs[from..to]`, in order.
#[verifier::external_body]
pub(crate) fn string_from(cs: &Vec<char>, from: usize, to: usize) -> (r: String)
    requires
        from <= to <= cs@.len(),
    ensures
        r@ == cs@.subrange(from as int, to as int),
{
    cs[from..to].iter().collect()
}

/// Relies on `format!`: the two texts written one after the other.
#[verifier::external_body]
pub(crate) fn join_text(a: &str, b: &str) -> (r: String)
    ensures
        r@ == a@ + b@,
{
    format!("{a}{b}")
}

} // verus!
