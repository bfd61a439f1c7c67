//! Parsing of a process's children listing: process ids separated by
//! whitespace, where a word that is not a process id is skipped.

use vstd::prelude::*;
use crate::text::is_whitespace;
use vstd::std_specs::iter::IteratorSpec;

verus! {

/// The words of `s`, given that `cur` holds the word read so far.
pub open spec fn words_from(s: Seq<char>, cur: Seq<char>) -> Seq<Seq<char>>
    decreases s.len(),
{
    if s.len() == 0 {
        if cur.len() > 0 {
            seq![cur]
        } else {
            Seq::empty()
        }
    } else if is_whitespace(s[0]) {
        (if cur.len() > 0 {
            seq![cur]
        } else {
            Seq::empty()
        }) + words_from(s.drop_first(), Seq::empty())
    } else {
        words_from(s.drop_first(), cur.push(s[0]))
    }
}

/// The maximal runs of non-white-space characters of `s`, in order.
pub open spec fn words(s: Seq<char>) -> Seq<Seq<char>> {
    words_from(s, Seq::empty())
}

pub open spec fn is_digit(c: char) -> bool {
    '0' <= c && c <= '9'
}

/// The value of a decimal digit.
pub open spec fn digit_value(c: char) -> int {
    if c == '1' {
        1
    } else if c == '2' {
        2
    } else if c == '3' {
        3
    } else if c == '4' {
        4
    } else if c == '5' {
        5
    } else if c == '6' {
        6
    } else if c == '7' {
        7
    } else if c == '8' {
        8
    } else if c == '9' {
        9
    } else {
        0
    }
}

fn digit(c: char) -> (r: Option<u64>)
    ensures
        r is Some <==> is_digit(c),
        r matches Some(v) ==> v == digit_value(c) && v <= 9,
{
    match c {
        '0' => Some(0),
        '1' => Some(1),
        '2' => Some(2),
        '3' => Some(3),
        '4' => Some(4),
        '5' => Some(5),
        '6' => Some(6),
        '7' => Some(7),
        '8' => Some(8),
        '9' => Some(9),
        _ => None,
    }
}

/// The number that a run of decimal digits writes.
pub open spec fn digits_value(d: Seq<char>) -> int
    decreases d.len(),
{
    if d.len() == 0 {
        0
    } else {
        digits_value(d.drop_last()) * 10 + digit_value(d.last())
    }
}

/// The length of the sign in front of a number: one for `+` or `-`.
pub open spec fn sign_len(t: Seq<char>) -> int {
    if t.len() > 0 && (t[0] == '-' || t[0] == '+') {
        1
    } else {
        0
    }
}

/// The digits of a number, after its sign.
pub open spec fn magnitude(t: Seq<char>) -> Seq<char> {
    t.skip(sign_len(t))
}

pub open spec fn all_digits(d: Seq<char>) -> bool {
    forall|i: int| 0 <= i < d.len() ==> is_digit(#[trigger] d[i])
}

/// The value written, negative after a `-`.
pub open spec fn signed_value(t: Seq<char>) -> int {
    if t.len() > 0 && t[0] == '-' {
        -digits_value(magnitude(t))
    } else {
        digits_value(magnitude(t))
    }
}

/// A 32-bit signed integer in decimal: an optional `+` or `-`, then at
/// least one digit, the value in range.
pub open spec fn parse_i32(t: Seq<char>) -> Option<i32> {
    if magnitude(t).len() > 0 && all_digits(magnitude(t)) && i32::MIN <= signed_value(t)
        <= i32::MAX {
        Some(signed_value(t) as i32)
    } else {
        None
    }
}

/// The values of the words that are 32-bit integers, in order.
pub open spec fn parsed_pids(ws: Seq<Seq<char>>) -> Seq<i32>
    decreases ws.len(),
{
    if ws.len() == 0 {
        Seq::empty()
    } else {
        let rest = parsed_pids(ws.drop_first());
        match parse_i32(ws[0]) {
            Some(v) => seq![v] + rest,
            None => rest,
        }
    }
}

proof fn lemma_parsed_cons(w: Seq<char>, ws: Seq<Seq<char>>)
    ensures
        parsed_pids(seq![w] + ws) == match parse_i32(w) {
            Some(v) => seq![v] + parsed_pids(ws),
            None => parsed_pids(ws),
        },
{
    assert((seq![w] + ws).drop_first() =~= ws);
}

/// Parses one word as a 32-bit signed decimal integer.
pub fn parse_pid(t: &Vec<char>) -> (r: Option<i32>)
    ensures
        r == parse_i32(t@),
{
    let n = t.len();
    if n == 0 {
        return None;
    }
    let neg = t[0] == '-';
    let start: usize = if t[0] == '-' || t[0] == '+' {
        1
    } else {
        0
    };
    let ghost d = t@.subrange(start as int, n as int);
    assert(d =~= magnitude(t@));
    if start == n {
        return None;
    }
    let mut acc: u64 = 0;
    let mut big = false;
    let mut i: usize = start;
    while i < n
        invariant
            start <= i <= n == t@.len(),
            d == t@.subrange(start as int, n as int),
            d == magnitude(t@),
            neg == (t@[0] == '-'),
            forall|k: int| start <= k < i ==> is_digit(#[trigger] t@[k]),
            !big ==> acc == digits_value(t@.subrange(start as int, i as int)) && acc <= 2147483648,
            big ==> digits_value(t@.subrange(start as int, i as int)) > 2147483648,
            digits_value(t@.subrange(start as int, i as int)) >= 0,
        decreases n - i,
    {
        let c = t[i];
        let dv = match digit(c) {
            Some(v) => v,
            None => {
                assert(d[i - start] == c);
                assert(!is_digit(d[i - start]));
                assert(!all_digits(d));
                return None;
            },
        };
        let ghost prev = t@.subrange(start as int, i as int);
        let ghost next = t@.subrange(start as int, i as int + 1);
        assert(next.drop_last() =~= prev);
        assert(next.last() == c);
        if !big {
            acc = acc * 10 + dv;
            if acc > 2147483648 {
                big = true;
            }
        }
        i = i + 1;
    }
    assert(t@.subrange(start as int, n as int) == d);
    assert forall|k: int| 0 <= k < d.len() implies is_digit(#[trigger] d[k]) by {
        assert(d[k] == t@[start + k]);
    }
    if big {
        None
    } else if neg {
        Some((0 - (acc as i64)) as i32)
    } else if acc > 2147483647 {
        None
    } else {
        Some(acc as i32)
    }
}

/// The process ids that a children listing holds, in order: every word that
/// is a 32-bit integer; other words are skipped.
pub fn parse_child_pids(content: &str) -> (r: Vec<i32>)
    ensures
        r@ == parsed_pids(words(content@)),
{
    let mut out: Vec<i32> = Vec::new();
    let mut cur: Vec<char> = Vec::new();
    let mut it = content.chars();
    let ghost mut rem: Seq<char> = content@;
    assert(out@ + parsed_pids(words_from(rem, cur@)) =~= parsed_pids(words(content@)));
    loop
        invariant
            it.remaining() == rem,
            it.obeys_prophetic_iter_laws(),
            out@ + parsed_pids(words_from(rem, cur@)) == parsed_pids(words(content@)),
        decreases rem.len(),
    {
        let ghost before = out@;
        match it.next() {
            None => {
                if cur.len() > 0 {
                    proof {
                        lemma_parsed_cons(cur@, Seq::empty());
                        assert(seq![cur@] + Seq::<Seq<char>>::empty() =~= seq![cur@]);
                    }
                    match parse_pid(&cur) {
                        Some(v) => {
                            out.push(v);
                        },
                        None => {},
                    }
                    assert(out@ =~= before + parsed_pids(seq![cur@]));
                } else {
                    assert(out@ =~= before + parsed_pids(Seq::<Seq<char>>::empty()));
                }
                return out;
            },
            Some(c) => {
                let ghost tail = rem.drop_first();
                if c == ' ' || ('\t' <= c && c <= '\r') || c == '\u{85}' || c == '\u{a0}' || c
                    == '\u{1680}' || ('\u{2000}' <= c && c <= '\u{200a}') || c == '\u{2028}' || c
                    == '\u{2029}' || c == '\u{202f}' || c == '\u{205f}' || c == '\u{3000}' {
                    if cur.len() > 0 {
                        proof {
                            lemma_parsed_cons(cur@, words_from(tail, Seq::empty()));
                        }
                        match parse_pid(&cur) {
                            Some(v) => {
                                out.push(v);
                            },
                            None => {},
                        }
                        assert(out@ + parsed_pids(words_from(tail, Seq::empty())) =~= before
                            + parsed_pids(words_from(rem, cur@)));
                    } else {
                        assert(Seq::<Seq<char>>::empty() + words_from(tail, Seq::empty())
                            =~= words_from(tail, Seq::empty()));
                    }
                    cur = Vec::new();
                    assert(cur@ =~= Seq::<char>::empty());
                } else {
                    cur.push(c);
                }
                proof {
                    rem = tail;
                }
            },
        }
    }
}

/// The ids of `s` that are positive, in order.
pub open spec fn positive_ids(s: Seq<i32>) -> Seq<i32>
    decreases s.len(),
{
    if s.len() == 0 {
        Seq::empty()
    } else if s.last() > 0 {
        positive_ids(s.drop_last()).push(s.last())
    } else {
        positive_ids(s.drop_last())
    }
}

/// The children in a buffer that a process listing call filled, given the
/// number of bytes it reports: nothing when that number is not positive;
/// else the ids that fit in the reported bytes (four bytes each, at most the
/// buffer's length), keeping the positive ones.
pub open spec fn listed_children(buffer: Seq<i32>, listed_bytes: i32) -> Seq<i32> {
    if listed_bytes <= 0 {
        Seq::empty()
    } else {
        let n = if (listed_bytes / 4) as int <= buffer.len() {
            (listed_bytes / 4) as int
        } else {
            buffer.len() as int
        };
        positive_ids(buffer.take(n))
    }
}

/// The child process ids in a filled listing buffer.
pub fn listed_child_pids(buffer: &Vec<i32>, listed_bytes: i32) -> (r: Vec<i32>)
    ensures
        r@ == listed_children(buffer@, listed_bytes),
{
    let mut out: Vec<i32> = Vec::new();
    if listed_bytes <= 0 {
        return out;
    }
    let quarter = (listed_bytes / 4) as usize;
    let n: usize = if quarter <= buffer.len() {
        quarter
    } else {
        buffer.len()
    };
    let mut i: usize = 0;
    while i < n
        invariant
            i <= n <= buffer@.len(),
            out@ == positive_ids(buffer@.take(i as int)),
        decreases n - i,
    {
        assert(buffer@.take(i as int + 1).drop_last() =~= buffer@.take(i as int));
        if buffer[i] > 0 {
            out.push(buffer[i]);
        }
        i = i + 1;
    }
    assert(buffer@.take(i as int) == buffer@.take(n as int));
    out
}

} // verus!
