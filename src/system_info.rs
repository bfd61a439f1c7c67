//! The text side of system information: reading `KEY=value` files such as
//! os-release, stripping quotes, and choosing the distribution name.

use crate::proc_children::parse_i32;
use crate::proc_children::parse_pid;
use crate::text::{
    chars_of, join_text, string_from, strip_both, trim, trimmed_range, drop_end, drop_start,
};
use vstd::prelude::*;

verus! {

/// Basic facts about the host, each absent when the platform does not
/// report it.
pub struct SystemInfo {
    /// Linux distribution or OS name.
    pub distro: Option<String>,
    /// Kernel version.
    pub kernel: Option<String>,
    /// Brand of the first CPU.
    pub cpu: Option<String>,
    /// Disk usage summary (used/total) for the primary mount.
    pub disk: Option<String>,
}

/// The lines of `s`, given that `cur` holds the line read so far. Lines end
/// at `\n`; a last line without one counts when it is not empty.
pub open spec fn lines_from(s: Seq<char>, cur: Seq<char>) -> Seq<Seq<char>>
    decreases s.len(),
{
    if s.len() == 0 {
        if cur.len() > 0 {
            seq![cur]
        } else {
            Seq::empty()
        }
    } else if s[0] == '\n' {
        seq![cur] + lines_from(s.drop_first(), Seq::empty())
    } else {
        lines_from(s.drop_first(), cur.push(s[0]))
    }
}

pub open spec fn lines(s: Seq<char>) -> Seq<Seq<char>> {
    lines_from(s, Seq::empty())
}

/// `i` is the position of the first `c` in `t`.
pub open spec fn first_at(t: Seq<char>, c: char, i: int) -> bool {
    &&& 0 <= i < t.len()
    &&& t[i] == c
    &&& forall|k: int| 0 <= k < i ==> t[k] != c
}

/// The key and value of one line: the line trimmed, neither empty nor a
/// `#` comment, split at its first `=`, each side trimmed and not empty.
pub open spec fn line_entry(line: Seq<char>) -> Option<(Seq<char>, Seq<char>)> {
    let t = trim(line);
    if t.len() == 0 || t[0] == '#' {
        None
    } else if exists|i: int| first_at(t, '=', i) {
        let i = choose|i: int| first_at(t, '=', i);
        let k = trim(t.take(i));
        let v = trim(t.skip(i + 1));
        if k.len() > 0 && v.len() > 0 {
            Some((k, v))
        } else {
            None
        }
    } else {
        None
    }
}

/// The entries of the lines that hold one, in order.
pub open spec fn entries(ls: Seq<Seq<char>>) -> Seq<(Seq<char>, Seq<char>)>
    decreases ls.len(),
{
    if ls.len() == 0 {
        Seq::empty()
    } else {
        match line_entry(ls[0]) {
            Some(e) => seq![e] + entries(ls.drop_first()),
            None => entries(ls.drop_first()),
        }
    }
}

pub open spec fn pairs_view(v: Seq<(String, String)>) -> Seq<(Seq<char>, Seq<char>)> {
    v.map_values(|p: (String, String)| (p.0@, p.1@))
}

/// The value of the last entry with this key: a later line overrides an
/// earlier one.
pub open spec fn lookup(es: Seq<(Seq<char>, Seq<char>)>, key: Seq<char>) -> Option<Seq<char>>
    decreases es.len(),
{
    if es.len() == 0 {
        None
    } else if es.last().0 == key {
        Some(es.last().1)
    } else {
        lookup(es.drop_last(), key)
    }
}

proof fn lemma_entries_cons(line: Seq<char>, ls: Seq<Seq<char>>)
    ensures
        entries(seq![line] + ls) == match line_entry(line) {
            Some(e) => seq![e] + entries(ls),
            None => entries(ls),
        },
{
    assert((seq![line] + ls).drop_first() =~= ls);
}

fn line_entry_at(cs: &Vec<char>, from: usize, to: usize) -> (r: Option<(String, String)>)
    requires
        from <= to <= cs@.len(),
    ensures
        match line_entry(cs@.subrange(from as int, to as int)) {
            Some(e) => r matches Some(p) && p.0@ == e.0 && p.1@ == e.1,
            None => r is None,
        },
{
    let ghost line = cs@.subrange(from as int, to as int);
    let (a, b) = trimmed_range(cs, from, to, None);
    let ghost t = cs@.subrange(a as int, b as int);
    assert(t == trim(line));
    if a == b || cs[a] == '#' {
        return None;
    }
    let mut j: usize = a;
    while j < b && cs[j] != '='
        invariant
            a <= j <= b <= cs@.len(),
            forall|k: int| a <= k < j ==> cs@[k] != '=',
        decreases b - j,
    {
        j = j + 1;
    }
    if j == b {
        assert(!exists|i: int| first_at(t, '=', i)) by {
            assert forall|i: int| !first_at(t, '=', i) by {
                if 0 <= i < t.len() {
                    assert(t[i] == cs@[a + i]);
                }
            }
        }
        return None;
    }
    let ghost at = j - a;
    assert(first_at(t, '=', at)) by {
        assert forall|k: int| 0 <= k < at implies t[k] != '=' by {
            assert(t[k] == cs@[a + k]);
        }
    }
    let ghost chosen = choose|i: int| first_at(t, '=', i);
    assert(chosen == at) by {
        if chosen < at {
            assert(t[chosen] == cs@[a + chosen]);
        }
    }
    assert(t.take(at) =~= cs@.subrange(a as int, j as int));
    assert(t.skip(at + 1) =~= cs@.subrange(j + 1, b as int));
    let (ka, kb) = trimmed_range(cs, a, j, None);
    let (va, vb) = trimmed_range(cs, j + 1, b, None);
    if ka == kb || va == vb {
        None
    } else {
        Some((string_from(cs, ka, kb), string_from(cs, va, vb)))
    }
}

/// The `KEY=value` entries of `content`, in line order. Each line is
/// trimmed; empty lines, `#` comments, and lines whose key or value is
/// empty once trimmed are skipped. A `\r` before a line's end is white
/// space and goes with the trimming.
pub fn parse_key_value(content: &str) -> (r: Vec<(String, String)>)
    ensures
        pairs_view(r@) == entries(lines(content@)),
{
    let cs = chars_of(content);
    let mut out: Vec<(String, String)> = Vec::new();
    let mut start: usize = 0;
    let mut i: usize = 0;
    assert(cs@.skip(0) =~= cs@);
    assert(cs@.subrange(0, 0) =~= Seq::<char>::empty());
    assert(pairs_view(out@) =~= Seq::empty());
    while i < cs.len()
        invariant
            start <= i <= cs@.len(),
            pairs_view(out@) + entries(
                lines_from(cs@.skip(i as int), cs@.subrange(start as int, i as int)),
            ) == entries(lines(cs@)),
        decreases cs@.len() - i,
    {
        let ghost rest = cs@.skip(i as int);
        let ghost cur = cs@.subrange(start as int, i as int);
        assert(rest.drop_first() =~= cs@.skip(i as int + 1));
        assert(rest[0] == cs@[i as int]);
        if cs[i] == '\n' {
            let ghost before = pairs_view(out@);
            proof {
                lemma_entries_cons(cur, lines_from(cs@.skip(i as int + 1), Seq::empty()));
            }
            match line_entry_at(&cs, start, i) {
                Some(p) => {
                    out.push(p);
                    assert(pairs_view(out@) =~= before + seq![(p.0@, p.1@)]);
                },
                None => {},
            }
            i = i + 1;
            start = i;
            assert(cs@.subrange(start as int, i as int) =~= Seq::<char>::empty());
            assert(pairs_view(out@) + entries(
                lines_from(cs@.skip(i as int), cs@.subrange(start as int, i as int)),
            ) =~= entries(lines(cs@)));
        } else {
            assert(cur.push(cs@[i as int]) =~= cs@.subrange(start as int, i as int + 1));
            i = i + 1;
        }
    }
    let ghost cur = cs@.subrange(start as int, i as int);
    let ghost before = pairs_view(out@);
    if start < i {
        proof {
            lemma_entries_cons(cur, Seq::empty());
            assert(seq![cur] + Seq::<Seq<char>>::empty() =~= seq![cur]);
        }
        match line_entry_at(&cs, start, i) {
            Some(p) => {
                out.push(p);
                assert(pairs_view(out@) =~= before + seq![(p.0@, p.1@)]);
            },
            None => {},
        }
    }
    assert(pairs_view(out@) =~= entries(lines(cs@)));
    out
}

/// The value recorded last under `key`.
pub fn value_for(pairs: &Vec<(String, String)>, key: &String) -> (r: Option<String>)
    ensures
        match lookup(pairs_view(pairs@), key@) {
            Some(v) => r matches Some(s) && s@ == v,
            None => r is None,
        },
{
    let mut i: usize = pairs.len();
    assert(pairs@.take(i as int) =~= pairs@);
    while i > 0
        invariant
            i <= pairs@.len(),
            lookup(pairs_view(pairs@), key@) == lookup(pairs_view(pairs@.take(i as int)), key@),
        decreases i,
    {
        let ghost pre = pairs_view(pairs@.take(i as int));
        assert(pre.drop_last() =~= pairs_view(pairs@.take(i as int - 1)));
        assert(pre.last() == (pairs@[i - 1].0@, pairs@[i - 1].1@));
        if pairs[i - 1].0 == *key {
            return Some(pairs[i - 1].1.clone());
        }
        i = i - 1;
    }
    assert(pairs_view(pairs@.take(0)) =~= Seq::empty());
    None
}

/// `value` without the double quotes at either end.
pub fn strip_quotes(value: &str) -> (r: String)
    ensures
        r@ == strip_both(value@, '"'),
{
    let cs = chars_of(value);
    let (a, b) = trimmed_range(&cs, 0, cs.len(), Some('"'));
    assert(cs@.subrange(0, cs@.len() as int) =~= cs@);
    string_from(&cs, a, b)
}

/// The distribution name that os-release text gives: its `PRETTY_NAME`;
/// else its `NAME` and `VERSION` joined by a space and trimmed, or the one
/// of them that is there; each without its quotes.
pub open spec fn distro_of(content: Seq<char>) -> Option<Seq<char>> {
    let es = entries(lines(content));
    match lookup(es, "PRETTY_NAME"@) {
        Some(p) => Some(strip_both(p, '"')),
        None => match (lookup(es, "NAME"@), lookup(es, "VERSION"@)) {
            (Some(n), Some(v)) => Some(trim(strip_both(n, '"') + " "@ + strip_both(v, '"'))),
            (Some(n), None) => Some(strip_both(n, '"')),
            (None, Some(v)) => Some(strip_both(v, '"')),
            (None, None) => None,
        },
    }
}

fn trim_string(s: &str) -> (r: String)
    ensures
        r@ == trim(s@),
{
    let cs = chars_of(s);
    let (a, b) = trimmed_range(&cs, 0, cs.len(), None);
    assert(cs@.subrange(0, cs@.len() as int) =~= cs@);
    string_from(&cs, a, b)
}

fn is_blank(s: &str) -> (r: bool)
    ensures
        r == (trim(s@).len() == 0),
{
    let cs = chars_of(s);
    let (a, b) = trimmed_range(&cs, 0, cs.len(), None);
    assert(cs@.subrange(0, cs@.len() as int) =~= cs@);
    a == b
}

/// The distribution name in the text of an os-release file.
pub fn distro_from_os_release(content: &str) -> (r: Option<String>)
    ensures
        match distro_of(content@) {
            Some(d) => r matches Some(s) && s@ == d,
            None => r is None,
        },
{
    let parsed = parse_key_value(content);
    match value_for(&parsed, &"PRETTY_NAME".to_owned()) {
        Some(pretty) => Some(strip_quotes(pretty.as_str())),
        None => {
            let name = value_for(&parsed, &"NAME".to_owned());
            let version = value_for(&parsed, &"VERSION".to_owned());
            match (name, version) {
                (Some(name), Some(version)) => {
                    let n = strip_quotes(name.as_str());
                    let v = strip_quotes(version.as_str());
                    let joined = join_text(join_text(n.as_str(), " ").as_str(), v.as_str());
                    Some(trim_string(joined.as_str()))
                },
                (Some(name), None) => Some(strip_quotes(name.as_str())),
                (None, Some(version)) => Some(strip_quotes(version.as_str())),
                (None, None) => None,
            }
        },
    }
}

/// The text before the first `.` of a version, or all of it.
pub open spec fn major_part(v: Seq<char>) -> Seq<char> {
    if exists|i: int| first_at(v, '.', i) {
        v.take(choose|i: int| first_at(v, '.', i))
    } else {
        v
    }
}

/// The marketing name of a macOS major version.
pub open spec fn marketing_of(major: Option<i32>) -> Option<Seq<char>> {
    match major {
        Some(26) => Some("Tahoe"@),
        Some(15) => Some("Sequoia"@),
        Some(14) => Some("Sonoma"@),
        Some(13) => Some("Ventura"@),
        Some(12) => Some("Monterey"@),
        Some(11) => Some("Big Sur"@),
        _ => None,
    }
}

/// The marketing name of the macOS release that an OS version string such
/// as `15.3.1` names, when its major version is one of the known ones.
pub fn macos_marketing_name(version: &str) -> (r: Option<&'static str>)
    ensures
        match marketing_of(parse_i32(major_part(version@))) {
            Some(n) => r matches Some(s) && s@ == n,
            None => r is None,
        },
{
    let cs = chars_of(version);
    let mut major: Vec<char> = Vec::new();
    let mut j: usize = 0;
    while j < cs.len() && cs[j] != '.'
        invariant
            j <= cs@.len(),
            major@ == cs@.take(j as int),
            forall|k: int| 0 <= k < j ==> cs@[k] != '.',
        decreases cs@.len() - j,
    {
        major.push(cs[j]);
        j = j + 1;
        assert(major@ =~= cs@.take(j as int));
    }
    if j == cs.len() {
        assert(!exists|i: int| first_at(cs@, '.', i));
        assert(cs@.take(j as int) =~= cs@);
    } else {
        assert(first_at(cs@, '.', j as int));
        let ghost chosen = choose|i: int| first_at(cs@, '.', i);
        assert(chosen == j as int);
    }
    match parse_pid(&major) {
        Some(26) => Some("Tahoe"),
        Some(15) => Some("Sequoia"),
        Some(14) => Some("Sonoma"),
        Some(13) => Some("Ventura"),
        Some(12) => Some("Monterey"),
        Some(11) => Some("Big Sur"),
        _ => None,
    }
}

pub open spec fn opt_view(o: Option<String>) -> Option<Seq<char>> {
    match o {
        Some(s) => Some(s@),
        None => None,
    }
}

/// The OS name where no os-release file is read: the long OS version, or
/// else the OS name, kept only when it is not blank; with a marketing name
/// after a space where one is given.
pub open spec fn os_distro_of(
    long_os_version: Option<Seq<char>>,
    os_name: Option<Seq<char>>,
    marketing: Option<Seq<char>>,
) -> Option<Seq<char>> {
    let picked = if long_os_version is Some {
        long_os_version
    } else {
        os_name
    };
    match picked {
        Some(b) => if trim(b).len() == 0 {
            None
        } else {
            match marketing {
                Some(m) => Some(b + " "@ + m),
                None => Some(b),
            }
        },
        None => None,
    }
}

/// Chooses the OS name from what the platform reports.
pub fn os_distro(
    long_os_version: Option<String>,
    os_name: Option<String>,
    marketing: Option<&str>,
) -> (r: Option<String>)
    ensures
        opt_view(r) == os_distro_of(
            opt_view(long_os_version),
            opt_view(os_name),
            match marketing {
                Some(m) => Some(m@),
                None => None,
            },
        ),
{
    let picked = match long_os_version {
        Some(l) => Some(l),
        None => os_name,
    };
    match picked {
        Some(b) => {
            if is_blank(b.as_str()) {
                None
            } else {
                match marketing {
                    Some(m) => Some(join_text(join_text(b.as_str(), " ").as_str(), m)),
                    None => Some(b),
                }
            }
        },
        None => None,
    }
}

/// Used and total bytes of a disk with the given figures: `None` for a disk
/// that reports no space; the used bytes are the total less the available,
/// or zero when more is available than the total.
pub fn disk_usage(total: u64, available: u64) -> (r: Option<(u64, u64)>)
    ensures
        total == 0 ==> r is None,
        total != 0 ==> r == Some(
            (if available >= total {
                0u64
            } else {
                (total - available) as u64
            }, total),
        ),
{
    if total == 0 {
        None
    } else if available >= total {
        Some((0, total))
    } else {
        Some((total - available, total))
    }
}

/// The disk to report, given for each disk whether it is mounted at `/`:
/// the first mounted there, else the first disk; `None` when there is none.
pub fn pick_root_disk(is_root: &Vec<bool>) -> (r: Option<usize>)
    ensures
        match r {
            Some(i) => i < is_root@.len() && ((is_root@[i as int] && forall|k: int|
                0 <= k < i ==> !is_root@[k]) || (i == 0 && forall|k: int|
                0 <= k < is_root@.len() ==> !is_root@[k])),
            None => is_root@.len() == 0,
        },
{
    let mut i: usize = 0;
    while i < is_root.len()
        invariant
            i <= is_root@.len(),
            forall|k: int| 0 <= k < i ==> !is_root@[k],
        decreases is_root@.len() - i,
    {
        if is_root[i] {
            return Some(i);
        }
        i = i + 1;
    }
    if is_root.len() == 0 {
        None
    } else {
        Some(0)
    }
}

} // verus!
