//! The text format of a stored session: which file each tab showed, where
//! its cursor and scroll offset stood, which tab was selected and how wide
//! the splits were. Keys look like `file.S.T`, values like `x,y`.

use crate::paths::strings_view;
use vstd::prelude::*;

verus! {

pub open spec fn is_digit(c: char) -> bool {
    '0' <= c && c <= '9'
}

/// The value of a run of decimal digits.
pub open spec fn digits_value(s: Seq<char>) -> nat
    decreases s.len(),
{
    if s.len() == 0 {
        0
    } else {
        digits_value(s.drop_last()) * 10 + ((s.last() as u32) - ('0' as u32)) as nat
    }
}

/// An unsigned decimal number as `str::parse` reads it: an optional `+`,
/// then one digit or more; its range is checked by the caller.
pub open spec fn unsigned_value(s: Seq<char>) -> Option<nat> {
    let d = unsigned_digits(s);
    if d.len() > 0 && all_digits(d) {
        Some(digits_value(d))
    } else {
        None
    }
}

/// `s` without a leading `+`.
pub open spec fn unsigned_digits(s: Seq<char>) -> Seq<char> {
    if s.len() > 0 && s[0] == '+' {
        s.drop_first()
    } else {
        s
    }
}

pub open spec fn all_digits(d: Seq<char>) -> bool {
    forall|i: int| 0 <= i < d.len() ==> is_digit(#[trigger] d[i])
}

/// The number `s` holds, where it fits below `max`.
pub open spec fn number_below(s: Seq<char>, max: nat) -> Option<nat> {
    match unsigned_value(s) {
        Some(n) => if n <= max {
            Some(n)
        } else {
            None
        },
        None => None,
    }
}

/// White space as `char::is_whitespace` defines it.
pub open spec fn is_white(c: char) -> bool {
    let u = c as u32;
    (0x09 <= u && u <= 0x0d) || u == 0x20 || u == 0x85 || u == 0xa0 || u == 0x1680 || (0x2000 <= u
        && u <= 0x200a) || u == 0x2028 || u == 0x2029 || u == 0x202f || u == 0x205f || u == 0x3000
}

/// The number of white space characters `s` starts with.
pub open spec fn lead_white(s: Seq<char>) -> nat
    decreases s.len(),
{
    if s.len() > 0 && is_white(s[0]) {
        1 + lead_white(s.drop_first())
    } else {
        0
    }
}

/// The number of white space characters `s` ends with.
pub open spec fn trail_white(s: Seq<char>) -> nat
    decreases s.len(),
{
    if s.len() > 0 && is_white(s.last()) {
        1 + trail_white(s.drop_last())
    } else {
        0
    }
}

/// `s` without white space at either end.
pub open spec fn trimmed(s: Seq<char>) -> Seq<char> {
    if lead_white(s) >= s.len() {
        seq![]
    } else {
        s.subrange(lead_white(s) as int, s.len() - trail_white(s))
    }
}

/// Where the first `sep` of `s` stands, or its length.
pub open spec fn first_sep(s: Seq<char>, sep: char) -> nat
    decreases s.len(),
{
    if s.len() == 0 {
        0
    } else if s[0] == sep {
        0
    } else {
        1 + first_sep(s.drop_first(), sep)
    }
}

/// The pieces of `s` between the separators, as `str::split` yields them:
/// one more than there are separators.
pub open spec fn split_fields(s: Seq<char>, sep: char) -> Seq<Seq<char>>
    decreases s.len(),
{
    let k = first_sep(s, sep);
    if k >= s.len() {
        seq![s]
    } else {
        seq![s.subrange(0, k as int)] + split_fields(s.subrange(k + 1 as int, s.len() as int), sep)
    }
}

proof fn lemma_first_sep(s: Seq<char>, sep: char, i: int)
    requires
        0 <= i <= s.len(),
        forall|j: int| 0 <= j < i ==> s[j] != sep,
        i == s.len() || s[i] == sep,
    ensures
        first_sep(s, sep) == i,
    decreases i,
{
    if i > 0 {
        lemma_first_sep(s.drop_first(), sep, i - 1);
    }
}

proof fn lemma_lead_white(s: Seq<char>, i: int)
    requires
        0 <= i <= s.len(),
        forall|j: int| 0 <= j < i ==> is_white(#[trigger] s[j]),
        i == s.len() || !is_white(s[i]),
    ensures
        lead_white(s) == i,
    decreases i,
{
    if i > 0 {
        lemma_lead_white(s.drop_first(), i - 1);
    }
}

proof fn lemma_trail_white(s: Seq<char>, i: int)
    requires
        0 <= i <= s.len(),
        forall|j: int| i <= j < s.len() ==> is_white(#[trigger] s[j]),
        i == 0 || !is_white(s[i - 1]),
    ensures
        trail_white(s) == s.len() - i,
    decreases s.len() - i,
{
    if i < s.len() {
        lemma_trail_white(s.drop_last(), i);
    }
}

proof fn lemma_digits_grow(s: Seq<char>, c: char)
    requires
        is_digit(c),
    ensures
        digits_value(s.push(c)) >= digits_value(s),
        digits_value(s.push(c)) == digits_value(s) * 10 + ((c as u32) - ('0' as u32)) as nat,
{
    assert(s.push(c).drop_last() =~= s);
}

/// Reads an unsigned decimal number that fits a `usize`.
pub fn parse_usize(s: &str) -> (r: Option<usize>)
    ensures
        r matches Some(v) ==> number_below(s@, usize::MAX as nat) == Some(v as nat),
        r is None ==> number_below(s@, usize::MAX as nat) is None,
{
    let n = s.unicode_len();
    let mut start: usize = 0;
    if n > 0 && s.get_char(0) == '+' {
        start = 1;
    }
    let ghost d = unsigned_digits(s@);
    proof {
        assert(d =~= s@.subrange(start as int, n as int));
    }
    if start >= n {
        return None;
    }
    let mut acc: usize = 0;
    let mut overflow = false;
    let mut i: usize = start;
    proof {
        assert(s@.subrange(start as int, start as int) =~= Seq::<char>::empty());
    }
    while i < n
        invariant
            n == s@.len(),
            start <= i <= n,
            d =~= s@.subrange(start as int, n as int),
            d == unsigned_digits(s@),
            forall|j: int| start <= j < i ==> is_digit(#[trigger] s@[j]),
            !overflow ==> acc as nat == digits_value(s@.subrange(start as int, i as int)),
            overflow ==> digits_value(s@.subrange(start as int, i as int)) > usize::MAX,
        decreases n - i,
    {
        let c = s.get_char(i);
        if !('0' <= c && c <= '9') {
            proof {
                assert(d[i - start] == c);
                assert(!is_digit(d[i - start]));
                assert(!all_digits(d));
            }
            return None;
        }
        let ghost pre = s@.subrange(start as int, i as int);
        proof {
            assert(s@.subrange(start as int, i + 1) =~= pre.push(c));
            lemma_digits_grow(pre, c);
        }
        let dv = ((c as u32) - ('0' as u32)) as usize;
        if !overflow {
            match acc.checked_mul(10) {
                Some(m) => match m.checked_add(dv) {
                    Some(a) => {
                        acc = a;
                    },
                    None => {
                        overflow = true;
                    },
                },
                None => {
                    overflow = true;
                    assert(digits_value(pre) * 10 > usize::MAX) by (nonlinear_arith)
                        requires
                            acc as int * 10 > usize::MAX,
                            acc as nat == digits_value(pre),
                    ;
                },
            }
        }
        i = i + 1;
    }
    proof {
        assert forall|j: int| 0 <= j < d.len() implies is_digit(#[trigger] d[j]) by {
            assert(d[j] == s@[j + start]);
        }
        assert(s@.subrange(start as int, n as int) =~= d);
    }
    if overflow {
        None
    } else {
        Some(acc)
    }
}

/// Reads an unsigned decimal number that fits a `u32`.
pub fn parse_u32(s: &str) -> (r: Option<u32>)
    ensures
        r matches Some(v) ==> number_below(s@, u32::MAX as nat) == Some(v as nat),
        r is None ==> number_below(s@, u32::MAX as nat) is None,
{
    match parse_usize(s) {
        Some(v) => if v <= u32::MAX as usize {
            Some(v as u32)
        } else {
            None
        },
        None => None,
    }
}

/// Reads an unsigned decimal number that fits a `u16`.
pub fn parse_u16(s: &str) -> (r: Option<u16>)
    ensures
        r matches Some(v) ==> number_below(s@, u16::MAX as nat) == Some(v as nat),
        r is None ==> number_below(s@, u16::MAX as nat) is None,
{
    match parse_usize(s) {
        Some(v) => if v <= u16::MAX as usize {
            Some(v as u16)
        } else {
            None
        },
        None => None,
    }
}

/// Whether `c` is white space; see [`is_white`].
pub fn is_white_char(c: char) -> (r: bool)
    ensures
        r == is_white(c),
{
    let u = c as u32;
    (0x09 <= u && u <= 0x0d) || u == 0x20 || u == 0x85 || u == 0xa0 || u == 0x1680 || (0x2000 <= u
        && u <= 0x200a) || u == 0x2028 || u == 0x2029 || u == 0x202f || u == 0x205f || u == 0x3000
}

/// `s` without white space at either end.
pub fn trim(s: &str) -> (r: String)
    ensures
        r@ == trimmed(s@),
{
    let n = s.unicode_len();
    let mut lo: usize = 0;
    while lo < n && is_white_char(s.get_char(lo))
        invariant
            n == s@.len(),
            lo <= n,
            forall|j: int| 0 <= j < lo ==> is_white(#[trigger] s@[j]),
        decreases n - lo,
    {
        lo = lo + 1;
    }
    proof {
        lemma_lead_white(s@, lo as int);
    }
    if lo == n {
        return String::new();
    }
    let mut hi: usize = n;
    while hi > lo && is_white_char(s.get_char(hi - 1))
        invariant
            n == s@.len(),
            lo < n,
            !is_white(s@[lo as int]),
            lo <= hi <= n,
            forall|j: int| hi <= j < n ==> is_white(#[trigger] s@[j]),
        decreases hi,
    {
        hi = hi - 1;
    }
    proof {
        if hi == lo {
            assert(is_white(s@[lo as int]));
        }
        lemma_trail_white(s@, hi as int);
    }
    String::from_str(s.substring_char(lo, hi))
}

/// The pieces of `s` between the separators `sep`; see [`split_fields`].
pub fn fields(s: &str, sep: char) -> (r: Vec<String>)
    ensures
        strings_view(r@) == split_fields(s@, sep),
{
    let n = s.unicode_len();
    let mut out: Vec<String> = Vec::new();
    let mut start: usize = 0;
    let mut done = false;
    proof {
        assert(s@.subrange(0, n as int) =~= s@);
        assert(strings_view(out@) =~= Seq::<Seq<char>>::empty());
        assert(Seq::<Seq<char>>::empty() + split_fields(s@, sep) =~= split_fields(s@, sep));
    }
    while !done
        invariant
            n == s@.len(),
            start <= n,
            !done ==> strings_view(out@) + split_fields(s@.subrange(start as int, n as int), sep) == split_fields(s@, sep),
            done ==> strings_view(out@) == split_fields(s@, sep),
        decreases n - start + (if done { 0int } else { 1int }),
    {
        let mut j: usize = start;
        while j < n && s.get_char(j) != sep
            invariant
                n == s@.len(),
                start <= j <= n,
                forall|k: int| start <= k < j ==> s@[k] != sep,
            decreases n - j,
        {
            j = j + 1;
        }
        let ghost rest = s@.subrange(start as int, n as int);
        proof {
            lemma_first_sep(rest, sep, j - start);
        }
        let piece = String::from_str(s.substring_char(start, j));
        let ghost out0 = strings_view(out@);
        out.push(piece);
        proof {
            assert(strings_view(out@) =~= out0.push(piece@));
        }
        if j == n {
            done = true;
            proof {
                assert(rest.subrange(0, (j - start) as int) =~= rest);
                assert(split_fields(rest, sep) == seq![rest]);
                assert(out0 + seq![rest] =~= out0.push(piece@));
            }
        } else {
            proof {
                assert(rest.subrange(0, (j - start) as int) =~= piece@);
                assert(rest.subrange(j - start + 1, rest.len() as int) =~= s@.subrange(j + 1, n as int));
                let tail = split_fields(s@.subrange(j + 1, n as int), sep);
                assert(split_fields(rest, sep) == seq![piece@] + tail);
                assert(out0 + (seq![piece@] + tail) =~= out0.push(piece@) + tail);
            }
            start = j + 1;
        }
    }
    out
}

/// The split and tab of a key like `file.S.T`.
pub open spec fn tab_key(k: Seq<char>) -> Option<(nat, nat)> {
    let f = split_fields(k, '.');
    if f.len() >= 3 {
        match (number_below(f[1], usize::MAX as nat), number_below(f[2], usize::MAX as nat)) {
            (Some(s), Some(t)) => Some((s, t)),
            _ => None,
        }
    } else {
        None
    }
}

/// The column and row of a cursor value `x,y`, each maybe padded.
pub open spec fn cursor_value(v: Seq<char>) -> Option<(nat, nat)> {
    let f = split_fields(v, ',');
    if f.len() >= 2 {
        match (number_below(trimmed(f[0]), u32::MAX as nat), number_below(trimmed(f[1]), u32::MAX as nat)) {
            (Some(x), Some(y)) => Some((x, y)),
            _ => None,
        }
    } else {
        None
    }
}

/// The scroll offsets of a value `x,y,sub`, each maybe padded.
pub open spec fn offset_value(v: Seq<char>) -> Option<(nat, nat, nat)> {
    let f = split_fields(v, ',');
    if f.len() >= 3 {
        match (
            number_below(trimmed(f[0]), u32::MAX as nat),
            number_below(trimmed(f[1]), u32::MAX as nat),
            number_below(trimmed(f[2]), u32::MAX as nat),
        ) {
            (Some(x), Some(y), Some(z)) => Some((x, y, z)),
            _ => None,
        }
    } else {
        None
    }
}

/// The split and tab of a selection value `S.T`.
pub open spec fn selected_value(v: Seq<char>) -> Option<(nat, nat)> {
    let f = split_fields(v, '.');
    if f.len() >= 2 {
        match (number_below(f[0], usize::MAX as nat), number_below(f[1], usize::MAX as nat)) {
            (Some(s), Some(t)) => Some((s, t)),
            _ => None,
        }
    } else {
        None
    }
}

/// The split and tab named by a key like `file.S.T`, `cursor.S.T` or
/// `offset.S.T`.
pub fn split_tab(k: &str) -> (r: Option<(usize, usize)>)
    ensures
        r matches Some(p) ==> tab_key(k@) == Some((p.0 as nat, p.1 as nat)),
        r is None ==> tab_key(k@) is None,
{
    let f = fields(k, '.');
    proof {
        assert(f@.len() == split_fields(k@, '.').len());
    }
    if f.len() < 3 {
        return None;
    }
    proof {
        assert(f@[1]@ == split_fields(k@, '.')[1]);
        assert(f@[2]@ == split_fields(k@, '.')[2]);
    }
    match (parse_usize(f[1].as_str()), parse_usize(f[2].as_str())) {
        (Some(s), Some(t)) => Some((s, t)),
        _ => None,
    }
}

/// The cursor position of a value `x,y`.
pub fn split_cursor(v: &str) -> (r: Option<(u32, u32)>)
    ensures
        r matches Some(p) ==> cursor_value(v@) == Some((p.0 as nat, p.1 as nat)),
        r is None ==> cursor_value(v@) is None,
{
    let f = fields(v, ',');
    proof {
        assert(f@.len() == split_fields(v@, ',').len());
    }
    if f.len() < 2 {
        return None;
    }
    proof {
        assert(f@[0]@ == split_fields(v@, ',')[0]);
        assert(f@[1]@ == split_fields(v@, ',')[1]);
    }
    let x = trim(f[0].as_str());
    let y = trim(f[1].as_str());
    match (parse_u32(x.as_str()), parse_u32(y.as_str())) {
        (Some(x), Some(y)) => Some((x, y)),
        _ => None,
    }
}

/// The scroll offsets of a value `x,y,sub`.
pub fn split_offset(v: &str) -> (r: Option<(u32, u32, u32)>)
    ensures
        r matches Some(p) ==> offset_value(v@) == Some((p.0 as nat, p.1 as nat, p.2 as nat)),
        r is None ==> offset_value(v@) is None,
{
    let f = fields(v, ',');
    proof {
        assert(f@.len() == split_fields(v@, ',').len());
    }
    if f.len() < 3 {
        return None;
    }
    proof {
        assert(f@[0]@ == split_fields(v@, ',')[0]);
        assert(f@[1]@ == split_fields(v@, ',')[1]);
        assert(f@[2]@ == split_fields(v@, ',')[2]);
    }
    let x = trim(f[0].as_str());
    let y = trim(f[1].as_str());
    let z = trim(f[2].as_str());
    match (parse_u32(x.as_str()), parse_u32(y.as_str()), parse_u32(z.as_str())) {
        (Some(x), Some(y), Some(z)) => Some((x, y, z)),
        _ => None,
    }
}

/// The selected split and tab of a value `S.T`.
pub fn split_selected(v: &str) -> (r: Option<(usize, usize)>)
    ensures
        r matches Some(p) ==> selected_value(v@) == Some((p.0 as nat, p.1 as nat)),
        r is None ==> selected_value(v@) is None,
{
    let f = fields(v, '.');
    proof {
        assert(f@.len() == split_fields(v@, '.').len());
    }
    if f.len() < 2 {
        return None;
    }
    proof {
        assert(f@[0]@ == split_fields(v@, '.')[0]);
        assert(f@[1]@ == split_fields(v@, '.')[1]);
    }
    match (parse_usize(f[0].as_str()), parse_usize(f[1].as_str())) {
        (Some(s), Some(t)) => Some((s, t)),
        _ => None,
    }
}

/// The split widths of a value `w1,w2,...`: `None` where one of them is
/// not a number.
pub fn split_widths(v: &str) -> (r: Option<Vec<u16>>)
    ensures
        r matches Some(ws) ==> ws@.len() == split_fields(v@, ',').len() && forall|i: int|
            0 <= i < ws@.len() ==> number_below(trimmed(split_fields(v@, ',')[i]), u16::MAX as nat)
                == Some(#[trigger] ws@[i] as nat),
        r is None ==> exists|i: int|
            0 <= i < split_fields(v@, ',').len() && number_below(trimmed(#[trigger] split_fields(v@, ',')[i]), u16::MAX as nat) is None,
{
    let f = fields(v, ',');
    let ghost fs = split_fields(v@, ',');
    let mut out: Vec<u16> = Vec::new();
    let mut i: usize = 0;
    while i < f.len()
        invariant
            fs == split_fields(v@, ','),
            strings_view(f@) == fs,
            0 <= i <= f@.len(),
            out@.len() == i,
            forall|k: int| 0 <= k < i ==> number_below(trimmed(fs[k]), u16::MAX as nat) == Some(#[trigger] out@[k] as nat),
        decreases f@.len() - i,
    {
        proof {
            assert(f@[i as int]@ == fs[i as int]);
        }
        let w = trim(f[i].as_str());
        match parse_u16(w.as_str()) {
            Some(n) => {
                out.push(n);
            },
            None => {
                return None;
            },
        }
        i = i + 1;
    }
    Some(out)
}

} // verus!
