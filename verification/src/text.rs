//! Character-level scanning helpers shared by the line parser, the
//! continuation classifier and the aggregator: whitespace classification,
//! delimiter searches, capture-start computation, decimal parsing, and
//! plain string comparisons.

use vstd::prelude::*;

verus! {

/// The characters of Unicode's `White_Space` property, the set that
/// `char::is_whitespace` recognises.
pub open spec fn is_ws(c: char) -> bool {
    c == ' ' || c == '\t' || c == '\n' || c == '\u{b}' || c == '\u{c}' || c == '\r'
        || c == '\u{85}' || c == '\u{a0}' || c == '\u{1680}' || c == '\u{2000}'
        || c == '\u{2001}' || c == '\u{2002}' || c == '\u{2003}' || c == '\u{2004}'
        || c == '\u{2005}' || c == '\u{2006}' || c == '\u{2007}' || c == '\u{2008}'
        || c == '\u{2009}' || c == '\u{200a}' || c == '\u{2028}' || c == '\u{2029}'
        || c == '\u{202f}' || c == '\u{205f}' || c == '\u{3000}'
}

/// Whitespace test on one character.
pub fn ws_char(c: char) -> (r: bool)
    ensures
        r == is_ws(c),
{
    c == ' ' || c == '\t' || c == '\n' || c == '\u{b}' || c == '\u{c}' || c == '\r'
        || c == '\u{85}' || c == '\u{a0}' || c == '\u{1680}' || c == '\u{2000}'
        || c == '\u{2001}' || c == '\u{2002}' || c == '\u{2003}' || c == '\u{2004}'
        || c == '\u{2005}' || c == '\u{2006}' || c == '\u{2007}' || c == '\u{2008}'
        || c == '\u{2009}' || c == '\u{200a}' || c == '\u{2028}' || c == '\u{2029}'
        || c == '\u{202f}' || c == '\u{205f}' || c == '\u{3000}'
}

/// Index of the first `':'` at or after `from`, if any.
pub open spec fn find_colon_at(s: Seq<char>, from: int) -> Option<int>
    decreases s.len() - from,
{
    if from < 0 || from >= s.len() {
        None
    } else if s[from] == ':' {
        Some(from)
    } else {
        find_colon_at(s, from + 1)
    }
}

/// Index of the first whitespace character at or after `from`, if any.
pub open spec fn find_ws_at(s: Seq<char>, from: int) -> Option<int>
    decreases s.len() - from,
{
    if from < 0 || from >= s.len() {
        None
    } else if is_ws(s[from]) {
        Some(from)
    } else {
        find_ws_at(s, from + 1)
    }
}

/// Index of the first non-whitespace character at or after `from`, if any.
pub open spec fn find_non_ws_at(s: Seq<char>, from: int) -> Option<int>
    decreases s.len() - from,
{
    if from < 0 || from >= s.len() {
        None
    } else if !is_ws(s[from]) {
        Some(from)
    } else {
        find_non_ws_at(s, from + 1)
    }
}

/// Where a whitespace-reset capture begins: the position right after the
/// last whitespace character in `s[from..end]`, or `from` when that range
/// holds no whitespace.
pub open spec fn cap_start(s: Seq<char>, from: int, end: int) -> int
    decreases end - from,
{
    if end <= from {
        from
    } else if is_ws(s[end - 1]) {
        end
    } else {
        cap_start(s, from, end - 1)
    }
}

pub fn find_colon(s: &str, from: usize) -> (r: Option<usize>)
    requires
        from <= s@.len(),
    ensures
        match r {
            Some(i) => find_colon_at(s@, from as int) == Some(i as int) && from <= i < s@.len(),
            None => find_colon_at(s@, from as int) is None,
        },
{
    let n = s.unicode_len();
    let mut i = from;
    while i < n
        invariant
            from <= i <= n,
            n == s@.len(),
            find_colon_at(s@, from as int) == find_colon_at(s@, i as int),
        decreases n - i,
    {
        if s.get_char(i) == ':' {
            return Some(i);
        }
        i = i + 1;
    }
    None
}

pub fn find_ws(s: &str, from: usize) -> (r: Option<usize>)
    requires
        from <= s@.len(),
    ensures
        match r {
            Some(i) => find_ws_at(s@, from as int) == Some(i as int) && from <= i < s@.len(),
            None => find_ws_at(s@, from as int) is None,
        },
{
    let n = s.unicode_len();
    let mut i = from;
    while i < n
        invariant
            from <= i <= n,
            n == s@.len(),
            find_ws_at(s@, from as int) == find_ws_at(s@, i as int),
        decreases n - i,
    {
        if ws_char(s.get_char(i)) {
            return Some(i);
        }
        i = i + 1;
    }
    None
}

pub fn find_non_ws(s: &str, from: usize) -> (r: Option<usize>)
    requires
        from <= s@.len(),
    ensures
        match r {
            Some(i) => find_non_ws_at(s@, from as int) == Some(i as int) && from <= i < s@.len(),
            None => find_non_ws_at(s@, from as int) is None,
        },
{
    let n = s.unicode_len();
    let mut i = from;
    while i < n
        invariant
            from <= i <= n,
            n == s@.len(),
            find_non_ws_at(s@, from as int) == find_non_ws_at(s@, i as int),
        decreases n - i,
    {
        if !ws_char(s.get_char(i)) {
            return Some(i);
        }
        i = i + 1;
    }
    None
}

pub fn capture_start(s: &str, from: usize, end: usize) -> (r: usize)
    requires
        from <= end <= s@.len(),
    ensures
        r as int == cap_start(s@, from as int, end as int),
        from <= r <= end,
{
    let mut k = end;
    while k > from
        invariant
            from <= k <= end,
            end <= s@.len(),
            cap_start(s@, from as int, end as int) == cap_start(s@, from as int, k as int),
        decreases k,
    {
        if ws_char(s.get_char(k - 1)) {
            return k;
        }
        k = k - 1;
    }
    from
}

/// A decimal digit.
pub open spec fn is_digit(c: char) -> bool {
    48 <= c as u32 <= 57
}

/// Numeric value of one decimal digit.
pub open spec fn digit_val(c: char) -> nat {
    (c as u32 - 48) as nat
}

/// Value of a digit string read in base ten.
pub open spec fn digits_val(s: Seq<char>) -> nat
    decreases s.len(),
{
    if s.len() == 0 {
        0
    } else {
        digits_val(s.drop_last()) * 10 + digit_val(s.last())
    }
}

pub open spec fn all_digits(s: Seq<char>) -> bool {
    forall|k: int| 0 <= k < s.len() ==> is_digit(s[k])
}

/// What `usize::from_str` accepts of a non-negative decimal: an optional
/// leading `'+'` followed by at least one digit. The value is unbounded
/// here; the machine bound is checked where the number is used.
pub open spec fn dec_num(s: Seq<char>) -> Option<nat> {
    let body = if s.len() > 0 && s[0] == '+' {
        s.skip(1)
    } else {
        s
    };
    if body.len() > 0 && all_digits(body) {
        Some(digits_val(body))
    } else {
        None
    }
}

/// A prefix of the digit string never exceeds the whole string's value.
pub proof fn lemma_digits_val_prefix(s: Seq<char>, j: int)
    requires
        0 <= j <= s.len(),
    ensures
        digits_val(s.take(j)) <= digits_val(s),
    decreases s.len() - j,
{
    if j == s.len() {
        assert(s.take(j) =~= s);
    } else {
        lemma_digits_val_prefix(s.drop_last(), j);
        assert(s.take(j) =~= s.drop_last().take(j));
        assert(digits_val(s) == digits_val(s.drop_last()) * 10 + digit_val(s.last()));
        assert(digits_val(s.drop_last()) * 10 >= digits_val(s.drop_last()));
    }
}

/// Parses `s[from..to]` as a non-negative decimal that fits in `usize`,
/// exactly as `usize::from_str` would: `None` both on a grammar violation
/// and on a value over the machine bound.
pub fn parse_usize(s: &str, from: usize, to: usize) -> (r: Option<usize>)
    requires
        from <= to <= s@.len(),
    ensures
        match r {
            Some(v) => dec_num(s@.subrange(from as int, to as int)) == Some(v as nat),
            None => match dec_num(s@.subrange(from as int, to as int)) {
                Some(v) => v > usize::MAX,
                None => true,
            },
        },
{
    let ghost seg = s@.subrange(from as int, to as int);
    let mut i = from;
    if i < to && s.get_char(i) == '+' {
        i = i + 1;
    }
    let ghost bstart = i as int;
    let ghost body = s@.subrange(bstart, to as int);
    proof {
        if seg.len() > 0 && seg[0] == '+' {
            assert(body =~= seg.skip(1));
        } else {
            assert(body =~= seg);
        }
    }
    if i == to {
        return None;
    }
    let mut acc: usize = 0;
    while i < to
        invariant
            bstart <= i as int <= to,
            from <= to <= s@.len(),
            body == s@.subrange(bstart, to as int),
            0 <= bstart,
            seg == s@.subrange(from as int, to as int),
            body == (if seg.len() > 0 && seg[0] == '+' {
                seg.skip(1)
            } else {
                seg
            }),
            all_digits(body.take(i as int - bstart)),
            acc as nat == digits_val(body.take(i as int - bstart)),
        decreases to - i,
    {
        let c = s.get_char(i);
        let u = c as u32;
        if u < 48 || u > 57 {
            proof {
                assert(body[i as int - bstart] == c);
                assert(!all_digits(body));
            }
            return None;
        }
        let d = (u - 48) as usize;
        let ghost prev = body.take(i as int - bstart);
        let ghost next = body.take(i as int - bstart + 1);
        proof {
            assert(next.drop_last() =~= prev);
            assert(next.last() == c);
            assert(digits_val(next) == digits_val(prev) * 10 + digit_val(c));
        }
        let step = match acc.checked_mul(10) {
            Some(x) => x.checked_add(d),
            None => None,
        };
        match step {
            Some(y) => {
                acc = y;
            },
            None => {
                proof {
                    assert(digits_val(next) > usize::MAX);
                    lemma_digits_val_prefix(body, i as int - bstart + 1);
                    if dec_num(seg) is Some {
                        assert(dec_num(seg) == Some(digits_val(body)));
                        assert(digits_val(body) > usize::MAX);
                    }
                }
                return None;
            },
        }
        i = i + 1;
    }
    proof {
        assert(body.take(to as int - bstart) =~= body);
        assert(body.len() > 0);
        assert(dec_num(seg) == Some(digits_val(body)));
    }
    Some(acc)
}

/// Character-for-character string equality.
pub fn str_eq(a: &str, b: &str) -> (r: bool)
    ensures
        r == (a@ == b@),
{
    let na = a.unicode_len();
    let nb = b.unicode_len();
    if na != nb {
        return false;
    }
    let mut i: usize = 0;
    while i < na
        invariant
            0 <= i <= na,
            na == a@.len(),
            na == b@.len(),
            forall|k: int| 0 <= k < i ==> a@[k] == b@[k],
        decreases na - i,
    {
        if a.get_char(i) != b.get_char(i) {
            return false;
        }
        i = i + 1;
    }
    proof {
        assert(a@ =~= b@);
    }
    true
}

/// `p` is an initial segment of `s`.
pub open spec fn is_prefix(p: Seq<char>, s: Seq<char>) -> bool {
    p.len() <= s.len() && s.subrange(0, p.len() as int) == p
}

pub fn str_starts_with(s: &str, p: &str) -> (r: bool)
    ensures
        r == is_prefix(p@, s@),
{
    let np = p.unicode_len();
    let ns = s.unicode_len();
    if np > ns {
        return false;
    }
    let mut i: usize = 0;
    while i < np
        invariant
            0 <= i <= np,
            np == p@.len(),
            ns == s@.len(),
            np <= ns,
            forall|k: int| 0 <= k < i ==> s@[k] == p@[k],
        decreases np - i,
    {
        if s.get_char(i) != p.get_char(i) {
            proof {
                assert(s@.subrange(0, p@.len() as int)[i as int] == s@[i as int]);
            }
            return false;
        }
        i = i + 1;
    }
    proof {
        assert(s@.subrange(0, p@.len() as int) =~= p@);
    }
    true
}

/// `find_colon_at` finds exactly the first colon.
pub proof fn lemma_find_colon(s: Seq<char>, from: int, i: int)
    requires
        0 <= from <= i < s.len(),
        s[i] == ':',
        forall|k: int| from <= k < i ==> s[k] != ':',
    ensures
        find_colon_at(s, from) == Some(i),
    decreases i - from,
{
    if from < i {
        lemma_find_colon(s, from + 1, i);
    }
}

pub proof fn lemma_find_ws(s: Seq<char>, from: int, i: int)
    requires
        0 <= from <= i < s.len(),
        is_ws(s[i]),
        forall|k: int| from <= k < i ==> !is_ws(s[k]),
    ensures
        find_ws_at(s, from) == Some(i),
    decreases i - from,
{
    if from < i {
        lemma_find_ws(s, from + 1, i);
    }
}

pub proof fn lemma_find_non_ws(s: Seq<char>, from: int, i: int)
    requires
        0 <= from <= i < s.len(),
        !is_ws(s[i]),
        forall|k: int| from <= k < i ==> is_ws(s[k]),
    ensures
        find_non_ws_at(s, from) == Some(i),
    decreases i - from,
{
    if from < i {
        lemma_find_non_ws(s, from + 1, i);
    }
}

/// A colon-free region yields no hit.
pub proof fn lemma_find_colon_none(s: Seq<char>, from: int)
    requires
        0 <= from,
        forall|k: int| from <= k < s.len() ==> s[k] != ':',
    ensures
        find_colon_at(s, from) is None,
    decreases s.len() - from,
{
    if from < s.len() {
        lemma_find_colon_none(s, from + 1);
    }
}

/// What a successful whitespace search guarantees: the hit lies in range,
/// is whitespace, and nothing before it is.
pub proof fn lemma_find_ws_props(s: Seq<char>, from: int)
    requires
        0 <= from,
    ensures
        match find_ws_at(s, from) {
            Some(w) => from <= w < s.len() && is_ws(s[w])
                && (forall|k: int| from <= k < w ==> !is_ws(s[k])),
            None => forall|k: int| from <= k < s.len() ==> !is_ws(s[k]),
        },
    decreases s.len() - from,
{
    if from < s.len() && !is_ws(s[from]) {
        lemma_find_ws_props(s, from + 1);
    }
}

/// A capture whose tail `[m, end)` is whitespace-free and whose start is
/// either `from` itself or preceded by whitespace begins exactly at `m`.
pub proof fn lemma_cap_start(s: Seq<char>, from: int, end: int, m: int)
    requires
        0 <= from <= m <= end <= s.len(),
        forall|k: int| m <= k < end ==> !is_ws(s[k]),
        m == from || is_ws(s[m - 1]),
    ensures
        cap_start(s, from, end) == m,
    decreases end - m,
{
    if end > m {
        lemma_cap_start(s, from, end - 1, m);
    }
}

} // verus!
