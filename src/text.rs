//! Character-level text helpers shared by the planner, resolver and
//! elicitation logic. Text is handled as sequences of `char`.

use vstd::prelude::*;

verus! {

/// The characters of `s`, in order.
pub fn chars_of(s: &str) -> (r: Vec<char>)
    ensures
        r@ == s@,
{
    broadcast use vstd::string::axiom_spec_iter;
    let mut out: Vec<char> = Vec::new();
    for c in it: s.chars()
        invariant
            out.len() == it.index(),
            forall|i: int| 0 <= i < out.len() ==> out@[i] == it.seq()[i],
    {
        out.push(c);
    }
    assert(out@ =~= s@);
    out
}

/// Relies on `String: FromIterator<&char>`: a string made of exactly these characters.
#[verifier::external_body]
pub(crate) fn string_of(cs: &[char]) -> (r: String)
    ensures
        r@ == cs@,
{
    cs.iter().collect()
}

/// Unicode `White_Space`, the set that `char::is_whitespace` and `str::trim` use.
pub open spec fn is_ws(c: char) -> bool {
    ('\u{9}' <= c && c <= '\u{d}') || c == ' ' || c == '\u{85}' || c == '\u{a0}'
        || c == '\u{1680}' || ('\u{2000}' <= c && c <= '\u{200a}') || c == '\u{2028}'
        || c == '\u{2029}' || c == '\u{202f}' || c == '\u{205f}' || c == '\u{3000}'
}

pub fn is_whitespace_char(c: char) -> (r: bool)
    ensures
        r == is_ws(c),
{
    ('\u{9}' <= c && c <= '\u{d}') || c == ' ' || c == '\u{85}' || c == '\u{a0}'
        || c == '\u{1680}' || ('\u{2000}' <= c && c <= '\u{200a}') || c == '\u{2028}'
        || c == '\u{2029}' || c == '\u{202f}' || c == '\u{205f}' || c == '\u{3000}'
}

/// `s` without leading whitespace.
pub open spec fn trim_start(s: Seq<char>) -> Seq<char>
    decreases s.len(),
{
    if s.len() > 0 && is_ws(s[0]) {
        trim_start(s.drop_first())
    } else {
        s
    }
}

/// `s` without trailing whitespace.
pub open spec fn trim_end(s: Seq<char>) -> Seq<char>
    decreases s.len(),
{
    if s.len() > 0 && is_ws(s.last()) {
        trim_end(s.drop_last())
    } else {
        s
    }
}

/// `s` without leading and trailing whitespace.
pub open spec fn trimmed(s: Seq<char>) -> Seq<char> {
    trim_end(trim_start(s))
}

proof fn lemma_trim_start_from(s: Seq<char>, i: int)
    requires
        0 <= i <= s.len(),
        forall|k: int| 0 <= k < i ==> is_ws(#[trigger] s[k]),
    ensures
        trim_start(s) == trim_start(s.subrange(i, s.len() as int)),
    decreases i,
{
    if i > 0 {
        assert(s.drop_first() =~= s.subrange(1, s.len() as int));
        lemma_trim_start_from(s.drop_first(), i - 1);
        assert(s.drop_first().subrange(i - 1, s.drop_first().len() as int) =~= s.subrange(
            i,
            s.len() as int,
        ));
    } else {
        assert(s.subrange(0, s.len() as int) =~= s);
    }
}

proof fn lemma_trim_end_to(s: Seq<char>, j: int)
    requires
        0 <= j <= s.len(),
        forall|k: int| j <= k < s.len() ==> is_ws(#[trigger] s[k]),
    ensures
        trim_end(s) == trim_end(s.subrange(0, j)),
    decreases s.len() - j,
{
    if j < s.len() {
        lemma_trim_end_to(s.drop_last(), j);
        assert(s.drop_last().subrange(0, j) =~= s.subrange(0, j));
    } else {
        assert(s.subrange(0, j) =~= s);
    }
}

/// The characters of `cs` without leading and trailing whitespace.
pub fn trim_chars(cs: &Vec<char>) -> (r: Vec<char>)
    ensures
        r@ == trimmed(cs@),
{
    let n = cs.len();
    let mut i: usize = 0;
    while i < n && is_whitespace_char(cs[i])
        invariant
            n == cs.len(),
            0 <= i <= n,
            forall|k: int| 0 <= k < i ==> is_ws(#[trigger] cs@[k]),
        decreases n - i,
    {
        i = i + 1;
    }
    proof {
        lemma_trim_start_from(cs@, i as int);
    }
    let ghost rest = cs@.subrange(i as int, n as int);
    let mut j: usize = n;
    while j > i && is_whitespace_char(cs[j - 1])
        invariant
            n == cs.len(),
            i <= j <= n,
            forall|k: int| j <= k < n ==> is_ws(#[trigger] cs@[k]),
        decreases j,
    {
        j = j - 1;
    }
    let mut out: Vec<char> = Vec::new();
    let mut k: usize = i;
    while k < j
        invariant
            i <= k <= j <= n,
            n == cs.len(),
            out@ == cs@.subrange(i as int, k as int),
        decreases j - k,
    {
        out.push(cs[k]);
        k = k + 1;
        assert(out@ =~= cs@.subrange(i as int, k as int));
    }
    proof {
        if i < n && !is_ws(cs@[i as int]) {
            assert(trim_start(rest) == rest);
        } else {
            assert(i == n);
            assert(rest.len() == 0);
        }
        assert(trim_start(cs@) == rest);
        assert forall|k2: int| (j - i) <= k2 < rest.len() implies is_ws(#[trigger] rest[k2]) by {
            assert(rest[k2] == cs@[i + k2]);
        }
        lemma_trim_end_to(rest, j - i);
        let r2 = rest.subrange(0, j - i);
        assert(r2 =~= cs@.subrange(i as int, j as int));
        if j > i {
            assert(r2.last() == cs@[j - 1]);
        }
        assert(trim_end(r2) == r2);
    }
    out
}

/// Trims a string: leading and trailing whitespace removed.
pub fn trim(s: &str) -> (r: String)
    ensures
        r@ == trimmed(s@),
{
    let cs = chars_of(s);
    let t = trim_chars(&cs);
    string_of(t.as_slice())
}

/// ASCII lower-casing of one character; other characters are kept.
pub open spec fn lower_char(c: char) -> char {
    if 'A' <= c && c <= 'Z' {
        (((c as u8) + 32) as u8) as char
    } else {
        c
    }
}

/// ASCII upper-casing of one character; other characters are kept.
pub open spec fn upper_char(c: char) -> char {
    if 'a' <= c && c <= 'z' {
        (((c as u8) - 32) as u8) as char
    } else {
        c
    }
}

pub open spec fn lower_seq(s: Seq<char>) -> Seq<char> {
    s.map_values(|c: char| lower_char(c))
}

pub open spec fn upper_seq(s: Seq<char>) -> Seq<char> {
    s.map_values(|c: char| upper_char(c))
}

pub fn to_ascii_lower(cs: &Vec<char>) -> (r: Vec<char>)
    ensures
        r@ == lower_seq(cs@),
{
    let mut out: Vec<char> = Vec::new();
    let mut i: usize = 0;
    while i < cs.len()
        invariant
            i <= cs.len(),
            out@ == lower_seq(cs@.subrange(0, i as int)),
        decreases cs.len() - i,
    {
        let c = cs[i];
        let l = if 'A' <= c && c <= 'Z' {
            (((c as u8) + 32) as u8) as char
        } else {
            c
        };
        out.push(l);
        i = i + 1;
        assert(out@ =~= lower_seq(cs@.subrange(0, i as int)));
    }
    assert(cs@.subrange(0, cs.len() as int) =~= cs@);
    out
}

pub fn to_ascii_upper(cs: &Vec<char>) -> (r: Vec<char>)
    ensures
        r@ == upper_seq(cs@),
{
    let mut out: Vec<char> = Vec::new();
    let mut i: usize = 0;
    while i < cs.len()
        invariant
            i <= cs.len(),
            out@ == upper_seq(cs@.subrange(0, i as int)),
        decreases cs.len() - i,
    {
        let c = cs[i];
        let u = if 'a' <= c && c <= 'z' {
            (((c as u8) - 32) as u8) as char
        } else {
            c
        };
        out.push(u);
        i = i + 1;
        assert(out@ =~= upper_seq(cs@.subrange(0, i as int)));
    }
    assert(cs@.subrange(0, cs.len() as int) =~= cs@);
    out
}

/// Whether `n` occurs in `h` starting at position `i`.
pub open spec fn occurs_at(h: Seq<char>, n: Seq<char>, i: int) -> bool {
    0 <= i && i + n.len() <= h.len() && h.subrange(i, i + n.len()) == n
}

/// The first position at or after `from` where `n` occurs in `h`, or -1.
pub open spec fn first_occ(h: Seq<char>, n: Seq<char>, from: int) -> int
    decreases h.len() + 1 - from,
{
    if from < 0 || from + n.len() > h.len() {
        -1
    } else if occurs_at(h, n, from) {
        from
    } else {
        first_occ(h, n, from + 1)
    }
}

/// Whether `n` occurs anywhere in `h`.
pub open spec fn contains_seq(h: Seq<char>, n: Seq<char>) -> bool {
    exists|i: int| occurs_at(h, n, i)
}

pub proof fn lemma_first_occ_bounds(h: Seq<char>, n: Seq<char>, from: int)
    requires
        from >= 0,
    ensures
        first_occ(h, n, from) == -1 || (from <= first_occ(h, n, from) && occurs_at(
            h,
            n,
            first_occ(h, n, from),
        )),
        first_occ(h, n, from) == -1 ==> forall|j: int| from <= j ==> !occurs_at(h, n, j),
    decreases h.len() + 1 - from,
{
    if from < 0 || from + n.len() > h.len() {
        assert forall|j: int| from <= j implies !occurs_at(h, n, j) by {}
    } else if !occurs_at(h, n, from) {
        lemma_first_occ_bounds(h, n, from + 1);
    }
}

fn matches_at(h: &Vec<char>, n: &Vec<char>, i: usize) -> (r: bool)
    requires
        i + n.len() <= h.len(),
    ensures
        r == occurs_at(h@, n@, i as int),
{
    let mut k: usize = 0;
    while k < n.len()
        invariant
            k <= n.len(),
            i + n.len() <= h.len(),
            forall|m: int| 0 <= m < k ==> h@[i + m] == n@[m],
        decreases n.len() - k,
    {
        if h[i + k] != n[k] {
            assert(h@.subrange(i as int, i + n.len())[k as int] != n@[k as int]);
            return false;
        }
        k = k + 1;
    }
    assert(h@.subrange(i as int, i + n.len()) =~= n@);
    true
}

/// The first position at or after `from` where `n` occurs in `h`.
pub fn find_seq(h: &Vec<char>, n: &Vec<char>, from: usize) -> (r: Option<usize>)
    ensures
        match r {
            Some(i) => i as int == first_occ(h@, n@, from as int),
            None => first_occ(h@, n@, from as int) == -1,
        },
{
    if n.len() > h.len() {
        return None;
    }
    let last = h.len() - n.len();
    if from > last {
        return None;
    }
    let mut i: usize = from;
    while i < last
        invariant
            from <= i <= last,
            last == h.len() - n.len(),
            n.len() <= h.len(),
            first_occ(h@, n@, from as int) == first_occ(h@, n@, i as int),
        decreases last - i,
    {
        if matches_at(h, n, i) {
            return Some(i);
        }
        i = i + 1;
    }
    if matches_at(h, n, i) {
        Some(i)
    } else {
        assert(first_occ(h@, n@, i + 1) == -1);
        None
    }
}

/// Whether `n` occurs in `h`.
pub fn contains_chars(h: &Vec<char>, n: &Vec<char>) -> (r: bool)
    ensures
        r == contains_seq(h@, n@),
{
    let f = find_seq(h, n, 0);
    proof {
        lemma_first_occ_bounds(h@, n@, 0);
        if f.is_none() {
            assert forall|i: int| !occurs_at(h@, n@, i) by {
                if i >= 0 {
                    assert(!occurs_at(h@, n@, i));
                }
            }
        }
    }
    f.is_some()
}

/// The first position of `c` in `s`, or -1.
pub open spec fn first_char(s: Seq<char>, c: char) -> int {
    first_occ(s, seq![c], 0)
}

/// The last position of `c` in `s` before `end`, or -1.
pub open spec fn last_char_before(s: Seq<char>, c: char, end: int) -> int
    decreases end,
{
    if end <= 0 || end > s.len() {
        -1
    } else if s[end - 1] == c {
        end - 1
    } else {
        last_char_before(s, c, end - 1)
    }
}

/// The object-shaped part of a model's reply: the trimmed text from its
/// first `{` to its last `}`, or the whole trimmed text where there is no
/// such pair.
pub open spec fn json_slice_of(s: Seq<char>) -> Seq<char> {
    let t = trimmed(s);
    let a = first_char(t, '{');
    let b = last_char_before(t, '}', t.len() as int);
    if a >= 0 && b >= 0 && b >= a {
        t.subrange(a, b + 1)
    } else {
        t
    }
}

pub proof fn lemma_last_char_before(s: Seq<char>, c: char, end: int)
    ensures
        last_char_before(s, c, end) == -1 || (0 <= last_char_before(s, c, end) < end && end <= s.len()
            && s[last_char_before(s, c, end)] == c),
    decreases end,
{
    if 0 < end <= s.len() && s[end - 1] != c {
        lemma_last_char_before(s, c, end - 1);
    }
}

fn first_char_index(s: &Vec<char>, c: char) -> (r: Option<usize>)
    ensures
        match r {
            Some(i) => i as int == first_char(s@, c),
            None => first_char(s@, c) == -1,
        },
{
    let pat: Vec<char> = vec![c];
    assert(pat@ =~= seq![c]);
    find_seq(s, &pat, 0)
}

pub fn last_char_index(s: &Vec<char>, c: char) -> (r: Option<usize>)
    ensures
        match r {
            Some(i) => i as int == last_char_before(s@, c, s.len() as int),
            None => last_char_before(s@, c, s.len() as int) == -1,
        },
{
    let mut end: usize = s.len();
    while end > 0
        invariant
            end <= s.len(),
            last_char_before(s@, c, s.len() as int) == last_char_before(s@, c, end as int),
        decreases end,
    {
        if s[end - 1] == c {
            return Some(end - 1);
        }
        end = end - 1;
    }
    None
}

/// Cuts the object-shaped part out of a model's reply.
pub fn json_slice(s: &str) -> (r: String)
    ensures
        r@ == json_slice_of(s@),
{
    let cs = chars_of(s);
    let t = trim_chars(&cs);
    let a = first_char_index(&t, '{');
    let b = last_char_index(&t, '}');
    match (a, b) {
        (Some(a), Some(b)) => {
            if b >= a {
                proof {
                    lemma_last_char_before(t@, '}', t.len() as int);
                }
                let mut out: Vec<char> = Vec::new();
                let mut k: usize = a;
                while k <= b
                    invariant
                        a <= k <= b + 1,
                        b < t.len(),
                        out@ == t@.subrange(a as int, k as int),
                    decreases b + 1 - k,
                {
                    out.push(t[k]);
                    k = k + 1;
                    assert(out@ =~= t@.subrange(a as int, k as int));
                }
                return string_of(out.as_slice());
            }
        },
        _ => {},
    }
    string_of(t.as_slice())
}

/// Appends the characters of `s` to `out`.
pub fn push_chars(out: &mut Vec<char>, s: &[char])
    ensures
        final(out)@ == old(out)@ + s@,
{
    let mut i: usize = 0;
    while i < s.len()
        invariant
            i <= s.len(),
            out@ == old(out)@ + s@.subrange(0, i as int),
        decreases s.len() - i,
    {
        out.push(s[i]);
        i = i + 1;
        assert(out@ =~= old(out)@ + s@.subrange(0, i as int));
    }
    assert(s@.subrange(0, s.len() as int) =~= s@);
}

/// Appends the characters of `s` to `out`.
pub fn push_str(out: &mut Vec<char>, s: &str)
    ensures
        final(out)@ == old(out)@ + s@,
{
    let cs = chars_of(s);
    push_chars(out, cs.as_slice());
}

/// Whether two character sequences are equal.
pub fn chars_eq(a: &[char], b: &[char]) -> (r: bool)
    ensures
        r == (a@ == b@),
{
    if a.len() != b.len() {
        return false;
    }
    let mut i: usize = 0;
    while i < a.len()
        invariant
            i <= a.len(),
            a.len() == b.len(),
            forall|k: int| 0 <= k < i ==> a@[k] == b@[k],
        decreases a.len() - i,
    {
        if a[i] != b[i] {
            return false;
        }
        i = i + 1;
    }
    assert(a@ =~= b@);
    true
}

/// Whether `s` equals `word` in ASCII case-insensitive comparison.
pub fn eq_ignore_ascii_case(s: &str, word: &str) -> (r: bool)
    ensures
        r == (lower_seq(s@) == lower_seq(word@)),
{
    let a = to_ascii_lower(&chars_of(s));
    let b = to_ascii_lower(&chars_of(word));
    chars_eq(a.as_slice(), b.as_slice())
}

/// The characters of `s` from `start` to `end`.
pub fn slice_chars(s: &Vec<char>, start: usize, end: usize) -> (r: Vec<char>)
    requires
        start <= end <= s.len(),
    ensures
        r@ == s@.subrange(start as int, end as int),
{
    let mut out: Vec<char> = Vec::new();
    let mut k: usize = start;
    while k < end
        invariant
            start <= k <= end <= s.len(),
            out@ == s@.subrange(start as int, k as int),
        decreases end - k,
    {
        out.push(s[k]);
        k = k + 1;
        assert(out@ =~= s@.subrange(start as int, k as int));
    }
    out
}

} // verus!
