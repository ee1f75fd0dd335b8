//! Character-sequence helpers shared by the rest of the library.

use vstd::prelude::*;

verus! {

/// ASCII whitespace, as trimmed from names and tokens.
pub open spec fn is_space(c: char) -> bool {
    c == ' ' || c == '\t' || c == '\n' || c == '\r' || c == '\x0b' || c == '\x0c'
}

/// The characters removed by a trim: slashes when `slash`, whitespace otherwise.
pub open spec fn trimmed_char(c: char, slash: bool) -> bool {
    if slash {
        c == '/'
    } else {
        is_space(c)
    }
}

/// `s` without its leading trimmed characters.
pub open spec fn trim_start_by(s: Seq<char>, slash: bool) -> Seq<char>
    decreases s.len(),
{
    if s.len() > 0 && trimmed_char(s[0], slash) {
        trim_start_by(s.drop_first(), slash)
    } else {
        s
    }
}

/// `s` without its trailing trimmed characters.
pub open spec fn trim_end_by(s: Seq<char>, slash: bool) -> Seq<char>
    decreases s.len(),
{
    if s.len() > 0 && trimmed_char(s.last(), slash) {
        trim_end_by(s.drop_last(), slash)
    } else {
        s
    }
}

/// `s` without surrounding whitespace.
pub open spec fn trim_spaces(s: Seq<char>) -> Seq<char> {
    trim_end_by(trim_start_by(s, false), false)
}

/// `s` without surrounding slashes.
pub open spec fn trim_slashes(s: Seq<char>) -> Seq<char> {
    trim_end_by(trim_start_by(s, true), true)
}

/// Lower-cases the ASCII letters of `c`.
pub open spec fn ascii_lower(c: char) -> char {
    if 'A' <= c && c <= 'Z' {
        ((c as u32) + 32) as char
    } else {
        c
    }
}

/// Equality of two texts up to the case of ASCII letters.
pub open spec fn eq_ignore_ascii_case(a: Seq<char>, b: Seq<char>) -> bool {
    a.len() == b.len() && forall|i: int| 0 <= i < a.len() ==> ascii_lower(a[i]) == ascii_lower(b[i])
}

/// Relies on `str::chars`: the characters of `s`, in order.
#[verifier::external_body]
pub(crate) fn to_chars(s: &str) -> (r: Vec<char>)
    ensures
        r@ == s@,
{
    s.chars().collect()
}

/// Relies on `String::from_iter`: the text made of the characters of `v`, in order.
#[verifier::external_body]
pub(crate) fn from_chars(v: &[char]) -> (r: String)
    ensures
        r@ == v@,
{
    v.iter().collect()
}

/// The elements `lo..hi` of `v`.
pub fn slice_chars(v: &Vec<char>, lo: usize, hi: usize) -> (r: Vec<char>)
    requires
        lo <= hi <= v@.len(),
    ensures
        r@ == v@.subrange(lo as int, hi as int),
{
    let mut r: Vec<char> = Vec::new();
    let mut i: usize = lo;
    while i < hi
        invariant
            lo <= i <= hi <= v@.len(),
            r@ == v@.subrange(lo as int, i as int),
        decreases hi - i,
    {
        r.push(v[i]);
        i = i + 1;
        assert(r@ =~= v@.subrange(lo as int, i as int));
    }
    r
}

/// The bytes `lo..hi` of `v`.
pub fn slice_bytes(v: &Vec<u8>, lo: usize, hi: usize) -> (r: Vec<u8>)
    requires
        lo <= hi <= v@.len(),
    ensures
        r@ == v@.subrange(lo as int, hi as int),
{
    let mut r: Vec<u8> = Vec::new();
    let mut i: usize = lo;
    while i < hi
        invariant
            lo <= i <= hi <= v@.len(),
            r@ == v@.subrange(lo as int, i as int),
        decreases hi - i,
    {
        r.push(v[i]);
        i = i + 1;
        assert(r@ =~= v@.subrange(lo as int, i as int));
    }
    r
}

/// Lower-cases the ASCII letters of `c`.
pub fn lower_char(c: char) -> (r: char)
    ensures
        r == ascii_lower(c),
{
    if 'A' <= c && c <= 'Z' {
        ((c as u32) + 32) as u8 as char
    } else {
        c
    }
}

/// Whether `a` and `b` are equal up to the case of ASCII letters.
pub fn chars_eq_ignore_case(a: &Vec<char>, b: &Vec<char>) -> (r: bool)
    ensures
        r == eq_ignore_ascii_case(a@, b@),
{
    if a.len() != b.len() {
        return false;
    }
    let mut i: usize = 0;
    while i < a.len()
        invariant
            a@.len() == b@.len(),
            i <= a@.len(),
            forall|j: int| 0 <= j < i ==> ascii_lower(a@[j]) == ascii_lower(b@[j]),
        decreases a@.len() - i,
    {
        if lower_char(a[i]) != lower_char(b[i]) {
            return false;
        }
        i = i + 1;
    }
    true
}

/// Whether two texts are equal.
pub fn chars_equal(a: &Vec<char>, b: &Vec<char>) -> (r: bool)
    ensures
        r == (a@ == b@),
{
    if a.len() != b.len() {
        return false;
    }
    let mut i: usize = 0;
    while i < a.len()
        invariant
            a@.len() == b@.len(),
            i <= a@.len(),
            forall|j: int| 0 <= j < i ==> a@[j] == b@[j],
        decreases a@.len() - i,
    {
        if a[i] != b[i] {
            return false;
        }
        i = i + 1;
    }
    assert(a@ =~= b@);
    true
}

/// Whether two strings are equal.
pub fn str_equal(a: &str, b: &str) -> (r: bool)
    ensures
        r == (a@ == b@),
{
    let va = to_chars(a);
    let vb = to_chars(b);
    chars_equal(&va, &vb)
}

proof fn lemma_trim_start_skip(s: Seq<char>, i: int, slash: bool)
    requires
        0 <= i < s.len(),
        trimmed_char(s[i], slash),
    ensures
        trim_start_by(s.subrange(i, s.len() as int), slash) == trim_start_by(
            s.subrange(i + 1, s.len() as int),
            slash,
        ),
{
    let t = s.subrange(i, s.len() as int);
    assert(t.drop_first() =~= s.subrange(i + 1, s.len() as int));
}

proof fn lemma_trim_end_skip(s: Seq<char>, lo: int, hi: int, slash: bool)
    requires
        0 <= lo < hi <= s.len(),
        trimmed_char(s[hi - 1], slash),
    ensures
        trim_end_by(s.subrange(lo, hi), slash) == trim_end_by(s.subrange(lo, hi - 1), slash),
{
    let t = s.subrange(lo, hi);
    assert(t.drop_last() =~= s.subrange(lo, hi - 1));
}

fn is_trimmed(c: char, slash: bool) -> (r: bool)
    ensures
        r == trimmed_char(c, slash),
{
    if slash {
        c == '/'
    } else {
        c == ' ' || c == '\t' || c == '\n' || c == '\r' || c == '\x0b' || c == '\x0c'
    }
}

/// `v` without its surrounding slashes (`slash`) or whitespace.
fn trim_chars(v: &Vec<char>, slash: bool) -> (r: Vec<char>)
    ensures
        r@ == trim_end_by(trim_start_by(v@, slash), slash),
{
    let n = v.len();
    let mut lo: usize = 0;
    proof {
        assert(v@.subrange(0, n as int) =~= v@);
    }
    while lo < n && is_trimmed(v[lo], slash)
        invariant
            lo <= n == v@.len(),
            trim_start_by(v@, slash) == trim_start_by(v@.subrange(lo as int, n as int), slash),
        decreases n - lo,
    {
        proof {
            lemma_trim_start_skip(v@, lo as int, slash);
        }
        lo = lo + 1;
    }
    let ghost t = v@.subrange(lo as int, n as int);
    assert(trim_start_by(v@, slash) == t);
    let mut hi: usize = n;
    while hi > lo && is_trimmed(v[hi - 1], slash)
        invariant
            lo <= hi <= n == v@.len(),
            t == v@.subrange(lo as int, n as int),
            trim_end_by(t, slash) == trim_end_by(v@.subrange(lo as int, hi as int), slash),
        decreases hi - lo,
    {
        proof {
            lemma_trim_end_skip(v@, lo as int, hi as int, slash);
        }
        hi = hi - 1;
    }
    slice_chars(v, lo, hi)
}

/// `v` without surrounding whitespace.
pub fn trim_space_chars(v: &Vec<char>) -> (r: Vec<char>)
    ensures
        r@ == trim_spaces(v@),
{
    trim_chars(v, false)
}

/// `v` without surrounding slashes.
pub fn trim_slash_chars(v: &Vec<char>) -> (r: Vec<char>)
    ensures
        r@ == trim_slashes(v@),
{
    trim_chars(v, true)
}

/// `k` is the first position of `c` in `p`.
pub open spec fn first_at(p: Seq<char>, c: char, k: int) -> bool {
    0 <= k < p.len() && p[k] == c && forall|j: int| 0 <= j < k ==> p[j] != c
}

/// The first position of `c` in `p`, if any.
pub open spec fn first_of(p: Seq<char>, c: char) -> Option<int> {
    if exists|k: int| first_at(p, c, k) {
        Some(choose|k: int| first_at(p, c, k))
    } else {
        None
    }
}

pub proof fn lemma_first_of(p: Seq<char>, c: char)
    ensures
        first_of(p, c) matches Some(k) ==> first_at(p, c, k),
{
}

/// The first position of `c` in `p`, if any.
pub fn find_char(p: &Vec<char>, c: char) -> (r: Option<usize>)
    ensures
        match r {
            Some(k) => first_of(p@, c) == Some(k as int),
            None => first_of(p@, c) is None,
        },
{
    let mut i: usize = 0;
    while i < p.len()
        invariant
            i <= p@.len(),
            forall|j: int| 0 <= j < i ==> p@[j] != c,
        decreases p@.len() - i,
    {
        if p[i] == c {
            proof {
                assert(first_at(p@, c, i as int));
                let k = choose|k: int| first_at(p@, c, k);
                assert(k == i as int) by {
                    if k < i as int {
                        assert(p@[k] != c);
                    } else if k > i as int {
                        assert(p@[i as int] != c);
                    }
                }
            }
            return Some(i);
        }
        i = i + 1;
    }
    proof {
        assert(!exists|k: int| first_at(p@, c, k)) by {
            if exists|k: int| first_at(p@, c, k) {
                let k = choose|k: int| first_at(p@, c, k);
                assert(p@[k] != c);
            }
        }
    }
    None
}

} // verus!
