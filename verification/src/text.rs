//! Text as sequences of characters: the small set of string operations the
//! rest of the library is written in (trimming, splitting into lines,
//! searching), each with a specification over `Seq<char>`.
use vstd::prelude::*;

verus! {

// ---------------------------------------------------------------------------
// Specifications
// ---------------------------------------------------------------------------

/// Unicode `White_Space` property: the characters that `char::is_whitespace`
/// accepts (and that `str::trim` removes).
pub open spec fn is_ws(c: char) -> bool {
    let u = c as u32;
    ||| 0x09 <= u <= 0x0D
    ||| u == 0x20
    ||| u == 0x85
    ||| u == 0xA0
    ||| u == 0x1680
    ||| 0x2000 <= u <= 0x200A
    ||| u == 0x2028
    ||| u == 0x2029
    ||| u == 0x202F
    ||| u == 0x205F
    ||| u == 0x3000
}

/// `s` without its leading whitespace.
pub open spec fn trim_start(s: Seq<char>) -> Seq<char>
    decreases s.len(),
{
    if s.len() > 0 && is_ws(s[0]) {
        trim_start(s.drop_first())
    } else {
        s
    }
}

/// `s` without its trailing whitespace.
pub open spec fn trim_end(s: Seq<char>) -> Seq<char>
    decreases s.len(),
{
    if s.len() > 0 && is_ws(s.last()) {
        trim_end(s.drop_last())
    } else {
        s
    }
}

/// `s` without leading and trailing whitespace (`str::trim`).
pub open spec fn trim(s: Seq<char>) -> Seq<char> {
    trim_start(trim_end(s))
}

/// `s` without the leading occurrences of `c`.
pub open spec fn trim_start_char(s: Seq<char>, c: char) -> Seq<char>
    decreases s.len(),
{
    if s.len() > 0 && s[0] == c {
        trim_start_char(s.drop_first(), c)
    } else {
        s
    }
}

/// `s` without the trailing occurrences of `c`.
pub open spec fn trim_end_char(s: Seq<char>, c: char) -> Seq<char>
    decreases s.len(),
{
    if s.len() > 0 && s.last() == c {
        trim_end_char(s.drop_last(), c)
    } else {
        s
    }
}

/// `s` without leading and trailing occurrences of `c` (`str::trim_matches(c)`).
pub open spec fn trim_char(s: Seq<char>, c: char) -> Seq<char> {
    trim_start_char(trim_end_char(s, c), c)
}

/// Whether `p` is a prefix of `s`.
pub open spec fn starts_with(s: Seq<char>, p: Seq<char>) -> bool {
    p.len() <= s.len() && s.subrange(0, p.len() as int) == p
}

/// Whether `p` is a suffix of `s`.
pub open spec fn ends_with(s: Seq<char>, p: Seq<char>) -> bool {
    p.len() <= s.len() && s.subrange(s.len() - p.len(), s.len() as int) == p
}

/// Whether `p` occurs in `s` starting at position `i`.
pub open spec fn matches_at(s: Seq<char>, p: Seq<char>, i: int) -> bool {
    0 <= i && i + p.len() <= s.len() && s.subrange(i, i + p.len()) == p
}

/// The first position at or after `i` where `p` occurs in `s`.
pub open spec fn find_from(s: Seq<char>, p: Seq<char>, i: int) -> Option<int>
    decreases s.len() + 1 - i,
{
    if i < 0 || i + p.len() > s.len() {
        None
    } else if matches_at(s, p, i) {
        Some(i)
    } else {
        find_from(s, p, i + 1)
    }
}

/// The first position where `p` occurs in `s` (`str::find`).
pub open spec fn find(s: Seq<char>, p: Seq<char>) -> Option<int> {
    find_from(s, p, 0)
}

/// Whether `p` occurs in `s` (`str::contains`).
pub open spec fn contains(s: Seq<char>, p: Seq<char>) -> bool {
    find(s, p) is Some
}

/// The first position of the character `c` in `s`.
pub open spec fn index_of(s: Seq<char>, c: char) -> Option<int>
    decreases s.len(),
{
    if s.len() == 0 {
        None
    } else if s[0] == c {
        Some(0)
    } else {
        match index_of(s.drop_first(), c) {
            Some(i) => Some(i + 1),
            None => None,
        }
    }
}

/// `s` split at the first `c` (`str::split_once(c)`).
pub open spec fn split_once(s: Seq<char>, c: char) -> Option<(Seq<char>, Seq<char>)> {
    match index_of(s, c) {
        Some(i) => Some((s.take(i), s.skip(i + 1))),
        None => None,
    }
}

/// Whether the character `c` occurs in `s`.
pub open spec fn has_char(s: Seq<char>, c: char) -> bool {
    exists|i: int| 0 <= i < s.len() && s[i] == c
}

/// The pieces of `s` between newline characters: one more than there are
/// newlines in `s`.
pub open spec fn split_nl(s: Seq<char>) -> Seq<Seq<char>>
    decreases s.len(),
{
    if s.len() == 0 {
        seq![Seq::<char>::empty()]
    } else {
        let prev = split_nl(s.drop_last());
        if s.last() == '\n' {
            prev.push(Seq::<char>::empty())
        } else {
            prev.update(prev.len() - 1, prev.last().push(s.last()))
        }
    }
}

/// The contents of each character vector.
pub open spec fn views(vs: Seq<Vec<char>>) -> Seq<Seq<char>> {
    vs.map_values(|v: Vec<char>| v@)
}

/// `s` without one trailing carriage return.
pub open spec fn strip_cr(s: Seq<char>) -> Seq<char> {
    if s.len() > 0 && s.last() == '\r' {
        s.drop_last()
    } else {
        s
    }
}

/// The lines of `s` (`str::lines`): split at `\n`, a `\r` right before a
/// `\n` dropped, and no final empty line.
pub open spec fn lines(s: Seq<char>) -> Seq<Seq<char>> {
    let segs = split_nl(s);
    let body = segs.drop_last().map_values(|l: Seq<char>| strip_cr(l));
    if segs.last().len() == 0 {
        body
    } else {
        body.push(segs.last())
    }
}

/// Each line of `ls` followed by a newline.
pub open spec fn terminated(ls: Seq<Seq<char>>) -> Seq<char>
    decreases ls.len(),
{
    if ls.len() == 0 {
        Seq::<char>::empty()
    } else {
        terminated(ls.drop_last()) + ls.last() + seq!['\n']
    }
}

/// `ls.join("\n") + "\n"`.
pub open spec fn join_lines(ls: Seq<Seq<char>>) -> Seq<char> {
    if ls.len() == 0 {
        seq!['\n']
    } else {
        terminated(ls)
    }
}

/// Every character of `s` mapped by `f`.
pub open spec fn map_chars(s: Seq<char>, f: spec_fn(char) -> char) -> Seq<char> {
    s.map_values(f)
}

/// The decimal digits of `n`.
pub open spec fn decimal(n: nat) -> Seq<char>
    decreases n,
{
    if n < 10 {
        seq![digit_char(n)]
    } else {
        decimal(n / 10) + seq![digit_char(n % 10)]
    }
}

/// The decimal digit character for `d < 10`.
pub open spec fn digit_char(d: nat) -> char {
    if d == 0 { '0' }
    else if d == 1 { '1' }
    else if d == 2 { '2' }
    else if d == 3 { '3' }
    else if d == 4 { '4' }
    else if d == 5 { '5' }
    else if d == 6 { '6' }
    else if d == 7 { '7' }
    else if d == 8 { '8' }
    else { '9' }
}

// ---------------------------------------------------------------------------
// Trusted facts about std
// ---------------------------------------------------------------------------

/// `String::push` appends one character.
pub assume_specification[ String::push ](s: &mut String, ch: char)
    ensures
        final(s)@ == old(s)@.push(ch),
;

/// What `str::to_lowercase` gives for `s` (full Unicode case mapping).
pub uninterp spec fn lowercase(s: Seq<char>) -> Seq<char>;

/// A character lower-cased as ASCII: `A` to `Z` become `a` to `z`, anything
/// else stays.
pub open spec fn ascii_lower(c: char) -> char {
    if 'A' <= c && c <= 'Z' {
        ((c as u32) + 32) as char
    } else {
        c
    }
}

/// Whether every character of `s` is ASCII.
pub open spec fn is_ascii_text(s: Seq<char>) -> bool {
    forall|i: int| 0 <= i < s.len() ==> (#[trigger] s[i] as u32) < 128
}

/// `str::to_lowercase`: the text with every character mapped to lower case
/// by Unicode's rules. Its result is named `lowercase`; of it, only two
/// facts are stated here: an ASCII text is lower-cased character by
/// character (`A` to `Z` become `a` to `z`, other ASCII characters stay),
/// and a text without a newline lower-cases to one without a newline (no
/// character's lower-case mapping holds U+000A but U+000A's own).
#[verifier::external_body]
pub(crate) fn to_lowercase(s: &str) -> (r: String)
    ensures
        r@ == lowercase(s@),
        is_ascii_text(s@) ==> r@ == s@.map_values(|c: char| ascii_lower(c)),
        !has_char(s@, '\n') ==> !has_char(r@, '\n'),
{
    s.to_lowercase()
}

/// What `char::is_alphanumeric` gives for `c` (Unicode Alphabetic or
/// Numeric).
pub uninterp spec fn alphanumeric(c: char) -> bool;

/// `char::is_alphanumeric`: whether `c` has Unicode's Alphabetic or Numeric
/// property. Its result is named `alphanumeric`; of it, only that among
/// ASCII characters exactly the letters and digits are alphanumeric is
/// stated here.
#[verifier::external_body]
pub(crate) fn is_alphanumeric(c: char) -> (r: bool)
    ensures
        r == alphanumeric(c),
        (c as u32) < 128 ==> r == (('a' <= c && c <= 'z') || ('A' <= c && c <= 'Z') || ('0' <= c
            && c <= '9')),
{
    c.is_alphanumeric()
}

// ---------------------------------------------------------------------------
// Executable operations
// ---------------------------------------------------------------------------

/// The characters of `s`, in order.
pub fn chars_of(s: &str) -> (v: Vec<char>)
    ensures
        v@ == s@,
{
    let mut v: Vec<char> = Vec::new();
    for c in it: s.chars()
        invariant
            v@ == it.seq().take(it.index() as int),
            it.seq() == s@,
    {
        v.push(c);
    }
    v
}

/// A `String` holding the characters of `v`.
pub fn string_of(v: &Vec<char>) -> (s: String)
    ensures
        s@ == v@,
{
    let mut s = String::new();
    let n = v.len();
    for i in 0..n
        invariant
            n == v.len(),
            s@ == v@.take(i as int),
    {
        s.push(v[i]);
        assert(v@.take(i + 1) == v@.take(i as int).push(v@[i as int]));
    }
    assert(v@.take(n as int) == v@);
    s
}

/// Whether `c` is Unicode whitespace (`char::is_whitespace`).
pub fn is_whitespace(c: char) -> (b: bool)
    ensures
        b == is_ws(c),
{
    let u = c as u32;
    (0x09 <= u && u <= 0x0D) || u == 0x20 || u == 0x85 || u == 0xA0 || u == 0x1680 || (0x2000
        <= u && u <= 0x200A) || u == 0x2028 || u == 0x2029 || u == 0x202F || u == 0x205F || u
        == 0x3000
}

/// The characters of `v` from position `from` up to (not including) `to`.
pub fn slice(v: &Vec<char>, from: usize, to: usize) -> (r: Vec<char>)
    requires
        from <= to <= v.len(),
    ensures
        r@ == v@.subrange(from as int, to as int),
{
    let mut r: Vec<char> = Vec::new();
    let mut i = from;
    while i < to
        invariant
            from <= i <= to <= v.len(),
            r@ == v@.subrange(from as int, i as int),
        decreases to - i,
    {
        r.push(v[i]);
        i += 1;
    }
    r
}

/// Whether `a` and `b` hold the same characters.
pub fn eq(a: &Vec<char>, b: &Vec<char>) -> (r: bool)
    ensures
        r == (a@ == b@),
{
    if a.len() != b.len() {
        return false;
    }
    let n = a.len();
    for i in 0..n
        invariant
            n == a.len() == b.len(),
            forall|j: int| 0 <= j < i ==> a@[j] == b@[j],
    {
        if a[i] != b[i] {
            return false;
        }
    }
    assert(a@ =~= b@);
    true
}

/// Whether `p` occurs in `s` at position `i`.
pub fn matches_at_exec(s: &Vec<char>, p: &Vec<char>, i: usize) -> (r: bool)
    ensures
        r == matches_at(s@, p@, i as int),
{
    if i > s.len() || p.len() > s.len() - i {
        return false;
    }
    let n = p.len();
    for j in 0..n
        invariant
            n == p.len(),
            i + n <= s.len(),
            forall|k: int| 0 <= k < j ==> s@[i + k] == p@[k],
    {
        if s[i + j] != p[j] {
            assert(s@.subrange(i as int, i + n)[j as int] != p@[j as int]);
            return false;
        }
    }
    assert(s@.subrange(i as int, i + n) =~= p@);
    true
}

/// Whether `p` is a prefix of `s`.
pub fn starts_with_exec(s: &Vec<char>, p: &Vec<char>) -> (r: bool)
    ensures
        r == starts_with(s@, p@),
{
    matches_at_exec(s, p, 0)
}

/// Whether `p` is a suffix of `s`.
pub fn ends_with_exec(s: &Vec<char>, p: &Vec<char>) -> (r: bool)
    ensures
        r == ends_with(s@, p@),
{
    if p.len() > s.len() {
        return false;
    }
    matches_at_exec(s, p, s.len() - p.len())
}

/// The first position where `p` occurs in `s`.
pub fn find_exec(s: &Vec<char>, p: &Vec<char>) -> (r: Option<usize>)
    ensures
        r == (match find(s@, p@) {
            Some(i) => Some(i as usize),
            None => None::<usize>,
        }),
        r is Some ==> r.unwrap() + p@.len() <= s@.len() && find(s@, p@) == Some(r.unwrap() as int),
        r is None ==> find(s@, p@) is None,
{
    proof {
        lemma_find_from_bounds(s@, p@, 0);
    }
    if p.len() == 0 {
        assert(matches_at(s@, p@, 0)) by {
            assert(s@.subrange(0, 0) =~= p@);
        }
        return Some(0);
    }
    if p.len() > s.len() {
        return None;
    }
    let mut i: usize = 0;
    while i <= s.len() - p.len()
        invariant
            find(s@, p@) == find_from(s@, p@, i as int),
            1 <= p.len() <= s.len(),
            i <= s.len(),
        decreases s.len() + 1 - i,
    {
        if matches_at_exec(s, p, i) {
            return Some(i);
        }
        i += 1;
    }
    None
}

/// Lemma: a position found by `find_from` is where `p` occurs, at or after
/// the start.
pub proof fn lemma_find_from_bounds(s: Seq<char>, p: Seq<char>, i: int)
    ensures
        find_from(s, p, i) matches Some(k) ==> i <= k && matches_at(s, p, k),
    decreases s.len() + 1 - i,
{
    if !(i < 0 || i + p.len() > s.len()) && !matches_at(s, p, i) {
        lemma_find_from_bounds(s, p, i + 1);
    }
}

/// Whether `p` occurs in `s`.
pub fn contains_exec(s: &Vec<char>, p: &Vec<char>) -> (r: bool)
    ensures
        r == contains(s@, p@),
{
    find_exec(s, p).is_some()
}

/// Whether two texts are equal.
pub fn str_eq(a: &str, b: &str) -> (r: bool)
    ensures
        r == (a@ == b@),
{
    eq(&chars_of(a), &chars_of(b))
}

/// Whether the text `s` contains the text `p`.
pub fn str_contains(s: &str, p: &str) -> (r: bool)
    ensures
        r == contains(s@, p@),
{
    let sv = chars_of(s);
    let pv = chars_of(p);
    contains_exec(&sv, &pv)
}

/// Lemma: `index_of` finds the first occurrence.
pub proof fn lemma_index_of(s: Seq<char>, c: char)
    ensures
        match index_of(s, c) {
            Some(i) => 0 <= i < s.len() && s[i] == c && forall|j: int| 0 <= j < i ==> s[j] != c,
            None => forall|j: int| 0 <= j < s.len() ==> s[j] != c,
        },
    decreases s.len(),
{
    if s.len() > 0 {
        lemma_index_of(s.drop_first(), c);
        if s[0] != c {
            match index_of(s.drop_first(), c) {
                Some(i) => {
                    assert forall|j: int| 0 <= j < i + 1 implies s[j] != c by {
                        if j > 0 {
                            assert(s[j] == s.drop_first()[j - 1]);
                        }
                    }
                },
                None => {
                    assert forall|j: int| 0 <= j < s.len() implies s[j] != c by {
                        if j > 0 {
                            assert(s[j] == s.drop_first()[j - 1]);
                        }
                    }
                },
            }
        }
    }
}

/// Lemma: the position found by `index_of` is the one characterised by
/// "first occurrence".
pub proof fn lemma_index_of_unique(s: Seq<char>, c: char, i: int)
    requires
        0 <= i < s.len(),
        s[i] == c,
        forall|j: int| 0 <= j < i ==> s[j] != c,
    ensures
        index_of(s, c) == Some(i),
{
    lemma_index_of(s, c);
    match index_of(s, c) {
        Some(k) => {
            if k < i {
                assert(s[k] != c);
            } else if k > i {
                assert(s[i] != c);
            }
        },
        None => {
            assert(s[i] != c);
        },
    }
}

/// The first position of `c` in `s`.
pub fn index_of_exec(s: &Vec<char>, c: char) -> (r: Option<usize>)
    ensures
        r == (match index_of(s@, c) {
            Some(i) => Some(i as usize),
            None => None::<usize>,
        }),
{
    proof {
        lemma_index_of(s@, c);
    }
    let n = s.len();
    for i in 0..n
        invariant
            n == s.len(),
            forall|j: int| 0 <= j < i ==> s@[j] != c,
    {
        if s[i] == c {
            proof {
                lemma_index_of_unique(s@, c, i as int);
            }
            return Some(i);
        }
    }
    None
}

/// `s` split at the first `c`.
pub fn split_once_exec(s: &Vec<char>, c: char) -> (r: Option<(Vec<char>, Vec<char>)>)
    ensures
        match split_once(s@, c) {
            Some((a, b)) => r matches Some((x, y)) && x@ == a && y@ == b,
            None => r is None,
        },
{
    proof {
        lemma_index_of(s@, c);
    }
    match index_of_exec(s, c) {
        Some(i) => {
            let a = slice(s, 0, i);
            let b = slice(s, i + 1, s.len());
            Some((a, b))
        },
        None => None,
    }
}

/// Lemma: `trim_start(s)` drops exactly the leading whitespace of `s`.
pub proof fn lemma_trim_start_skip(s: Seq<char>, n: int)
    requires
        0 <= n <= s.len(),
        forall|j: int| 0 <= j < n ==> is_ws(s[j]),
        n == s.len() || !is_ws(s[n]),
    ensures
        trim_start(s) == s.skip(n),
    decreases n,
{
    if n > 0 {
        assert forall|j: int| 0 <= j < n - 1 implies is_ws(s.drop_first()[j]) by {
            assert(s.drop_first()[j] == s[j + 1]);
        }
        if n - 1 < s.drop_first().len() {
            assert(s.drop_first()[n - 1] == s[n]);
        }
        lemma_trim_start_skip(s.drop_first(), n - 1);
        assert(s.drop_first().skip(n - 1) =~= s.skip(n));
    } else {
        assert(s.skip(0) =~= s);
    }
}

/// Lemma: `trim_end(s)` drops exactly the trailing whitespace of `s`.
pub proof fn lemma_trim_end_take(s: Seq<char>, n: int)
    requires
        0 <= n <= s.len(),
        forall|j: int| n <= j < s.len() ==> is_ws(s[j]),
        n == 0 || !is_ws(s[n - 1]),
    ensures
        trim_end(s) == s.take(n),
    decreases s.len() - n,
{
    if n < s.len() {
        assert forall|j: int| n <= j < s.len() - 1 implies is_ws(s.drop_last()[j]) by {
            assert(s.drop_last()[j] == s[j]);
        }
        if n > 0 {
            assert(s.drop_last()[n - 1] == s[n - 1]);
        }
        lemma_trim_end_take(s.drop_last(), n);
        assert(s.drop_last().take(n) =~= s.take(n));
    } else {
        assert(s.take(n) =~= s);
    }
}

/// `v` without leading and trailing whitespace.
pub fn trim_exec(v: &Vec<char>) -> (r: Vec<char>)
    ensures
        r@ == trim(v@),
{
    let mut e = v.len();
    while e > 0 && is_whitespace(v[e - 1])
        invariant
            e <= v.len(),
            forall|j: int| e <= j < v.len() ==> is_ws(v@[j]),
        decreases e,
    {
        e -= 1;
    }
    proof {
        lemma_trim_end_take(v@, e as int);
    }
    let mut b: usize = 0;
    while b < e && is_whitespace(v[b])
        invariant
            b <= e <= v.len(),
            forall|j: int| 0 <= j < b ==> is_ws(v@[j]),
        decreases e - b,
    {
        b += 1;
    }
    proof {
        let t = v@.take(e as int);
        assert forall|j: int| 0 <= j < b implies is_ws(t[j]) by {}
        lemma_trim_start_skip(t, b as int);
        assert(t.skip(b as int) =~= v@.subrange(b as int, e as int));
    }
    slice(v, b, e)
}

/// `v` without leading whitespace.
pub fn trim_start_exec(v: &Vec<char>) -> (r: Vec<char>)
    ensures
        r@ == trim_start(v@),
{
    let mut b: usize = 0;
    while b < v.len() && is_whitespace(v[b])
        invariant
            b <= v.len(),
            forall|j: int| 0 <= j < b ==> is_ws(v@[j]),
        decreases v.len() - b,
    {
        b += 1;
    }
    proof {
        lemma_trim_start_skip(v@, b as int);
        assert(v@.skip(b as int) =~= v@.subrange(b as int, v.len() as int));
    }
    slice(v, b, v.len())
}

/// Lemma: `trim_start_char(s, c)` drops exactly the leading `c`s of `s`.
pub proof fn lemma_trim_start_char_skip(s: Seq<char>, c: char, n: int)
    requires
        0 <= n <= s.len(),
        forall|j: int| 0 <= j < n ==> s[j] == c,
        n == s.len() || s[n] != c,
    ensures
        trim_start_char(s, c) == s.skip(n),
    decreases n,
{
    if n > 0 {
        assert forall|j: int| 0 <= j < n - 1 implies s.drop_first()[j] == c by {
            assert(s.drop_first()[j] == s[j + 1]);
        }
        if n - 1 < s.drop_first().len() {
            assert(s.drop_first()[n - 1] == s[n]);
        }
        lemma_trim_start_char_skip(s.drop_first(), c, n - 1);
        assert(s.drop_first().skip(n - 1) =~= s.skip(n));
    } else {
        assert(s.skip(0) =~= s);
    }
}

/// Lemma: `trim_end_char(s, c)` drops exactly the trailing `c`s of `s`.
pub proof fn lemma_trim_end_char_take(s: Seq<char>, c: char, n: int)
    requires
        0 <= n <= s.len(),
        forall|j: int| n <= j < s.len() ==> s[j] == c,
        n == 0 || s[n - 1] != c,
    ensures
        trim_end_char(s, c) == s.take(n),
    decreases s.len() - n,
{
    if n < s.len() {
        assert forall|j: int| n <= j < s.len() - 1 implies s.drop_last()[j] == c by {
            assert(s.drop_last()[j] == s[j]);
        }
        if n > 0 {
            assert(s.drop_last()[n - 1] == s[n - 1]);
        }
        lemma_trim_end_char_take(s.drop_last(), c, n);
        assert(s.drop_last().take(n) =~= s.take(n));
    } else {
        assert(s.take(n) =~= s);
    }
}

/// `v` without leading and trailing occurrences of `c`.
pub fn trim_char_exec(v: &Vec<char>, c: char) -> (r: Vec<char>)
    ensures
        r@ == trim_char(v@, c),
{
    let mut e = v.len();
    while e > 0 && v[e - 1] == c
        invariant
            e <= v.len(),
            forall|j: int| e <= j < v.len() ==> v@[j] == c,
        decreases e,
    {
        e -= 1;
    }
    proof {
        lemma_trim_end_char_take(v@, c, e as int);
    }
    let mut b: usize = 0;
    while b < e && v[b] == c
        invariant
            b <= e <= v.len(),
            forall|j: int| 0 <= j < b ==> v@[j] == c,
        decreases e - b,
    {
        b += 1;
    }
    proof {
        let t = v@.take(e as int);
        lemma_trim_start_char_skip(t, c, b as int);
        assert(t.skip(b as int) =~= v@.subrange(b as int, e as int));
    }
    slice(v, b, e)
}

/// Lemma: `split_nl` always yields at least one piece.
pub proof fn lemma_split_nl_len(s: Seq<char>)
    ensures
        split_nl(s).len() >= 1,
    decreases s.len(),
{
    if s.len() > 0 {
        lemma_split_nl_len(s.drop_last());
    }
}

/// The lines of `v` (`str::lines`).
pub fn lines_exec(v: &Vec<char>) -> (r: Vec<Vec<char>>)
    ensures
        views(r@) == lines(v@),
{
    let mut out: Vec<Vec<char>> = Vec::new();
    let mut cur: Vec<char> = Vec::new();
    let n = v.len();
    proof {
        assert(v@.take(0) =~= Seq::<char>::empty());
    }
    for i in 0..n
        invariant
            n == v.len(),
            split_nl(v@.take(i as int)).len() >= 1,
            views(out@) == split_nl(v@.take(i as int)).drop_last().map_values(
                |l: Seq<char>| strip_cr(l),
            ),
            cur@ == split_nl(v@.take(i as int)).last(),
    {
        let ghost pre = v@.take(i as int);
        proof {
            assert(v@.take(i + 1).drop_last() =~= pre);
            assert(v@.take(i + 1).last() == v@[i as int]);
            lemma_split_nl_len(pre);
        }
        if v[i] == '\n' {
            let ghost old_out = out@;
            let ghost old_cur = cur@;
            let mut line = cur;
            if line.len() > 0 && line[line.len() - 1] == '\r' {
                line.pop();
            }
            assert(line@ == strip_cr(old_cur));
            out.push(line);
            cur = Vec::new();
            proof {
                let segs = split_nl(v@.take(i + 1));
                let p = split_nl(pre);
                assert(segs == p.push(Seq::<char>::empty()));
                assert(segs.drop_last() =~= p);
                assert(p =~= p.drop_last().push(p.last()));
                assert(views(out@) =~= views(old_out).push(strip_cr(old_cur)));
                assert(p.map_values(|l: Seq<char>| strip_cr(l)) =~= p.drop_last().map_values(
                    |l: Seq<char>| strip_cr(l),
                ).push(strip_cr(p.last())));
                assert(views(out@) =~= segs.drop_last().map_values(
                    |l: Seq<char>| strip_cr(l),
                ));
            }
        } else {
            cur.push(v[i]);
            proof {
                let segs = split_nl(v@.take(i + 1));
                let p = split_nl(pre);
                assert(segs == p.update(p.len() - 1, p.last().push(v@[i as int])));
                assert(segs.drop_last() =~= p.drop_last());
            }
        }
    }
    proof {
        assert(v@.take(n as int) =~= v@);
    }
    if cur.len() > 0 {
        out.push(cur);
        proof {
            let segs = split_nl(v@);
            assert(views(out@) =~= segs.drop_last().map_values(|l: Seq<char>| strip_cr(l)).push(
                segs.last(),
            ));
        }
    }
    out
}

/// `ls.join("\n") + "\n"`.
pub fn join_lines_exec(ls: &Vec<Vec<char>>) -> (r: Vec<char>)
    ensures
        r@ == join_lines(views(ls@)),
{
    let mut r: Vec<char> = Vec::new();
    let n = ls.len();
    if n == 0 {
        r.push('\n');
        return r;
    }
    for i in 0..n
        invariant
            n == ls.len(),
            r@ == terminated(views(ls@).take(i as int)),
    {
        let line = &ls[i];
        let m = line.len();
        let ghost before = r@;
        for j in 0..m
            invariant
                m == line.len(),
                r@ == before + line@.take(j as int),
        {
            r.push(line[j]);
            proof {
                assert(line@.take(j + 1) =~= line@.take(j as int).push(line@[j as int]));
                assert(before + line@.take(j + 1) =~= (before + line@.take(j as int)).push(
                    line@[j as int],
                ));
            }
        }
        r.push('\n');
        proof {
            let t = views(ls@).take(i + 1);
            assert(t.drop_last() =~= views(ls@).take(i as int));
            assert(t.last() == line@);
            assert(line@.take(m as int) =~= line@);
        }
    }
    proof {
        assert(views(ls@).take(n as int) =~= views(ls@));
    }
    r
}

/// Lemma: the digits of a number below ten, and the split of larger numbers.
pub fn decimal_exec(n: u64) -> (r: Vec<char>)
    ensures
        r@ == decimal(n as nat),
    decreases n,
{
    if n < 10 {
        let mut r = Vec::new();
        r.push(digit_exec(n));
        r
    } else {
        let mut r = decimal_exec(n / 10);
        r.push(digit_exec(n % 10));
        r
    }
}

/// The decimal digit character for `d < 10`.
pub fn digit_exec(d: u64) -> (c: char)
    requires
        d < 10,
    ensures
        c == digit_char(d as nat),
{
    if d == 0 { '0' }
    else if d == 1 { '1' }
    else if d == 2 { '2' }
    else if d == 3 { '3' }
    else if d == 4 { '4' }
    else if d == 5 { '5' }
    else if d == 6 { '6' }
    else if d == 7 { '7' }
    else if d == 8 { '8' }
    else { '9' }
}

/// `a` followed by `b`.
pub fn concat(a: &Vec<char>, b: &Vec<char>) -> (r: Vec<char>)
    ensures
        r@ == a@ + b@,
{
    let mut r = slice(a, 0, a.len());
    let n = b.len();
    for i in 0..n
        invariant
            n == b.len(),
            r@ == a@ + b@.take(i as int),
    {
        r.push(b[i]);
        proof {
            assert(b@.take(i + 1) =~= b@.take(i as int).push(b@[i as int]));
            assert(a@ + b@.take(i + 1) =~= (a@ + b@.take(i as int)).push(b@[i as int]));
        }
    }
    proof {
        assert(a@.subrange(0, a@.len() as int) =~= a@);
        assert(b@.take(n as int) =~= b@);
    }
    r
}


// ---------------------------------------------------------------------------
// Lemmas on trimming and lines
// ---------------------------------------------------------------------------

/// Lemma: the leading whitespace of `s` is its first `n` characters.
pub proof fn lemma_lead(s: Seq<char>) -> (n: int)
    ensures
        0 <= n <= s.len(),
        forall|j: int| 0 <= j < n ==> is_ws(s[j]),
        n == s.len() || !is_ws(s[n]),
        trim_start(s) == s.skip(n),
    decreases s.len(),
{
    if s.len() > 0 && is_ws(s[0]) {
        let m = lemma_lead(s.drop_first());
        assert forall|j: int| 0 <= j < m + 1 implies is_ws(s[j]) by {
            if j > 0 {
                assert(s[j] == s.drop_first()[j - 1]);
            }
        }
        if m + 1 < s.len() {
            assert(s[m + 1] == s.drop_first()[m]);
        }
        assert(s.drop_first().skip(m) =~= s.skip(m + 1));
        m + 1
    } else {
        assert(s.skip(0) =~= s);
        0
    }
}

/// Lemma: the trailing whitespace of `s` is what follows its first `n`
/// characters.
pub proof fn lemma_trail(s: Seq<char>) -> (n: int)
    ensures
        0 <= n <= s.len(),
        forall|j: int| n <= j < s.len() ==> is_ws(s[j]),
        n == 0 || !is_ws(s[n - 1]),
        trim_end(s) == s.take(n),
    decreases s.len(),
{
    if s.len() > 0 && is_ws(s.last()) {
        let m = lemma_trail(s.drop_last());
        assert forall|j: int| m <= j < s.len() implies is_ws(s[j]) by {
            if j < s.len() - 1 {
                assert(s[j] == s.drop_last()[j]);
            }
        }
        if m > 0 {
            assert(s[m - 1] == s.drop_last()[m - 1]);
        }
        assert(s.drop_last().take(m) =~= s.take(m));
        m
    } else {
        assert(s.take(s.len() as int) =~= s);
        s.len() as int
    }
}

/// Whether `s[a..b]` is what trimming `s` leaves: whitespace before `a` and
/// from `b` on, and non-whitespace at both ends of a non-empty middle.
pub open spec fn trim_bounds(s: Seq<char>, a: int, b: int) -> bool {
    &&& 0 <= a <= b <= s.len()
    &&& forall|j: int| 0 <= j < a ==> is_ws(s[j])
    &&& forall|j: int| b <= j < s.len() ==> is_ws(s[j])
    &&& a < b ==> !is_ws(s[a]) && !is_ws(s[b - 1])
}

/// Lemma: trimming `s` leaves `s[a..b]` for the bounds that `trim_bounds`
/// describes.
pub proof fn lemma_trim_unique(s: Seq<char>, a: int, b: int)
    requires
        trim_bounds(s, a, b),
    ensures
        trim(s) == s.subrange(a, b),
{
    if a == b {
        lemma_trim_end_take(s, 0);
        assert(trim_end(s) =~= Seq::<char>::empty());
        assert(s.subrange(a, b) =~= Seq::<char>::empty());
    } else {
        lemma_trim_end_take(s, b);
        let t = s.take(b);
        assert forall|j: int| 0 <= j < a implies is_ws(t[j]) by {}
        lemma_trim_start_skip(t, a);
        assert(t.skip(a) =~= s.subrange(a, b));
    }
}

/// Lemma: trimming `s` leaves `s[a..b]` for some bounds.
pub proof fn lemma_trim_bounds(s: Seq<char>) -> (ab: (int, int))
    ensures
        trim_bounds(s, ab.0, ab.1),
        trim(s) == s.subrange(ab.0, ab.1),
{
    let b = lemma_trail(s);
    let t = s.take(b);
    let a = lemma_lead(t);
    assert(t.skip(a) =~= s.subrange(a, b));
    assert forall|j: int| 0 <= j < a implies is_ws(s[j]) by {
        assert(t[j] == s[j]);
    }
    if a < b {
        assert(t[a] == s[a]);
    }
    (a, b)
}

/// Lemma: leading whitespace does not change what trimming leaves.
pub proof fn lemma_trim_skip_ws(s: Seq<char>, m: int)
    requires
        0 <= m <= s.len(),
        forall|j: int| 0 <= j < m ==> is_ws(s[j]),
    ensures
        trim(s.skip(m)) == trim(s),
{
    let y = s.skip(m);
    let (a, b) = lemma_trim_bounds(y);
    assert forall|j: int| 0 <= j < m + a implies is_ws(s[j]) by {
        if j >= m {
            assert(s[j] == y[j - m]);
        }
    }
    assert forall|j: int| m + b <= j < s.len() implies is_ws(s[j]) by {
        assert(s[j] == y[j - m]);
    }
    if a < b {
        assert(s[m + a] == y[a]);
        assert(s[m + b - 1] == y[b - 1]);
    }
    lemma_trim_unique(s, m + a, m + b);
    assert(s.subrange(m + a, m + b) =~= y.subrange(a, b));
}

/// Lemma: trailing whitespace does not change what trimming leaves.
pub proof fn lemma_trim_take_ws(s: Seq<char>, m: int)
    requires
        0 <= m <= s.len(),
        forall|j: int| m <= j < s.len() ==> is_ws(s[j]),
    ensures
        trim(s.take(m)) == trim(s),
{
    let y = s.take(m);
    let (a, b) = lemma_trim_bounds(y);
    assert forall|j: int| 0 <= j < a implies is_ws(s[j]) by {
        assert(s[j] == y[j]);
    }
    assert forall|j: int| b <= j < s.len() implies is_ws(s[j]) by {
        if j < m {
            assert(s[j] == y[j]);
        }
    }
    if a < b {
        assert(s[a] == y[a]);
        assert(s[b - 1] == y[b - 1]);
    }
    lemma_trim_unique(s, a, b);
    assert(s.subrange(a, b) =~= y.subrange(a, b));
}

/// Lemma: a text that trimming leaves unchanged has no whitespace at its ends.
pub proof fn lemma_trimmed_ends(s: Seq<char>)
    requires
        trim(s) == s,
        s.len() > 0,
    ensures
        !is_ws(s[0]),
        !is_ws(s.last()),
{
    let (a, b) = lemma_trim_bounds(s);
    assert(s.subrange(a, b).len() == b - a);
    assert(b - a == s.len());
    assert(a == 0 && b == s.len());
    assert(s[b - 1] == s.last());
}

/// Lemma: dropping a carriage return does not change what trimming leaves.
pub proof fn lemma_trim_strip_cr(s: Seq<char>)
    ensures
        trim(strip_cr(s)) == trim(s),
{
    if s.len() > 0 && s.last() == '\r' {
        assert(is_ws('\r'));
        assert(trim_end(s) == trim_end(s.drop_last()));
    }
}

/// Lemma: each piece of `split_nl` is free of newlines.
pub proof fn lemma_split_nl_no_nl(s: Seq<char>)
    ensures
        forall|i: int| 0 <= i < split_nl(s).len() ==> !has_char(#[trigger] split_nl(s)[i], '\n'),
    decreases s.len(),
{
    lemma_split_nl_len(s);
    if s.len() > 0 {
        lemma_split_nl_len(s.drop_last());
        lemma_split_nl_no_nl(s.drop_last());
        let prev = split_nl(s.drop_last());
        if s.last() != '\n' {
            let l = prev.last().push(s.last());
            assert(!has_char(prev[prev.len() - 1], '\n'));
            assert forall|j: int| 0 <= j < l.len() implies l[j] != '\n' by {
                if j < l.len() - 1 {
                    assert(l[j] == prev.last()[j]);
                }
            }
            assert forall|i: int| 0 <= i < split_nl(s).len() implies !has_char(
                #[trigger] split_nl(s)[i],
                '\n',
            ) by {
                if i < prev.len() - 1 {
                    assert(split_nl(s)[i] == prev[i]);
                }
            }
        } else {
            assert forall|i: int| 0 <= i < split_nl(s).len() implies !has_char(
                #[trigger] split_nl(s)[i],
                '\n',
            ) by {
                if i < prev.len() {
                    assert(split_nl(s)[i] == prev[i]);
                }
            }
        }
    }
}

/// Lemma: the lines of any text are free of newlines.
pub proof fn lemma_lines_no_nl(s: Seq<char>)
    ensures
        forall|i: int| 0 <= i < lines(s).len() ==> !has_char(#[trigger] lines(s)[i], '\n'),
{
    lemma_split_nl_len(s);
    lemma_split_nl_no_nl(s);
    let segs = split_nl(s);
    assert forall|i: int| 0 <= i < lines(s).len() implies !has_char(#[trigger] lines(s)[i], '\n') by {
        if i < segs.len() - 1 {
            let l = segs[i];
            assert(!has_char(segs[i], '\n'));
            assert(lines(s)[i] == strip_cr(l));
            assert forall|j: int| 0 <= j < strip_cr(l).len() implies strip_cr(l)[j] != '\n' by {
                assert(strip_cr(l)[j] == l[j]);
            }
        } else {
            assert(!has_char(segs[segs.len() - 1], '\n'));
        }
    }
}

/// Lemma: appending newline-free text extends the last piece.
pub proof fn lemma_split_nl_append(a: Seq<char>, b: Seq<char>)
    requires
        !has_char(b, '\n'),
    ensures
        split_nl(a + b) == split_nl(a).update(
            split_nl(a).len() - 1,
            split_nl(a).last() + b,
        ),
    decreases b.len(),
{
    lemma_split_nl_len(a);
    if b.len() == 0 {
        assert(a + b =~= a);
        assert(split_nl(a).last() + b =~= split_nl(a).last());
        assert(split_nl(a).update(split_nl(a).len() - 1, split_nl(a).last()) =~= split_nl(a));
    } else {
        let b1 = b.drop_last();
        assert(!has_char(b1, '\n')) by {
            assert forall|j: int| 0 <= j < b1.len() implies b1[j] != '\n' by {
                assert(b1[j] == b[j]);
            }
        }
        lemma_split_nl_append(a, b1);
        assert((a + b).drop_last() =~= a + b1);
        assert((a + b).last() == b.last());
        assert(b.last() != '\n') by {
            assert(b[b.len() - 1] == b.last());
        }
        let p = split_nl(a + b1);
        lemma_split_nl_len(a + b1);
        assert(split_nl(a + b) == p.update(p.len() - 1, p.last().push(b.last())));
        assert(p.len() == split_nl(a).len());
        assert(p.last() == split_nl(a).last() + b1);
        assert((split_nl(a).last() + b1).push(b.last()) =~= split_nl(a).last() + b);
        assert(split_nl(a).last() + b1 + seq![b.last()] =~= split_nl(a).last() + b);
        assert(split_nl(a + b) =~= split_nl(a).update(
            split_nl(a).len() - 1,
            split_nl(a).last() + b,
        ));
    }
}

/// Lemma: splitting newline-terminated lines gives the lines back, and an
/// empty piece after the last newline.
pub proof fn lemma_split_nl_terminated(ls: Seq<Seq<char>>)
    requires
        forall|i: int| 0 <= i < ls.len() ==> !has_char(#[trigger] ls[i], '\n'),
    ensures
        split_nl(terminated(ls)) == ls.push(Seq::<char>::empty()),
    decreases ls.len(),
{
    if ls.len() == 0 {
        assert(split_nl(Seq::<char>::empty()) =~= ls.push(Seq::<char>::empty()));
    } else {
        let init = ls.drop_last();
        assert forall|i: int| 0 <= i < init.len() implies !has_char(#[trigger] init[i], '\n') by {
            assert(init[i] == ls[i]);
        }
        lemma_split_nl_terminated(init);
        let t = terminated(init);
        let l = ls.last();
        assert(!has_char(ls[ls.len() - 1], '\n'));
        lemma_split_nl_append(t, l);
        let whole = terminated(ls);
        assert(whole == t + l + seq!['\n']);
        assert(whole.drop_last() =~= t + l);
        assert(whole.last() == '\n');
        assert(split_nl(whole) == split_nl(t + l).push(Seq::<char>::empty()));
        assert(Seq::<char>::empty() + l =~= l);
        assert(split_nl(t + l) =~= ls);
    }
}

/// Lemma: the lines of newline-terminated lines are those lines, each without
/// one trailing carriage return.
pub proof fn lemma_lines_join(ls: Seq<Seq<char>>)
    requires
        forall|i: int| 0 <= i < ls.len() ==> !has_char(#[trigger] ls[i], '\n'),
    ensures
        ls.len() > 0 ==> lines(join_lines(ls)) == ls.map_values(|l: Seq<char>| strip_cr(l)),
        ls.len() == 0 ==> lines(join_lines(ls)) == seq![Seq::<char>::empty()],
{
    if ls.len() > 0 {
        lemma_split_nl_terminated(ls);
        let segs = ls.push(Seq::<char>::empty());
        assert(segs.drop_last() =~= ls);
    } else {
        let s = seq!['\n'];
        assert(s.drop_last() =~= Seq::<char>::empty());
        assert(s.last() == '\n');
        assert(split_nl(Seq::<char>::empty()) == seq![Seq::<char>::empty()]);
        assert(split_nl(s) == split_nl(s.drop_last()).push(Seq::<char>::empty()));
        assert(split_nl(s) =~= seq![Seq::<char>::empty(), Seq::<char>::empty()]);
        assert(lines(s) =~= seq![Seq::<char>::empty()]);
    }
}

/// Lemma: the first position of `c` in `a + b` when `a` has no `c`.
pub proof fn lemma_index_of_after(a: Seq<char>, b: Seq<char>, c: char)
    requires
        forall|j: int| 0 <= j < a.len() ==> a[j] != c,
    ensures
        index_of(a + b, c) == (match index_of(b, c) {
            Some(i) => Some(i + a.len()),
            None => None::<int>,
        }),
{
    lemma_index_of(b, c);
    let s = a + b;
    match index_of(b, c) {
        Some(i) => {
            assert forall|j: int| 0 <= j < i + a.len() implies s[j] != c by {
                if j >= a.len() {
                    assert(s[j] == b[j - a.len()]);
                }
            }
            assert(s[i + a.len()] == b[i]);
            lemma_index_of_unique(s, c, i + a.len());
        },
        None => {
            lemma_index_of(s, c);
            match index_of(s, c) {
                Some(k) => {
                    if k >= a.len() {
                        assert(s[k] == b[k - a.len()]);
                    }
                },
                None => {},
            }
        },
    }
}

/// Lemma: a text that is empty or ends with a newline splits into pieces
/// whose last one is empty.
pub proof fn lemma_split_nl_last_empty(a: Seq<char>)
    requires
        a.len() == 0 || a.last() == '\n',
    ensures
        split_nl(a).len() >= 1,
        split_nl(a).last() == Seq::<char>::empty(),
{
    lemma_split_nl_len(a);
    if a.len() > 0 {
        lemma_split_nl_len(a.drop_last());
    }
}

/// Lemma: the pieces of `a + b`, for `a` empty or ending with a newline, are
/// those of `a` before its empty last piece, then those of `b`.
pub proof fn lemma_split_nl_after(a: Seq<char>, b: Seq<char>)
    requires
        a.len() == 0 || a.last() == '\n',
    ensures
        split_nl(a + b) == split_nl(a).drop_last() + split_nl(b),
    decreases b.len(),
{
    lemma_split_nl_last_empty(a);
    if b.len() == 0 {
        assert(a + b =~= a);
        assert(split_nl(a) =~= split_nl(a).drop_last() + split_nl(b));
    } else {
        lemma_split_nl_after(a, b.drop_last());
        lemma_split_nl_len(b.drop_last());
        assert((a + b).drop_last() =~= a + b.drop_last());
        assert((a + b).last() == b.last());
        let p = split_nl(a).drop_last();
        let x = split_nl(b.drop_last());
        if b.last() == '\n' {
            assert((p + x).push(Seq::<char>::empty()) =~= p + x.push(Seq::<char>::empty()));
        } else {
            assert((p + x).update(p.len() + x.len() - 1, (p + x).last().push(b.last())) =~= p
                + x.update(x.len() - 1, x.last().push(b.last())));
        }
    }
}

/// Lemma: the lines of a line without newline followed by a newline and
/// more text: that line (without a final carriage return), then the lines
/// of the rest.
pub proof fn lemma_lines_cons(a: Seq<char>, r: Seq<char>)
    requires
        !has_char(a, '\n'),
    ensures
        lines(a + seq!['\n'] + r) == seq![strip_cr(a)] + lines(r),
{
    let an = a + seq!['\n'];
    lemma_split_nl_append(Seq::<char>::empty(), a);
    assert(Seq::<char>::empty() + a =~= a);
    assert(split_nl(a) =~= seq![a]);
    assert(an.drop_last() =~= a);
    assert(split_nl(an) =~= seq![a, Seq::<char>::empty()]);
    lemma_split_nl_after(an, r);
    assert(an + r =~= a + seq!['\n'] + r);
    lemma_split_nl_len(r);
    let s = split_nl(r);
    let segs = seq![a] + s;
    assert(split_nl(an).drop_last() =~= seq![a]);
    assert(segs.drop_last() =~= seq![a] + s.drop_last());
    assert(segs.last() == s.last());
    assert(segs.drop_last().map_values(|l: Seq<char>| strip_cr(l)) =~= seq![strip_cr(a)]
        + s.drop_last().map_values(|l: Seq<char>| strip_cr(l)));
    if s.last().len() == 0 {
    } else {
        assert((seq![strip_cr(a)] + s.drop_last().map_values(|l: Seq<char>| strip_cr(l))).push(
            s.last(),
        ) =~= seq![strip_cr(a)] + s.drop_last().map_values(|l: Seq<char>| strip_cr(l)).push(
            s.last(),
        ));
    }
}

} // verus!
