//! Character-level text handling shared by the banner, port and address parsers.
//!
//! Text is handled as sequences of `char`. Each spec function below states the
//! meaning of one of the string operations the parsers rely on (whitespace,
//! ASCII case folding, prefix and substring tests, splitting, line breaking,
//! decimal numbers), and each executable function computes exactly that.

use vstd::prelude::*;

verus! {

/// `String::push` appends one character to the end of the string.
pub assume_specification[ String::push ](string: &mut String, ch: char)
    ensures
        final(string)@ == old(string)@.push(ch),
;

// ---------------------------------------------------------------------------
// Character classes
// ---------------------------------------------------------------------------

/// A character with the Unicode `White_Space` property (what `char::is_whitespace` tests).
pub open spec fn is_ws(c: char) -> bool {
    ||| ('\u{9}' <= c && c <= '\u{d}')
    ||| c == ' '
    ||| c == '\u{85}'
    ||| c == '\u{a0}'
    ||| c == '\u{1680}'
    ||| ('\u{2000}' <= c && c <= '\u{200a}')
    ||| c == '\u{2028}'
    ||| c == '\u{2029}'
    ||| c == '\u{202f}'
    ||| c == '\u{205f}'
    ||| c == '\u{3000}'
}

pub open spec fn ws_pred() -> spec_fn(char) -> bool {
    |c: char| is_ws(c)
}

pub open spec fn word_pred() -> spec_fn(char) -> bool {
    |c: char| !is_ws(c)
}

pub open spec fn is_ascii_digit(c: char) -> bool {
    '0' <= c && c <= '9'
}

pub open spec fn is_ascii_alnum(c: char) -> bool {
    ||| is_ascii_digit(c)
    ||| ('A' <= c && c <= 'Z')
    ||| ('a' <= c && c <= 'z')
}

pub open spec fn punct_pred() -> spec_fn(char) -> bool {
    |c: char| !is_ascii_alnum(c)
}

/// ASCII lower-casing of one character; every other character is kept.
pub open spec fn lower_char(c: char) -> char {
    if 'A' <= c && c <= 'Z' {
        ((c as u32) + 32) as char
    } else {
        c
    }
}

pub open spec fn lower(s: Seq<char>) -> Seq<char> {
    s.map_values(|c: char| lower_char(c))
}

pub fn ws(c: char) -> (r: bool)
    ensures
        r == is_ws(c),
{
    ('\u{9}' <= c && c <= '\u{d}') || c == ' ' || c == '\u{85}' || c == '\u{a0}' || c
        == '\u{1680}' || ('\u{2000}' <= c && c <= '\u{200a}') || c == '\u{2028}' || c
        == '\u{2029}' || c == '\u{202f}' || c == '\u{205f}' || c == '\u{3000}'
}

pub fn ascii_digit(c: char) -> (r: bool)
    ensures
        r == is_ascii_digit(c),
{
    '0' <= c && c <= '9'
}

pub fn ascii_alnum(c: char) -> (r: bool)
    ensures
        r == is_ascii_alnum(c),
{
    ('0' <= c && c <= '9') || ('A' <= c && c <= 'Z') || ('a' <= c && c <= 'z')
}

pub fn to_lower(c: char) -> (r: char)
    ensures
        r == lower_char(c),
{
    if 'A' <= c && c <= 'Z' {
        ((c as u8) + 32) as char
    } else {
        c
    }
}

pub fn lowercase(s: &[char]) -> (r: Vec<char>)
    ensures
        r@ == lower(s@),
{
    let mut out: Vec<char> = Vec::new();
    let mut i: usize = 0;
    while i < s.len()
        invariant
            i <= s.len(),
            out@ == lower(s@.take(i as int)),
        decreases s.len() - i,
    {
        out.push(to_lower(s[i]));
        i += 1;
        assert(out@ =~= lower(s@.take(i as int)));
    }
    assert(s@.take(s.len() as int) =~= s@);
    out
}

// ---------------------------------------------------------------------------
// Conversions between `&str`, `String` and character vectors
// ---------------------------------------------------------------------------

pub fn chars_of(s: &str) -> (r: Vec<char>)
    ensures
        r@ == s@,
{
    let mut out: Vec<char> = Vec::new();
    for c in it: s.chars()
        invariant
            out@ == it.seq().take(it.index()),
            it.seq() == s@,
    {
        out.push(c);
    }
    out
}

pub fn string_of(v: &[char]) -> (r: String)
    ensures
        r@ == v@,
{
    let mut out = String::new();
    push_all(&mut out, v);
    out
}

pub fn push_all(out: &mut String, v: &[char])
    ensures
        final(out)@ == old(out)@ + v@,
{
    let ghost start = out@;
    let mut i: usize = 0;
    while i < v.len()
        invariant
            i <= v.len(),
            out@ == start + v@.take(i as int),
        decreases v.len() - i,
    {
        out.push(v[i]);
        i += 1;
        assert(out@ =~= start + v@.take(i as int));
    }
    assert(v@.take(v.len() as int) =~= v@);
}

pub fn push_str(out: &mut String, s: &str)
    ensures
        final(out)@ == old(out)@ + s@,
{
    let v = chars_of(s);
    push_all(out, v.as_slice());
}

pub fn slice_of(s: &[char], i: usize, j: usize) -> (r: Vec<char>)
    requires
        i <= j <= s.len(),
    ensures
        r@ == s@.subrange(i as int, j as int),
{
    let mut out: Vec<char> = Vec::new();
    let mut k: usize = i;
    while k < j
        invariant
            i <= k <= j <= s.len(),
            out@ == s@.subrange(i as int, k as int),
        decreases j - k,
    {
        out.push(s[k]);
        k += 1;
        assert(out@ =~= s@.subrange(i as int, k as int));
    }
    out
}

pub fn same(a: &[char], b: &[char]) -> (r: bool)
    ensures
        r == (a@ == b@),
{
    if a.len() != b.len() {
        return false;
    }
    let mut i: usize = 0;
    while i < a.len()
        invariant
            a.len() == b.len(),
            i <= a.len(),
            forall|k: int| 0 <= k < i ==> a@[k] == b@[k],
        decreases a.len() - i,
    {
        if a[i] != b[i] {
            return false;
        }
        i += 1;
    }
    assert(a@ =~= b@);
    true
}

// ---------------------------------------------------------------------------
// Prefixes and substrings
// ---------------------------------------------------------------------------

pub open spec fn starts_with(s: Seq<char>, p: Seq<char>) -> bool {
    p.len() <= s.len() && s.subrange(0, p.len() as int) == p
}

/// `p` occurs in `s` starting at position `i`.
pub open spec fn occurs_at(s: Seq<char>, p: Seq<char>, i: int) -> bool {
    0 <= i && i + p.len() <= s.len() && s.subrange(i, i + p.len()) == p
}

pub open spec fn contains(s: Seq<char>, p: Seq<char>) -> bool {
    exists|i: int| occurs_at(s, p, i)
}

/// The first position at or after `i` where `p` occurs in `s`.
pub open spec fn find_from(s: Seq<char>, p: Seq<char>, i: int) -> Option<int>
    decreases s.len() + 1 - i,
{
    if i < 0 || i + p.len() > s.len() {
        None
    } else if occurs_at(s, p, i) {
        Some(i)
    } else {
        find_from(s, p, i + 1)
    }
}

/// The first position where `p` occurs in `s`.
pub open spec fn find(s: Seq<char>, p: Seq<char>) -> Option<int> {
    find_from(s, p, 0)
}

pub fn occurs_at_exec(s: &[char], p: &[char], i: usize) -> (r: bool)
    ensures
        r == occurs_at(s@, p@, i as int),
{
    if p.len() > s.len() || i > s.len() - p.len() {
        return false;
    }
    let mut k: usize = 0;
    while k < p.len()
        invariant
            i + p.len() <= s.len(),
            k <= p.len(),
            forall|m: int| 0 <= m < k ==> s@[i + m] == p@[m],
        decreases p.len() - k,
    {
        if s[i + k] != p[k] {
            assert(s@.subrange(i as int, i + p.len())[k as int] != p@[k as int]);
            return false;
        }
        k += 1;
    }
    assert(s@.subrange(i as int, i + p.len()) =~= p@);
    true
}

pub fn has_prefix(s: &[char], p: &[char]) -> (r: bool)
    ensures
        r == starts_with(s@, p@),
{
    occurs_at_exec(s, p, 0)
}

pub fn find_exec(s: &[char], p: &[char]) -> (r: Option<usize>)
    ensures
        r matches Some(i) ==> find(s@, p@) == Some(i as int) && i + p.len() <= s.len(),
        r is None ==> find(s@, p@) is None,
{
    if p.len() > s.len() {
        return None;
    }
    let last = s.len() - p.len();
    let mut i: usize = 0;
    while i < last
        invariant
            last + p.len() == s.len(),
            i <= last,
            find(s@, p@) == find_from(s@, p@, i as int),
        decreases last - i,
    {
        if occurs_at_exec(s, p, i) {
            return Some(i);
        }
        i += 1;
    }
    if occurs_at_exec(s, p, last) {
        Some(last)
    } else {
        proof {
            assert(find_from(s@, p@, last + 1) is None);
        }
        None
    }
}

pub proof fn lemma_find_from_occurs(s: Seq<char>, p: Seq<char>, i: int)
    requires
        0 <= i,
    ensures
        find_from(s, p, i) matches Some(k) ==> i <= k && occurs_at(s, p, k) && forall|m: int|
            i <= m < k ==> !occurs_at(s, p, m),
        find_from(s, p, i) is None ==> forall|m: int| i <= m ==> !occurs_at(s, p, m),
    decreases s.len() + 1 - i,
{
    if i + p.len() > s.len() {
    } else if occurs_at(s, p, i) {
    } else {
        lemma_find_from_occurs(s, p, i + 1);
    }
}

pub fn contains_exec(s: &[char], p: &[char]) -> (r: bool)
    ensures
        r == contains(s@, p@),
{
    if p.len() > s.len() {
        return false;
    }
    let last = s.len() - p.len();
    let mut i: usize = 0;
    while i < last
        invariant
            last + p.len() == s.len(),
            i <= last,
            forall|m: int| 0 <= m < i ==> !occurs_at(s@, p@, m),
        decreases last - i,
    {
        if occurs_at_exec(s, p, i) {
            return true;
        }
        i += 1;
    }
    occurs_at_exec(s, p, last)
}

// ---------------------------------------------------------------------------
// Skipping and taking runs of characters
// ---------------------------------------------------------------------------

/// Drop the longest prefix whose characters all satisfy `f`.
pub open spec fn skip_while(s: Seq<char>, f: spec_fn(char) -> bool) -> Seq<char>
    decreases s.len(),
{
    if s.len() > 0 && f(s[0]) {
        skip_while(s.drop_first(), f)
    } else {
        s
    }
}

/// Drop the longest suffix whose characters all satisfy `f`.
pub open spec fn skip_while_rev(s: Seq<char>, f: spec_fn(char) -> bool) -> Seq<char>
    decreases s.len(),
{
    if s.len() > 0 && f(s.last()) {
        skip_while_rev(s.drop_last(), f)
    } else {
        s
    }
}

/// The longest prefix whose characters all satisfy `f`.
pub open spec fn take_while(s: Seq<char>, f: spec_fn(char) -> bool) -> Seq<char>
    decreases s.len(),
{
    if s.len() > 0 && f(s[0]) {
        seq![s[0]] + take_while(s.drop_first(), f)
    } else {
        Seq::empty()
    }
}

/// Surrounding Unicode whitespace removed from both ends (`str::trim`).
pub open spec fn trim(s: Seq<char>) -> Seq<char> {
    skip_while_rev(skip_while(s, ws_pred()), ws_pred())
}

/// Surrounding characters that are not ASCII letters or digits removed from both ends.
pub open spec fn trim_punct(s: Seq<char>) -> Seq<char> {
    skip_while_rev(skip_while(s, punct_pred()), punct_pred())
}

pub proof fn lemma_skip_while(s: Seq<char>, f: spec_fn(char) -> bool, i: int, j: int)
    requires
        0 <= i <= j <= s.len(),
        forall|k: int| i <= k < j ==> f(s[k]),
        j == s.len() || !f(s[j]),
    ensures
        skip_while(s.subrange(i, s.len() as int), f) == s.subrange(j, s.len() as int),
    decreases j - i,
{
    if i < j {
        assert(s.subrange(i, s.len() as int).drop_first() =~= s.subrange(i + 1, s.len() as int));
        lemma_skip_while(s, f, i + 1, j);
    }
}

pub proof fn lemma_take_while(s: Seq<char>, f: spec_fn(char) -> bool, i: int, j: int)
    requires
        0 <= i <= j <= s.len(),
        forall|k: int| i <= k < j ==> f(s[k]),
        j == s.len() || !f(s[j]),
    ensures
        take_while(s.subrange(i, s.len() as int), f) == s.subrange(i, j),
    decreases j - i,
{
    if i < j {
        assert(s.subrange(i, s.len() as int).drop_first() =~= s.subrange(i + 1, s.len() as int));
        lemma_take_while(s, f, i + 1, j);
        assert(s.subrange(i, j) =~= seq![s[i]] + s.subrange(i + 1, j));
    } else {
        assert(s.subrange(i, j) =~= Seq::<char>::empty());
    }
}

pub proof fn lemma_skip_while_rev(s: Seq<char>, f: spec_fn(char) -> bool, j: int, i: int)
    requires
        0 <= j <= i <= s.len(),
        forall|k: int| j <= k < i ==> f(s[k]),
        j == 0 || !f(s[j - 1]),
    ensures
        skip_while_rev(s.subrange(0, i), f) == s.subrange(0, j),
    decreases i - j,
{
    if j < i {
        assert(s.subrange(0, i).drop_last() =~= s.subrange(0, i - 1));
        lemma_skip_while_rev(s, f, j, i - 1);
    }
}

/// `skip_while` leaves a suffix of its input.
pub proof fn lemma_skip_while_suffix(s: Seq<char>, f: spec_fn(char) -> bool)
    ensures
        skip_while(s, f).len() <= s.len(),
        skip_while(s, f) == s.subrange(s.len() - skip_while(s, f).len(), s.len() as int),
        skip_while(s, f).len() > 0 ==> !f(skip_while(s, f)[0]),
    decreases s.len(),
{
    if s.len() > 0 && f(s[0]) {
        lemma_skip_while_suffix(s.drop_first(), f);
        let t = skip_while(s.drop_first(), f);
        assert(s.drop_first().subrange(s.len() - 1 - t.len(), s.len() - 1) =~= s.subrange(
            s.len() - t.len(),
            s.len() as int,
        ));
    } else {
        assert(s.subrange(0, s.len() as int) =~= s);
    }
}

pub proof fn lemma_take_while_prefix(s: Seq<char>, f: spec_fn(char) -> bool)
    ensures
        take_while(s, f).len() <= s.len(),
        take_while(s, f) == s.subrange(0, take_while(s, f).len() as int),
        s.len() > 0 && f(s[0]) ==> take_while(s, f).len() >= 1,
    decreases s.len(),
{
    if s.len() > 0 && f(s[0]) {
        lemma_take_while_prefix(s.drop_first(), f);
        let t = take_while(s.drop_first(), f);
        assert(seq![s[0]] + t =~= s.subrange(0, t.len() + 1 as int));
    } else {
        assert(s.subrange(0, 0) =~= Seq::<char>::empty());
    }
}

/// Index of the first position at or after `i` whose character is not whitespace.
fn skip_ws_from(s: &[char], i: usize) -> (j: usize)
    requires
        i <= s.len(),
    ensures
        i <= j <= s.len(),
        forall|k: int| i <= k < j ==> is_ws(s@[k]),
        j == s.len() || !is_ws(s@[j as int]),
{
    let mut j = i;
    while j < s.len() && ws(s[j])
        invariant
            i <= j <= s.len(),
            forall|k: int| i <= k < j ==> is_ws(s@[k]),
        decreases s.len() - j,
    {
        j += 1;
    }
    j
}

/// Index of the first position at or after `i` whose character is whitespace.
fn skip_word_from(s: &[char], i: usize) -> (j: usize)
    requires
        i <= s.len(),
    ensures
        i <= j <= s.len(),
        forall|k: int| i <= k < j ==> !is_ws(s@[k]),
        j == s.len() || is_ws(s@[j as int]),
{
    let mut j = i;
    while j < s.len() && !ws(s[j])
        invariant
            i <= j <= s.len(),
            forall|k: int| i <= k < j ==> !is_ws(s@[k]),
        decreases s.len() - j,
    {
        j += 1;
    }
    j
}

pub fn trim_exec(s: &[char]) -> (r: Vec<char>)
    ensures
        r@ == trim(s@),
{
    let n = s.len();
    let a = skip_ws_from(s, 0);
    let mut b = n;
    while b > a && ws(s[b - 1])
        invariant
            a <= b <= n,
            n == s.len(),
            forall|k: int| b <= k < n ==> is_ws(s@[k]),
        decreases b,
    {
        b -= 1;
    }
    proof {
        lemma_skip_while(s@, ws_pred(), 0, a as int);
        assert(s@.subrange(0, n as int) =~= s@);
        let t = s@.subrange(a as int, n as int);
        if b > a {
            assert(!is_ws(t[b - a - 1]));
        }
        lemma_skip_while_rev(t, ws_pred(), b - a, n - a);
        assert(t.subrange(0, n - a) =~= t);
        assert(t.subrange(0, b - a) =~= s@.subrange(a as int, b as int));
    }
    slice_of(s, a, b)
}

pub fn trim_punct_exec(s: &[char]) -> (r: Vec<char>)
    ensures
        r@ == trim_punct(s@),
{
    let n = s.len();
    let mut a: usize = 0;
    while a < n && !ascii_alnum(s[a])
        invariant
            a <= n,
            n == s.len(),
            forall|k: int| 0 <= k < a ==> !is_ascii_alnum(s@[k]),
        decreases n - a,
    {
        a += 1;
    }
    let mut b = n;
    while b > a && !ascii_alnum(s[b - 1])
        invariant
            a <= b <= n,
            n == s.len(),
            forall|k: int| b <= k < n ==> !is_ascii_alnum(s@[k]),
        decreases b,
    {
        b -= 1;
    }
    proof {
        lemma_skip_while(s@, punct_pred(), 0, a as int);
        assert(s@.subrange(0, n as int) =~= s@);
        let t = s@.subrange(a as int, n as int);
        if b > a {
            assert(is_ascii_alnum(t[b - a - 1]));
        }
        lemma_skip_while_rev(t, punct_pred(), b - a, n - a);
        assert(t.subrange(0, n - a) =~= t);
        assert(t.subrange(0, b - a) =~= s@.subrange(a as int, b as int));
    }
    slice_of(s, a, b)
}

/// The character sequences held by a vector of character vectors.
pub open spec fn views(v: Seq<Vec<char>>) -> Seq<Seq<char>> {
    v.map_values(|x: Vec<char>| x@)
}

// ---------------------------------------------------------------------------
// Whitespace-separated words
// ---------------------------------------------------------------------------

/// The whitespace-separated words of `s`, in order (`str::split_whitespace`).
pub open spec fn tokens(s: Seq<char>) -> Seq<Seq<char>>
    decreases s.len(),
{
    let t = skip_while(s, ws_pred());
    if t.len() == 0 {
        Seq::empty()
    } else {
        let w = take_while(t, word_pred());
        proof {
            lemma_skip_while_suffix(s, ws_pred());
            lemma_take_while_prefix(t, word_pred());
        }
        seq![w] + tokens(t.subrange(w.len() as int, t.len() as int))
    }
}

pub fn tokens_exec(s: &[char]) -> (r: Vec<Vec<char>>)
    ensures
        views(r@) == tokens(s@),
{
    let n = s.len();
    let mut out: Vec<Vec<char>> = Vec::new();
    let mut i: usize = 0;
    proof {
        assert(s@.subrange(0, n as int) =~= s@);
    }
    while i < n
        invariant
            i <= n,
            n == s.len(),
            tokens(s@) == views(out@) + tokens(s@.subrange(i as int, n as int)),
        decreases n - i,
    {
        let a = skip_ws_from(s, i);
        proof {
            lemma_skip_while(s@, ws_pred(), i as int, a as int);
        }
        if a == n {
            proof {
                assert(tokens(s@.subrange(i as int, n as int)) =~= Seq::<Seq<char>>::empty());
                assert(views(out@) + Seq::<Seq<char>>::empty() =~= views(out@));
            }
            i = n;
        } else {
            let b = skip_word_from(s, a);
            proof {
                let t = s@.subrange(a as int, n as int);
                assert(t =~= s@.subrange(a as int, n as int));
                lemma_take_while(s@, word_pred(), a as int, b as int);
                assert(t.subrange(b - a, t.len() as int) =~= s@.subrange(b as int, n as int));
            }
            let w = slice_of(s, a, b);
            let ghost before = views(out@);
            out.push(w);
            proof {
                assert(views(out@) =~= before.push(s@.subrange(a as int, b as int)));
                let rest = tokens(s@.subrange(b as int, n as int));
                assert(tokens(s@.subrange(i as int, n as int)) == seq![
                    s@.subrange(a as int, b as int),
                ] + rest);
                assert(before + (seq![s@.subrange(a as int, b as int)] + rest) =~= views(out@)
                    + rest);
            }
            i = b;
        }
    }
    proof {
        assert(s@.subrange(n as int, n as int) =~= Seq::<char>::empty());
        assert(views(out@) + Seq::<Seq<char>>::empty() =~= views(out@));
    }
    out
}

// ---------------------------------------------------------------------------
// Splitting on a character
// ---------------------------------------------------------------------------

/// The text before and after the first occurrence of `c` (`str::split_once`).
pub open spec fn split_once(s: Seq<char>, c: char) -> Option<(Seq<char>, Seq<char>)> {
    match find(s, seq![c]) {
        Some(i) => Some((s.subrange(0, i), s.subrange(i + 1, s.len() as int))),
        None => None,
    }
}

pub fn split_once_exec(s: &[char], c: char) -> (r: Option<(Vec<char>, Vec<char>)>)
    ensures
        match r {
            Some((a, b)) => split_once(s@, c) == Some((a@, b@)),
            None => split_once(s@, c) is None,
        },
{
    let pat = vec![c];
    match find_exec(s, pat.as_slice()) {
        Some(i) => {
            proof {
                assert(pat@ =~= seq![c]);
                lemma_find_from_occurs(s@, pat@, 0);
            }
            Some((slice_of(s, 0, i), slice_of(s, i + 1, s.len())))
        },
        None => {
            proof {
                assert(pat@ =~= seq![c]);
            }
            None
        },
    }
}

/// The pieces of `s` between occurrences of `c` (`str::split`): one more piece than
/// there are occurrences.
pub open spec fn split_on(s: Seq<char>, c: char) -> Seq<Seq<char>>
    decreases s.len(),
{
    match find(s, seq![c]) {
        Some(i) => {
            proof {
                lemma_find_from_occurs(s, seq![c], 0);
            }
            seq![s.subrange(0, i)] + split_on(s.subrange(i + 1, s.len() as int), c)
        },
        None => seq![s],
    }
}

pub fn split_on_exec(s: &[char], c: char) -> (r: Vec<Vec<char>>)
    ensures
        views(r@) == split_on(s@, c),
{
    let mut out: Vec<Vec<char>> = Vec::new();
    let mut rest: Vec<char> = slice_of(s, 0, s.len());
    proof {
        assert(s@.subrange(0, s.len() as int) =~= s@);
        assert(views(out@) + split_on(rest@, c) =~= split_on(s@, c));
    }
    loop
        invariant_except_break
            split_on(s@, c) == views(out@) + split_on(rest@, c),
        ensures
            split_on(s@, c) == views(out@),
        decreases rest.len(),
    {
        match split_once_exec(rest.as_slice(), c) {
            Some((head, tail)) => {
                proof {
                    lemma_find_from_occurs(rest@, seq![c], 0);
                }
                let ghost before = views(out@);
                out.push(head);
                proof {
                    assert(views(out@) =~= before.push(head@));
                    assert(split_on(rest@, c) == seq![head@] + split_on(tail@, c));
                    assert(before + (seq![head@] + split_on(tail@, c)) =~= views(out@)
                        + split_on(tail@, c));
                }
                rest = tail;
            },
            None => {
                let ghost before = views(out@);
                let ghost last = rest@;
                out.push(rest);
                proof {
                    assert(views(out@) =~= before.push(last));
                    assert(split_on(last, c) == seq![last]);
                    assert(before + seq![last] =~= views(out@));
                }
                break;
            },
        }
    }
    out
}

// ---------------------------------------------------------------------------
// Lines
// ---------------------------------------------------------------------------

/// A line as `str::lines` yields it: the text before a `\n`, without a `\r`
/// directly in front of that `\n`.
pub open spec fn strip_cr(s: Seq<char>) -> Seq<char> {
    if s.len() > 0 && s.last() == '\r' {
        s.drop_last()
    } else {
        s
    }
}

/// The lines of `s` (`str::lines`): split at `\n`, a `\r` before the `\n` dropped,
/// and no empty line after a final line ending.
pub open spec fn lines(s: Seq<char>) -> Seq<Seq<char>>
    decreases s.len(),
{
    if s.len() == 0 {
        Seq::empty()
    } else {
        match find(s, seq!['\n']) {
            Some(i) => {
                proof {
                    lemma_find_from_occurs(s, seq!['\n'], 0);
                }
                seq![strip_cr(s.subrange(0, i))] + lines(s.subrange(i + 1, s.len() as int))
            },
            None => seq![s],
        }
    }
}

pub fn lines_exec(s: &[char]) -> (r: Vec<Vec<char>>)
    ensures
        views(r@) == lines(s@),
{
    let mut out: Vec<Vec<char>> = Vec::new();
    let mut rest: Vec<char> = slice_of(s, 0, s.len());
    proof {
        assert(s@.subrange(0, s.len() as int) =~= s@);
        assert(views(out@) + lines(rest@) =~= lines(s@));
    }
    loop
        invariant_except_break
            lines(s@) == views(out@) + lines(rest@),
        ensures
            lines(s@) == views(out@),
        decreases rest.len(),
    {
        if rest.len() == 0 {
            proof {
                assert(views(out@) + lines(rest@) =~= views(out@));
            }
            break;
        }
        match split_once_exec(rest.as_slice(), '\n') {
            Some((head, tail)) => {
                proof {
                    lemma_find_from_occurs(rest@, seq!['\n'], 0);
                }
                let ghost h = head@;
                let line = if head.len() > 0 && head[head.len() - 1] == '\r' {
                    slice_of(head.as_slice(), 0, head.len() - 1)
                } else {
                    head
                };
                proof {
                    if h.len() > 0 && h.last() == '\r' {
                        assert(h.subrange(0, h.len() - 1) =~= h.drop_last());
                    }
                }
                let ghost before = views(out@);
                out.push(line);
                proof {
                    assert(views(out@) =~= before.push(strip_cr(h)));
                    assert(lines(rest@) == seq![strip_cr(h)] + lines(tail@));
                    assert(before + (seq![strip_cr(h)] + lines(tail@)) =~= views(out@)
                        + lines(tail@));
                }
                rest = tail;
            },
            None => {
                let ghost before = views(out@);
                let ghost last = rest@;
                out.push(rest);
                proof {
                    assert(views(out@) =~= before.push(last));
                    assert(lines(last) == seq![last]);
                    assert(before + seq![last] =~= views(out@));
                }
                break;
            },
        }
    }
    out
}

// ---------------------------------------------------------------------------
// Decimal numbers
// ---------------------------------------------------------------------------

pub open spec fn digit_char(d: nat) -> char {
    ((d + 48) as u8) as char
}

pub open spec fn digit_value(c: char) -> nat {
    ((c as u32) - 48) as nat
}

/// The decimal representation of `n`, without leading zeros.
pub open spec fn decimal(n: nat) -> Seq<char>
    decreases n,
{
    if n < 10 {
        seq![digit_char(n)]
    } else {
        decimal(n / 10).push(digit_char(n % 10))
    }
}

pub fn push_decimal(out: &mut String, n: u64)
    ensures
        final(out)@ == old(out)@ + decimal(n as nat),
    decreases n,
{
    let ghost start = out@;
    if n >= 10 {
        push_decimal(out, n / 10);
    }
    let d = (n % 10) as u8;
    out.push((d + 48) as char);
    proof {
        if n >= 10 {
            assert(out@ =~= start + decimal(n as nat));
        } else {
            assert(out@ =~= start + decimal(n as nat));
        }
    }
}

/// Why a string is not a number (the kinds `u8::from_str` and `u16::from_str` report).
#[derive(Clone, Copy, Debug, PartialEq, Eq, Structural)]
pub enum NumberError {
    /// The string is empty.
    Empty,
    /// A character is not a decimal digit (or a lone sign).
    InvalidDigit,
    /// The value does not fit the integer type.
    PosOverflow,
}

impl NumberError {
    /// The message that the standard library gives for the same kind of failure.
    pub fn message(&self) -> (r: String)
        ensures
            r@ == self.spec_message(),
    {
        match self {
            NumberError::Empty => String::from_str("cannot parse integer from empty string"),
            NumberError::InvalidDigit => String::from_str("invalid digit found in string"),
            NumberError::PosOverflow => String::from_str("number too large to fit in target type"),
        }
    }

    pub open spec fn spec_message(&self) -> Seq<char> {
        match self {
            NumberError::Empty => "cannot parse integer from empty string"@,
            NumberError::InvalidDigit => "invalid digit found in string"@,
            NumberError::PosOverflow => "number too large to fit in target type"@,
        }
    }
}

/// Read the decimal digits of `d` after an accumulated value `acc`, failing at the
/// first character that is not a digit or the first prefix whose value exceeds `max`.
pub open spec fn digits_value(d: Seq<char>, max: nat, acc: nat) -> Result<nat, NumberError>
    decreases d.len(),
{
    if d.len() == 0 {
        Ok(acc)
    } else if !is_ascii_digit(d[0]) {
        Err(NumberError::InvalidDigit)
    } else if acc * 10 + digit_value(d[0]) > max {
        Err(NumberError::PosOverflow)
    } else {
        digits_value(d.drop_first(), max, acc * 10 + digit_value(d[0]))
    }
}

/// An unsigned decimal number no larger than `max`, as `from_str` reads it for an
/// unsigned integer type: an optional `+`, then one or more ASCII digits.
pub open spec fn parse_unsigned(s: Seq<char>, max: nat) -> Result<nat, NumberError> {
    if s.len() == 0 {
        Err(NumberError::Empty)
    } else if s.len() == 1 && (s[0] == '+' || s[0] == '-') {
        Err(NumberError::InvalidDigit)
    } else if s[0] == '+' {
        digits_value(s.drop_first(), max, 0)
    } else {
        digits_value(s, max, 0)
    }
}

pub proof fn lemma_digits_value_bound(d: Seq<char>, max: nat, acc: nat)
    requires
        acc <= max,
    ensures
        digits_value(d, max, acc) matches Ok(v) ==> v <= max,
    decreases d.len(),
{
    if d.len() > 0 && is_ascii_digit(d[0]) && acc * 10 + digit_value(d[0]) <= max {
        lemma_digits_value_bound(d.drop_first(), max, acc * 10 + digit_value(d[0]));
    }
}

fn digits_exec(s: &[char], start: usize, max: u32) -> (r: Result<u32, NumberError>)
    requires
        start <= s.len(),
        max <= 0xffff,
    ensures
        match r {
            Ok(v) => digits_value(s@.subrange(start as int, s.len() as int), max as nat, 0)
                == Ok::<nat, NumberError>(v as nat),
            Err(e) => digits_value(s@.subrange(start as int, s.len() as int), max as nat, 0)
                == Err::<nat, NumberError>(e),
        },
{
    let n = s.len();
    let mut acc: u32 = 0;
    let mut i = start;
    proof {
        assert(s@.subrange(start as int, n as int) =~= s@.subrange(start as int, n as int));
    }
    while i < n
        invariant
            start <= i <= n,
            n == s.len(),
            max <= 0xffff,
            acc <= max,
            digits_value(s@.subrange(start as int, n as int), max as nat, 0) == digits_value(
                s@.subrange(i as int, n as int),
                max as nat,
                acc as nat,
            ),
        decreases n - i,
    {
        let c = s[i];
        proof {
            assert(s@.subrange(i as int, n as int)[0] == c);
            assert(s@.subrange(i as int, n as int).drop_first() =~= s@.subrange(
                i + 1,
                n as int,
            ));
        }
        if !ascii_digit(c) {
            return Err(NumberError::InvalidDigit);
        }
        let d = (c as u32) - 48;
        let next = acc * 10 + d;
        if next > max {
            return Err(NumberError::PosOverflow);
        }
        acc = next;
        i += 1;
    }
    proof {
        assert(s@.subrange(n as int, n as int) =~= Seq::<char>::empty());
    }
    Ok(acc)
}

/// Read `s` as an unsigned decimal number no larger than `max`.
pub fn parse_unsigned_exec(s: &[char], max: u32) -> (r: Result<u32, NumberError>)
    requires
        max <= 0xffff,
    ensures
        match r {
            Ok(v) => parse_unsigned(s@, max as nat) == Ok::<nat, NumberError>(v as nat) && v
                <= max,
            Err(e) => parse_unsigned(s@, max as nat) == Err::<nat, NumberError>(e),
        },
{
    if s.len() == 0 {
        return Err(NumberError::Empty);
    }
    if s.len() == 1 && (s[0] == '+' || s[0] == '-') {
        return Err(NumberError::InvalidDigit);
    }
    let start: usize = if s[0] == '+' {
        1
    } else {
        0
    };
    proof {
        assert(s@.subrange(1, s.len() as int) =~= s@.drop_first());
        assert(s@.subrange(0, s.len() as int) =~= s@);
    }
    let r = digits_exec(s, start, max);
    proof {
        lemma_digits_value_bound(s@.subrange(start as int, s.len() as int), max as nat, 0);
    }
    r
}

} // verus!
