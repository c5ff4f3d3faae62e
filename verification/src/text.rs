//! Text primitives over character sequences: splitting on whitespace,
//! substring search, ASCII case folding and code-point order.
use vstd::prelude::*;

verus! {

/// What `str::to_lowercase` returns for a string with these characters
/// (Unicode lower-case mapping, context dependent for final sigma).
pub uninterp spec fn lowercase(s: Seq<char>) -> Seq<char>;

/// What `str::to_uppercase` returns for a string with these characters
/// (Unicode upper-case mapping).
pub uninterp spec fn uppercase(s: Seq<char>) -> Seq<char>;

/// The Unicode `White_Space` property, which `char::is_whitespace` decides:
/// tab to carriage return, space, next line, no-break space, ogham space mark,
/// the spaces from en quad to hair space, line and paragraph separators,
/// narrow no-break space, medium mathematical space and ideographic space.
pub open spec fn whitespace(c: char) -> bool {
    let u = c as int;
    ||| 0x09 <= u <= 0x0d
    ||| u == 0x20
    ||| u == 0x85
    ||| u == 0xa0
    ||| u == 0x1680
    ||| 0x2000 <= u <= 0x200a
    ||| u == 0x2028
    ||| u == 0x2029
    ||| u == 0x202f
    ||| u == 0x205f
    ||| u == 0x3000
}

/// Every character of `s` is ASCII.
pub open spec fn ascii_text(s: Seq<char>) -> bool {
    forall|i: int| 0 <= i < s.len() ==> (#[trigger] s[i] as u32) < 128
}

/// `c` with an ASCII upper-case letter turned to lower case.
pub open spec fn ascii_lower_char(c: char) -> char {
    let u = c as u32;
    if 65 <= u <= 90 {
        (u + 32) as char
    } else {
        c
    }
}

/// `c` with an ASCII lower-case letter turned to upper case.
pub open spec fn ascii_upper_char(c: char) -> char {
    let u = c as u32;
    if 97 <= u <= 122 {
        (u - 32) as char
    } else {
        c
    }
}

/// `s` with ASCII letters lower-cased, character by character.
pub open spec fn ascii_lower(s: Seq<char>) -> Seq<char> {
    s.map_values(|c: char| ascii_lower_char(c))
}

/// `s` with ASCII letters upper-cased, character by character.
pub open spec fn ascii_upper(s: Seq<char>) -> Seq<char> {
    s.map_values(|c: char| ascii_upper_char(c))
}

/// What `str::to_lowercase` returns for `s`: on ASCII text, each upper-case
/// letter lower-cased and every other character kept; otherwise the Unicode
/// mapping, named `lowercase`.
pub open spec fn lower_text(s: Seq<char>) -> Seq<char> {
    if ascii_text(s) {
        ascii_lower(s)
    } else {
        lowercase(s)
    }
}

/// What `str::to_uppercase` returns for `s`: on ASCII text, each lower-case
/// letter upper-cased and every other character kept; otherwise the Unicode
/// mapping, named `uppercase`.
pub open spec fn upper_text(s: Seq<char>) -> Seq<char> {
    if ascii_text(s) {
        ascii_upper(s)
    } else {
        uppercase(s)
    }
}

/// Calls `str::to_lowercase`. Claimed: the result is `lowercase` of the argument's
/// characters; on ASCII text (the empty string among it) it maps `A`..`Z` to
/// `a`..`z` and keeps every other character. Nothing else is said of the
/// Unicode mapping.
#[verifier::external_body]
pub(crate) fn to_lowercase(s: &str) -> (r: String)
    ensures
        r@ == lowercase(s@),
        ascii_text(s@) ==> r@ == ascii_lower(s@),
{
    s.to_lowercase()
}

/// Calls `str::to_uppercase`. Claimed: the result is `uppercase` of the
/// argument's characters; on ASCII text it maps `a`..`z` to `A`..`Z` and keeps
/// every other character. Nothing else is said of the Unicode mapping.
#[verifier::external_body]
pub(crate) fn to_uppercase(s: &str) -> (r: String)
    ensures
        r@ == uppercase(s@),
        ascii_text(s@) ==> r@ == ascii_upper(s@),
{
    s.to_uppercase()
}

/// Whether `c` is white space.
pub fn is_whitespace(c: char) -> (b: bool)
    ensures
        b == whitespace(c),
{
    let u = code(c);
    (0x09 <= u && u <= 0x0d) || u == 0x20 || u == 0x85 || u == 0xa0 || u == 0x1680 || (0x2000
        <= u && u <= 0x200a) || u == 0x2028 || u == 0x2029 || u == 0x202f || u == 0x205f || u
        == 0x3000
}

/// Calls `String::push`. Claimed: `c` is appended to `s`.
#[verifier::external_body]
pub(crate) fn push_char(s: &mut String, c: char)
    ensures
        final(s)@ == old(s)@.push(c),
{
    s.push(c)
}

/// The characters of `s`, in order.
pub fn chars_of(s: &str) -> (v: Vec<char>)
    ensures
        v@ == s@,
{
    let mut v: Vec<char> = Vec::new();
    for c in it: s.chars()
        invariant
            v@ == it.seq().take(it.index() as int),
            it.seq() == s@,
    {
        v.push(c);
    }
    v
}

/// A fresh string holding `s`.
pub fn owned(s: &str) -> (r: String)
    ensures
        r@ == s@,
{
    let mut r = String::new();
    r.append(s);
    r
}

// ---------------------------------------------------------------------------
// Whitespace-separated words

/// The maximal runs of non-whitespace characters of `s`, left to right
/// (what `str::split_whitespace` yields).
pub open spec fn words(s: Seq<char>) -> Seq<Seq<char>>
    decreases s.len(),
{
    if s.len() == 0 {
        seq![]
    } else {
        let init = s.drop_last();
        let c = s.last();
        let w = words(init);
        if whitespace(c) {
            w
        } else if init.len() > 0 && !whitespace(init.last()) && w.len() > 0 {
            w.update(w.len() - 1, w.last().push(c))
        } else {
            w.push(seq![c])
        }
    }
}

pub open spec fn views_of(v: Seq<Vec<char>>) -> Seq<Seq<char>> {
    v.map_values(|w: Vec<char>| w@)
}

/// Splits `s` into its whitespace-separated words.
pub fn split_words(s: &Vec<char>) -> (r: Vec<Vec<char>>)
    ensures
        views_of(r@) == words(s@),
{
    let mut acc: Vec<Vec<char>> = Vec::new();
    let mut cur: Vec<char> = Vec::new();
    let n = s.len();
    let mut i: usize = 0;
    while i < n
        invariant
            n == s.len(),
            i <= n,
            cur.len() > 0 <==> (i > 0 && !whitespace(s@[i - 1])),
            cur.len() > 0 ==> words(s@.take(i as int)) == views_of(acc@).push(cur@),
            cur.len() == 0 ==> words(s@.take(i as int)) == views_of(acc@),
        decreases n - i,
    {
        let c = s[i];
        let ghost pre = s@.take(i as int);
        assert(s@.take(i + 1).drop_last() == pre);
        assert(s@.take(i + 1).last() == c);
        if is_whitespace(c) {
            if cur.len() > 0 {
                let ghost before = views_of(acc@);
                let w = cur;
                acc.push(w);
                cur = Vec::new();
                assert(views_of(acc@) == before.push(w@));
            }
        } else {
            if cur.len() > 0 {
                let ghost before = views_of(acc@).push(cur@);
                cur.push(c);
                assert(before.update(before.len() - 1, before.last().push(c)) == views_of(
                    acc@,
                ).push(cur@));
            } else {
                cur.push(c);
                assert(cur@ == seq![c]);
            }
        }
        i = i + 1;
    }
    assert(s@.take(n as int) == s@);
    if cur.len() > 0 {
        let ghost before = views_of(acc@);
        acc.push(cur);
        assert(views_of(acc@) == before.push(cur@));
    }
    acc
}

// ---------------------------------------------------------------------------
// Substring search

pub open spec fn occurs_at(hay: Seq<char>, w: Seq<char>, k: int) -> bool {
    0 <= k && k + w.len() <= hay.len() && hay.subrange(k, k + w.len()) == w
}

/// `w` occurs somewhere in `hay` (what `str::contains` decides for a string pattern).
pub open spec fn contains(hay: Seq<char>, w: Seq<char>) -> bool {
    exists|k: int| occurs_at(hay, w, k)
}

fn matches_at(hay: &Vec<char>, w: &Vec<char>, k: usize) -> (b: bool)
    requires
        k + w.len() <= hay.len(),
    ensures
        b == occurs_at(hay@, w@, k as int),
{
    let m = w.len();
    let mut j: usize = 0;
    while j < m
        invariant
            m == w.len(),
            k + m <= hay.len(),
            j <= m,
            forall|t: int| 0 <= t < j ==> hay@[k + t] == w@[t],
        decreases m - j,
    {
        if hay[k + j] != w[j] {
            assert(hay@.subrange(k as int, k + m)[j as int] != w@[j as int]);
            return false;
        }
        j = j + 1;
    }
    assert(hay@.subrange(k as int, k + m) =~= w@);
    true
}

/// Whether `w` occurs in `hay`.
pub fn contains_chars(hay: &Vec<char>, w: &Vec<char>) -> (b: bool)
    ensures
        b == contains(hay@, w@),
{
    if w.len() > hay.len() {
        assert forall|k: int| !occurs_at(hay@, w@, k) by {}
        return false;
    }
    let last = hay.len() - w.len();
    let mut k: usize = 0;
    while k < last
        invariant
            last == hay.len() - w.len(),
            w.len() <= hay.len(),
            k <= last,
            forall|t: int| 0 <= t < k ==> !occurs_at(hay@, w@, t),
        decreases last - k,
    {
        if matches_at(hay, w, k) {
            return true;
        }
        k = k + 1;
    }
    if matches_at(hay, w, last) {
        return true;
    }
    assert forall|t: int| !occurs_at(hay@, w@, t) by {
        if 0 <= t < k {
        }
    }
    false
}

/// Every word of `ws` occurs in `hay`.
pub open spec fn contains_all(hay: Seq<char>, ws: Seq<Seq<char>>) -> bool {
    forall|i: int| 0 <= i < ws.len() ==> contains(hay, #[trigger] ws[i])
}

pub fn contains_all_words(hay: &Vec<char>, ws: &Vec<Vec<char>>) -> (b: bool)
    ensures
        b == contains_all(hay@, views_of(ws@)),
{
    let n = ws.len();
    let mut i: usize = 0;
    while i < n
        invariant
            n == ws.len(),
            i <= n,
            forall|t: int| 0 <= t < i ==> contains(hay@, #[trigger] views_of(ws@)[t]),
        decreases n - i,
    {
        if !contains_chars(hay, &ws[i]) {
            assert(!contains(hay@, views_of(ws@)[i as int]));
            return false;
        }
        i = i + 1;
    }
    true
}

// ---------------------------------------------------------------------------
// ASCII case folding

/// The code of `c` with ASCII upper-case letters folded to lower case.
pub open spec fn ascii_fold(c: char) -> u32 {
    let u = c as u32;
    if 65 <= u <= 90 {
        (u + 32) as u32
    } else {
        u
    }
}

/// What `str::eq_ignore_ascii_case` decides: the same characters up to ASCII case.
pub open spec fn eq_ignore_ascii_case(a: Seq<char>, b: Seq<char>) -> bool {
    a.len() == b.len() && forall|i: int| 0 <= i < a.len() ==> ascii_fold(a[i]) == ascii_fold(b[i])
}

fn fold(c: char) -> (u: u32)
    ensures
        u == ascii_fold(c),
{
    let u = c as u32;
    if 65 <= u && u <= 90 {
        u + 32
    } else {
        u
    }
}

pub fn same_ignoring_ascii_case(a: &str, b: &str) -> (r: bool)
    ensures
        r == eq_ignore_ascii_case(a@, b@),
{
    let x = chars_of(a);
    let y = chars_of(b);
    if x.len() != y.len() {
        return false;
    }
    let n = x.len();
    let mut i: usize = 0;
    while i < n
        invariant
            n == x.len(),
            n == y.len(),
            x@ == a@,
            y@ == b@,
            i <= n,
            forall|t: int| 0 <= t < i ==> ascii_fold(x@[t]) == ascii_fold(y@[t]),
        decreases n - i,
    {
        if fold(x[i]) != fold(y[i]) {
            return false;
        }
        i = i + 1;
    }
    true
}

// ---------------------------------------------------------------------------
// Equality, prefixes and code-point order

pub fn same_text(a: &str, b: &str) -> (r: bool)
    ensures
        r == (a@ == b@),
{
    let x = chars_of(a);
    let y = chars_of(b);
    if x.len() != y.len() {
        return false;
    }
    let n = x.len();
    let mut i: usize = 0;
    while i < n
        invariant
            n == x.len(),
            n == y.len(),
            x@ == a@,
            y@ == b@,
            i <= n,
            forall|t: int| 0 <= t < i ==> x@[t] == y@[t],
        decreases n - i,
    {
        if x[i] != y[i] {
            return false;
        }
        i = i + 1;
    }
    assert(x@ =~= y@);
    true
}

/// Whether two character vectors are equal.
pub fn same_chars(a: &Vec<char>, b: &Vec<char>) -> (r: bool)
    ensures
        r == (a@ == b@),
{
    if a.len() != b.len() {
        return false;
    }
    let n = a.len();
    let mut i: usize = 0;
    while i < n
        invariant
            n == a.len(),
            n == b.len(),
            i <= n,
            forall|t: int| 0 <= t < i ==> a@[t] == b@[t],
        decreases n - i,
    {
        if a[i] != b[i] {
            return false;
        }
        i = i + 1;
    }
    assert(a@ =~= b@);
    true
}

/// Whether `s` begins with `p`.
pub fn starts_with_chars(s: &Vec<char>, p: &Vec<char>) -> (r: bool)
    ensures
        r == (p@.len() <= s@.len() && s@.take(p@.len() as int) == p@),
{
    if p.len() > s.len() {
        return false;
    }
    let n = p.len();
    let mut i: usize = 0;
    while i < n
        invariant
            n == p.len(),
            n <= s.len(),
            i <= n,
            forall|t: int| 0 <= t < i ==> s@[t] == p@[t],
        decreases n - i,
    {
        if s[i] != p[i] {
            assert(s@.take(n as int)[i as int] != p@[i as int]);
            return false;
        }
        i = i + 1;
    }
    assert(s@.take(n as int) =~= p@);
    true
}

/// Strict lexicographic order on code points (the order of `String`'s `Ord`,
/// since UTF-8 byte order agrees with code-point order).
pub open spec fn text_less(a: Seq<char>, b: Seq<char>) -> bool
    decreases a.len(),
{
    if a.len() == 0 {
        b.len() > 0
    } else if b.len() == 0 {
        false
    } else if (a[0] as int) < (b[0] as int) {
        true
    } else if a[0] == b[0] {
        text_less(a.drop_first(), b.drop_first())
    } else {
        false
    }
}

pub proof fn lemma_text_less_irreflexive(a: Seq<char>)
    ensures
        !text_less(a, a),
    decreases a.len(),
{
    if a.len() > 0 {
        lemma_text_less_irreflexive(a.drop_first());
    }
}

pub proof fn lemma_text_less_trichotomy(a: Seq<char>, b: Seq<char>)
    ensures
        a != b ==> (text_less(a, b) || text_less(b, a)),
        !(text_less(a, b) && text_less(b, a)),
    decreases a.len(),
{
    if a.len() > 0 && b.len() > 0 {
        lemma_text_less_trichotomy(a.drop_first(), b.drop_first());
        if a[0] == b[0] && a.drop_first() == b.drop_first() {
            assert(a =~= seq![a[0]] + a.drop_first());
            assert(b =~= seq![b[0]] + b.drop_first());
        }
    } else if a.len() == 0 && b.len() == 0 {
        assert(a =~= b);
    }
}

pub proof fn lemma_text_less_transitive(a: Seq<char>, b: Seq<char>, c: Seq<char>)
    requires
        text_less(a, b),
        text_less(b, c),
    ensures
        text_less(a, c),
    decreases a.len(),
{
    if a.len() > 0 && b.len() > 0 && c.len() > 0 {
        if a[0] == b[0] && b[0] == c[0] {
            lemma_text_less_transitive(a.drop_first(), b.drop_first(), c.drop_first());
        }
    }
}

/// The code point of `c`.
pub fn code(c: char) -> (u: u32)
    ensures
        u as int == c as int,
{
    c as u32
}

/// Where `a` stands relative to `b` in code-point order.
pub enum Rank {
    Before,
    Same,
    After,
}

pub fn rank_text(a: &Vec<char>, b: &Vec<char>) -> (r: Rank)
    ensures
        r is Before <==> text_less(a@, b@),
        r is Same <==> a@ == b@,
        r is After <==> text_less(b@, a@),
{
    proof {
        lemma_text_less_trichotomy(a@, b@);
        lemma_text_less_irreflexive(a@);
        assert(a@.skip(0) =~= a@);
        assert(b@.skip(0) =~= b@);
    }
    let mut i: usize = 0;
    while i < a.len() && i < b.len()
        invariant
            i <= a.len(),
            i <= b.len(),
            forall|t: int| 0 <= t < i ==> a@[t] == b@[t],
            text_less(a@, b@) == text_less(a@.skip(i as int), b@.skip(i as int)),
            text_less(b@, a@) == text_less(b@.skip(i as int), a@.skip(i as int)),
            !(text_less(a@, b@) && text_less(b@, a@)),
        decreases a.len() - i,
    {
        let x = code(a[i]);
        let y = code(b[i]);
        assert(a@.skip(i as int)[0] == a@[i as int]);
        assert(b@.skip(i as int)[0] == b@[i as int]);
        if x < y {
            assert(text_less(a@.skip(i as int), b@.skip(i as int)));
            return Rank::Before;
        }
        if y < x {
            assert(text_less(b@.skip(i as int), a@.skip(i as int)));
            return Rank::After;
        }
        assert(a@[i as int] == b@[i as int]);
        assert(a@.skip(i as int).drop_first() =~= a@.skip(i + 1));
        assert(b@.skip(i as int).drop_first() =~= b@.skip(i + 1));
        i = i + 1;
    }
    if a.len() == b.len() {
        assert(a@ =~= b@);
        Rank::Same
    } else if a.len() < b.len() {
        assert(a@.skip(i as int).len() == 0);
        Rank::Before
    } else {
        assert(b@.skip(i as int).len() == 0);
        Rank::After
    }
}

} // verus!
