//! Text as sequences of characters: the string operations the other modules
//! are built from, each with a specification over `Seq<char>`.

use vstd::prelude::*;

verus! {

/// `String::push` appends one character.
pub assume_specification[ String::push ](s: &mut String, c: char)
    ensures
        final(s)@ == old(s)@.push(c),
;

/// The texts of a list of strings.
pub open spec fn texts(v: Seq<String>) -> Seq<Seq<char>> {
    v.map_values(|s: String| s@)
}

/// The text an optional string holds.
pub open spec fn opt_text(o: Option<String>) -> Option<Seq<char>> {
    match o {
        Some(s) => Some(s@),
        None => None,
    }
}

/// The text an optional string slice holds.
pub open spec fn opt_str(o: Option<&str>) -> Option<Seq<char>> {
    match o {
        Some(s) => Some(s@),
        None => None,
    }
}

/// The characters of `s`, in order.
pub fn chars_of(s: &str) -> (r: Vec<char>)
    ensures
        r@ == s@,
{
    let mut r: Vec<char> = Vec::new();
    for c in it: s.chars()
        invariant
            r@ == it.seq().take(it.index()),
            it.seq() == s@,
    {
        r.push(c);
    }
    assert(s@.take(s@.len() as int) =~= s@);
    r
}

/// The string made of the characters `v[from..to]`.
pub fn string_of_range(v: &Vec<char>, from: usize, to: usize) -> (r: String)
    requires
        from <= to <= v.len(),
    ensures
        r@ == v@.subrange(from as int, to as int),
{
    let mut r = String::new();
    let mut i: usize = from;
    while i < to
        invariant
            from <= i <= to <= v.len(),
            r@ == v@.subrange(from as int, i as int),
        decreases to - i,
    {
        r.push(v[i]);
        i += 1;
        assert(v@.subrange(from as int, i as int) =~= v@.subrange(from as int, i - 1).push(
            v@[i - 1],
        ));
    }
    r
}

/// The string made of the characters `v`.
pub fn string_of(v: &Vec<char>) -> (r: String)
    ensures
        r@ == v@,
{
    assert(v@.subrange(0, v@.len() as int) =~= v@);
    string_of_range(v, 0, v.len())
}

/// Whether two strings hold the same text.
pub fn text_eq(a: &str, b: &str) -> (r: bool)
    ensures
        r == (a@ == b@),
{
    a.to_owned() == b.to_owned()
}

/// A copy of a list of strings.
pub fn copy_strings(v: &Vec<String>) -> (r: Vec<String>)
    ensures
        r@ == v@,
{
    let mut r: Vec<String> = Vec::new();
    let mut i: usize = 0;
    while i < v.len()
        invariant
            i <= v.len(),
            r@ == v@.take(i as int),
        decreases v.len() - i,
    {
        r.push(v[i].clone());
        i += 1;
        assert(v@.take(i as int) =~= v@.take(i - 1).push(v@[i - 1]));
    }
    assert(v@.take(v@.len() as int) =~= v@);
    r
}

// ---------------------------------------------------------------------------
// Character classes
// ---------------------------------------------------------------------------

/// The characters with Unicode's `White_Space` property.
pub open spec fn white(c: char) -> bool {
    let u = c as u32;
    ||| 0x09 <= u <= 0x0d
    ||| u == 0x20
    ||| u == 0x85
    ||| u == 0xa0
    ||| u == 0x1680
    ||| 0x2000 <= u <= 0x200a
    ||| u == 0x2028
    ||| u == 0x2029
    ||| u == 0x202f
    ||| u == 0x205f
    ||| u == 0x3000
}

/// Whether `c` is white space.
pub fn is_white(c: char) -> (r: bool)
    ensures
        r == white(c),
{
    let u: u32 = c as u32;
    (0x09 <= u && u <= 0x0d) || u == 0x20 || u == 0x85 || u == 0xa0 || u == 0x1680 || (0x2000 <= u
        && u <= 0x200a) || u == 0x2028 || u == 0x2029 || u == 0x202f || u == 0x205f || u == 0x3000
}

/// The ASCII letters and digits.
pub open spec fn ascii_alphanumeric(c: char) -> bool {
    ||| '0' <= c <= '9'
    ||| 'A' <= c <= 'Z'
    ||| 'a' <= c <= 'z'
}

/// What `char::is_alphanumeric` answers for a character outside ASCII.
pub uninterp spec fn unicode_alphanumeric(c: char) -> bool;

/// Letters and digits: the ASCII ones, and beyond ASCII those that carry
/// Unicode's alphabetic or numeric property.
pub open spec fn alphanumeric(c: char) -> bool {
    if (c as u32) < 0x80 {
        ascii_alphanumeric(c)
    } else {
        unicode_alphanumeric(c)
    }
}

/// Calls `char::is_alphanumeric`: on ASCII it accepts the letters and digits
/// alone; beyond ASCII its answer is a fixed table, which is only named here.
#[verifier::external_body]
pub(crate) fn is_alphanumeric(c: char) -> (r: bool)
    ensures
        (c as u32) < 0x80 ==> r == ascii_alphanumeric(c),
        (c as u32) >= 0x80 ==> r == unicode_alphanumeric(c),
{
    c.is_alphanumeric()
}

/// The decimal digits of ASCII.
pub open spec fn ascii_digit(c: char) -> bool {
    '0' <= c <= '9'
}

/// Whether `c` is an ASCII digit.
pub fn is_digit(c: char) -> (r: bool)
    ensures
        r == ascii_digit(c),
{
    '0' <= c && c <= '9'
}

/// `c` with an ASCII upper-case letter made lower-case.
pub open spec fn lower_char(c: char) -> char {
    if 'A' <= c <= 'Z' {
        ((c as u8) + 32) as char
    } else {
        c
    }
}

/// `s` with its ASCII upper-case letters made lower-case.
pub open spec fn lower(s: Seq<char>) -> Seq<char> {
    s.map_values(|c: char| lower_char(c))
}

/// The lower-case form of `s`, in ASCII.
pub fn lowered(s: &str) -> (r: String)
    ensures
        r@ == lower(s@),
{
    let v = chars_of(s);
    let mut r = String::new();
    let mut i: usize = 0;
    while i < v.len()
        invariant
            i <= v.len(),
            v@ == s@,
            r@ == lower(s@.take(i as int)),
        decreases v.len() - i,
    {
        let c = v[i];
        let d: char = if 'A' <= c && c <= 'Z' {
            (c as u8 + 32) as char
        } else {
            c
        };
        r.push(d);
        i += 1;
        assert(lower(s@.take(i as int)) =~= lower(s@.take(i - 1)).push(d));
    }
    assert(s@.take(s@.len() as int) =~= s@);
    r
}

// ---------------------------------------------------------------------------
// Trimming
// ---------------------------------------------------------------------------

/// `s` without its leading white space.
pub open spec fn trim_start(s: Seq<char>) -> Seq<char>
    decreases s.len(),
{
    if s.len() > 0 && white(s[0]) {
        trim_start(s.skip(1))
    } else {
        s
    }
}

/// `s` without its trailing white space.
pub open spec fn trim_end(s: Seq<char>) -> Seq<char>
    decreases s.len(),
{
    if s.len() > 0 && white(s.last()) {
        trim_end(s.drop_last())
    } else {
        s
    }
}

/// `s` without white space at either end.
pub open spec fn trim(s: Seq<char>) -> Seq<char> {
    trim_end(trim_start(s))
}

/// `s` without the run of `c` that ends it.
pub open spec fn trim_end_char(s: Seq<char>, c: char) -> Seq<char>
    decreases s.len(),
{
    if s.len() > 0 && s.last() == c {
        trim_end_char(s.drop_last(), c)
    } else {
        s
    }
}

/// `s` without its leading white space.
pub fn trimmed_start(s: &str) -> (r: String)
    ensures
        r@ == trim_start(s@),
{
    let v = chars_of(s);
    let mut i: usize = 0;
    assert(s@.skip(0) =~= s@);
    while i < v.len() && is_white(v[i])
        invariant
            i <= v.len(),
            v@ == s@,
            trim_start(s@.skip(i as int)) == trim_start(s@),
        decreases v.len() - i,
    {
        assert(s@.skip(i as int).skip(1) =~= s@.skip(i + 1));
        i += 1;
    }
    assert(s@.skip(i as int) =~= s@.subrange(i as int, s@.len() as int));
    string_of_range(&v, i, v.len())
}

/// `s` without its trailing white space.
pub fn trimmed_end(s: &str) -> (r: String)
    ensures
        r@ == trim_end(s@),
{
    let v = chars_of(s);
    let mut n: usize = v.len();
    assert(s@.take(n as int) =~= s@);
    while n > 0 && is_white(v[n - 1])
        invariant
            n <= v.len(),
            v@ == s@,
            trim_end(s@.take(n as int)) == trim_end(s@),
        decreases n,
    {
        assert(s@.take(n as int).drop_last() =~= s@.take(n - 1));
        n -= 1;
    }
    assert(s@.take(n as int) =~= s@.subrange(0, n as int));
    string_of_range(&v, 0, n)
}

/// `s` without white space at either end.
pub fn trimmed(s: &str) -> (r: String)
    ensures
        r@ == trim(s@),
{
    let t = trimmed_start(s);
    trimmed_end(t.as_str())
}

/// `s` without the run of `c` that ends it.
pub fn trimmed_end_char(s: &str, c: char) -> (r: String)
    ensures
        r@ == trim_end_char(s@, c),
{
    let v = chars_of(s);
    let mut n: usize = v.len();
    assert(s@.take(n as int) =~= s@);
    while n > 0 && v[n - 1] == c
        invariant
            n <= v.len(),
            v@ == s@,
            trim_end_char(s@.take(n as int), c) == trim_end_char(s@, c),
        decreases n,
    {
        assert(s@.take(n as int).drop_last() =~= s@.take(n - 1));
        n -= 1;
    }
    assert(s@.take(n as int) =~= s@.subrange(0, n as int));
    string_of_range(&v, 0, n)
}

// ---------------------------------------------------------------------------
// Words and lines
// ---------------------------------------------------------------------------

/// How many characters of `s` come before its first white space.
pub open spec fn word_len(s: Seq<char>) -> nat
    decreases s.len(),
{
    if s.len() == 0 || white(s[0]) {
        0
    } else {
        1 + word_len(s.skip(1))
    }
}

/// `word_len` stays within the text, stops at white space and passes over
/// everything else.
pub proof fn lemma_word_len(s: Seq<char>)
    ensures
        word_len(s) <= s.len(),
        word_len(s) < s.len() ==> white(s[word_len(s) as int]),
        forall|i: int| 0 <= i < word_len(s) ==> !white(#[trigger] s[i]),
    decreases s.len(),
{
    if s.len() > 0 && !white(s[0]) {
        lemma_word_len(s.skip(1));
        assert forall|i: int| 0 <= i < word_len(s) implies !white(#[trigger] s[i]) by {
            if i > 0 {
                assert(s[i] == s.skip(1)[i - 1]);
            }
        }
    }
}

/// The maximal runs of non-white characters of `s`, in order.
pub open spec fn words(s: Seq<char>) -> Seq<Seq<char>>
    decreases s.len(),
{
    if s.len() == 0 {
        Seq::empty()
    } else if white(s[0]) {
        words(s.skip(1))
    } else {
        proof {
            lemma_word_len(s);
        }
        seq![s.take(word_len(s) as int)] + words(s.skip(word_len(s) as int))
    }
}

/// Scans forward from `from` to the first white space or the end.
fn scan_word(v: &Vec<char>, from: usize) -> (to: usize)
    requires
        from <= v.len(),
    ensures
        to == from + word_len(v@.skip(from as int)),
        from <= to <= v.len(),
{
    let mut i: usize = from;
    while i < v.len() && !is_white(v[i])
        invariant
            from <= i <= v.len(),
            word_len(v@.skip(from as int)) == (i - from) + word_len(v@.skip(i as int)),
        decreases v.len() - i,
    {
        assert(v@.skip(i as int).skip(1) =~= v@.skip(i + 1));
        i += 1;
    }
    i
}

/// The words of `s`.
pub fn words_of(s: &str) -> (r: Vec<String>)
    ensures
        texts(r@) == words(s@),
{
    let v = chars_of(s);
    let mut r: Vec<String> = Vec::new();
    let mut i: usize = 0;
    assert(s@.skip(0) =~= s@);
    assert(texts(r@) + words(s@) =~= words(s@));
    while i < v.len()
        invariant
            i <= v.len(),
            v@ == s@,
            texts(r@) + words(s@.skip(i as int)) == words(s@),
        decreases v.len() - i,
    {
        let ghost rest = s@.skip(i as int);
        if is_white(v[i]) {
            assert(rest.skip(1) =~= s@.skip(i + 1));
            i += 1;
        } else {
            let j = scan_word(&v, i);
            proof {
                lemma_word_len(rest);
                assert(word_len(rest) >= 1);
            }
            let w = string_of_range(&v, i, j);
            let ghost before = r@;
            r.push(w);
            proof {
                assert(w@ =~= rest.take(word_len(rest) as int));
                assert(rest.skip(word_len(rest) as int) =~= s@.skip(j as int));
                assert(texts(r@) =~= texts(before) + seq![w@]);
                assert(texts(r@) + words(s@.skip(j as int)) =~= texts(before) + words(rest));
            }
            i = j;
        }
    }
    assert(s@.skip(i as int) =~= Seq::empty());
    assert(texts(r@) + words(s@.skip(i as int)) =~= texts(r@));
    r
}

/// Where `c` first stands in `s`, or the length of `s` where it does not.
pub open spec fn first_index(s: Seq<char>, c: char) -> nat
    decreases s.len(),
{
    if s.len() == 0 || s[0] == c {
        0
    } else {
        1 + first_index(s.skip(1), c)
    }
}

/// `first_index` stays within the text, finds `c`, and passes over everything
/// else.
pub proof fn lemma_first_index(s: Seq<char>, c: char)
    ensures
        first_index(s, c) <= s.len(),
        first_index(s, c) < s.len() ==> s[first_index(s, c) as int] == c,
        forall|i: int| 0 <= i < first_index(s, c) ==> #[trigger] s[i] != c,
    decreases s.len(),
{
    if s.len() > 0 && s[0] != c {
        lemma_first_index(s.skip(1), c);
        assert forall|i: int| 0 <= i < first_index(s, c) implies #[trigger] s[i] != c by {
            if i > 0 {
                assert(s[i] == s.skip(1)[i - 1]);
            }
        }
    }
}

/// Scans forward from `from` to the first `c` or the end.
pub fn scan_char(v: &Vec<char>, from: usize, c: char) -> (to: usize)
    requires
        from <= v.len(),
    ensures
        to == from + first_index(v@.skip(from as int), c),
        from <= to <= v.len(),
{
    let mut i: usize = from;
    while i < v.len() && v[i] != c
        invariant
            from <= i <= v.len(),
            first_index(v@.skip(from as int), c) == (i - from) + first_index(v@.skip(i as int), c),
        decreases v.len() - i,
    {
        assert(v@.skip(i as int).skip(1) =~= v@.skip(i + 1));
        i += 1;
    }
    i
}

/// `s` without one carriage return at its end.
pub open spec fn strip_cr(s: Seq<char>) -> Seq<char> {
    if s.len() > 0 && s.last() == '\r' {
        s.drop_last()
    } else {
        s
    }
}

/// The lines of `s`: what stands between line feeds, a carriage return before
/// a line feed taken off, and nothing after a last line feed.
pub open spec fn lines(s: Seq<char>) -> Seq<Seq<char>>
    decreases s.len(),
{
    if s.len() == 0 {
        Seq::empty()
    } else {
        let i = first_index(s, '\n') as int;
        if i >= s.len() {
            seq![s]
        } else {
            seq![strip_cr(s.take(i))] + lines(s.skip(i + 1))
        }
    }
}

/// The lines of `s`.
pub fn lines_of(s: &str) -> (r: Vec<String>)
    ensures
        texts(r@) == lines(s@),
{
    let v = chars_of(s);
    let mut r: Vec<String> = Vec::new();
    let mut i: usize = 0;
    assert(s@.skip(0) =~= s@);
    assert(texts(r@) + lines(s@) =~= lines(s@));
    while i < v.len()
        invariant
            i <= v.len(),
            v@ == s@,
            texts(r@) + lines(s@.skip(i as int)) == lines(s@),
        decreases v.len() - i,
    {
        let ghost rest = s@.skip(i as int);
        let ghost before = r@;
        let j = scan_char(&v, i, '\n');
        proof {
            lemma_first_index(rest, '\n');
        }
        if j == v.len() {
            let w = string_of_range(&v, i, j);
            r.push(w);
            proof {
                assert(w@ =~= rest);
                assert(lines(rest) == seq![rest]);
                assert(texts(r@) =~= texts(before) + seq![rest]);
                assert(s@.skip(j as int) =~= Seq::empty());
                assert(texts(r@) + lines(s@.skip(j as int)) =~= texts(r@));
            }
            i = j;
        } else {
            let end: usize = if j > i && v[j - 1] == '\r' {
                j - 1
            } else {
                j
            };
            let w = string_of_range(&v, i, end);
            r.push(w);
            proof {
                let line = rest.take(j - i);
                assert(w@ =~= strip_cr(line));
                assert(rest.skip(j - i + 1) =~= s@.skip(j + 1));
                assert(texts(r@) =~= texts(before) + seq![w@]);
                assert(texts(r@) + lines(s@.skip(j + 1)) =~= texts(before) + lines(rest));
            }
            i = j + 1;
        }
    }
    assert(s@.skip(i as int) =~= Seq::empty());
    assert(texts(r@) + lines(s@.skip(i as int)) =~= texts(r@));
    r
}

/// `s` cut in two at its first `c`, which is dropped.
pub open spec fn split_once(s: Seq<char>, c: char) -> Option<(Seq<char>, Seq<char>)> {
    let i = first_index(s, c) as int;
    if i < s.len() {
        Some((s.take(i), s.skip(i + 1)))
    } else {
        None
    }
}

/// The two sides of the first `c` in `s`.
pub fn split_once_at(s: &str, c: char) -> (r: Option<(String, String)>)
    ensures
        match r {
            Some((a, b)) => split_once(s@, c) == Some((a@, b@)),
            None => split_once(s@, c) is None,
        },
{
    let v = chars_of(s);
    assert(s@.skip(0) =~= s@);
    let i = scan_char(&v, 0, c);
    if i < v.len() {
        let a = string_of_range(&v, 0, i);
        let b = string_of_range(&v, i + 1, v.len());
        assert(a@ =~= s@.take(i as int));
        assert(b@ =~= s@.skip(i + 1));
        Some((a, b))
    } else {
        None
    }
}

/// `s` cut in two at its first white space, which is dropped; the whole of `s`
/// and nothing where it has none.
pub open spec fn first_word(s: Seq<char>) -> (Seq<char>, Seq<char>) {
    let i = word_len(s) as int;
    if i < s.len() {
        (s.take(i), s.skip(i + 1))
    } else {
        (s, Seq::empty())
    }
}

/// The two sides of the first white space in `s`.
pub fn split_first_word(s: &str) -> (r: (String, String))
    ensures
        (r.0@, r.1@) == first_word(s@),
{
    let v = chars_of(s);
    assert(s@.skip(0) =~= s@);
    let i = scan_word(&v, 0);
    if i < v.len() {
        let a = string_of_range(&v, 0, i);
        let b = string_of_range(&v, i + 1, v.len());
        assert(a@ =~= s@.take(i as int));
        assert(b@ =~= s@.skip(i + 1));
        (a, b)
    } else {
        let a = string_of(&v);
        (a, String::new())
    }
}

// ---------------------------------------------------------------------------
// Searching
// ---------------------------------------------------------------------------

/// Whether `n` stands in `h` at position `i`.
pub open spec fn occurs_at(h: Seq<char>, n: Seq<char>, i: int) -> bool {
    0 <= i && i + n.len() <= h.len() && h.subrange(i, i + n.len()) == n
}

/// Whether `n` stands somewhere in `h`.
pub open spec fn contains(h: Seq<char>, n: Seq<char>) -> bool {
    exists|i: int| occurs_at(h, n, i)
}

/// Whether `h` begins with `n`.
pub open spec fn starts_with(h: Seq<char>, n: Seq<char>) -> bool {
    occurs_at(h, n, 0)
}

/// The first position at or after `i` at which `n` stands in `h`.
pub open spec fn find_from(h: Seq<char>, n: Seq<char>, i: int) -> Option<int>
    decreases h.len() + 1 - i,
{
    if i < 0 || i + n.len() > h.len() {
        None
    } else if occurs_at(h, n, i) {
        Some(i)
    } else {
        find_from(h, n, i + 1)
    }
}

/// The first position at which `n` stands in `h`.
pub open spec fn find(h: Seq<char>, n: Seq<char>) -> Option<int> {
    find_from(h, n, 0)
}

/// `find_from` finds an occurrence, and the first one, wherever there is one.
pub proof fn lemma_find_from(h: Seq<char>, n: Seq<char>, i: int)
    requires
        0 <= i,
    ensures
        match find_from(h, n, i) {
            Some(k) => i <= k && occurs_at(h, n, k) && forall|j: int|
                i <= j < k ==> !#[trigger] occurs_at(h, n, j),
            None => forall|j: int| i <= j ==> !#[trigger] occurs_at(h, n, j),
        },
    decreases h.len() + 1 - i,
{
    if i + n.len() <= h.len() && !occurs_at(h, n, i) {
        lemma_find_from(h, n, i + 1);
    }
}

/// A text is contained exactly where `find` finds it.
pub proof fn lemma_find_contains(h: Seq<char>, n: Seq<char>)
    ensures
        find(h, n) is Some <==> contains(h, n),
{
    lemma_find_from(h, n, 0);
}

/// Whether `n` stands in `h` at position `i`.
pub fn matches_at(h: &Vec<char>, n: &Vec<char>, i: usize) -> (r: bool)
    ensures
        r == occurs_at(h@, n@, i as int),
{
    if i > h.len() || n.len() > h.len() - i {
        return false;
    }
    let mut k: usize = 0;
    while k < n.len()
        invariant
            k <= n.len(),
            i + n.len() <= h.len(),
            forall|m: int| 0 <= m < k ==> h@[i + m] == #[trigger] n@[m],
        decreases n.len() - k,
    {
        if h[i + k] != n[k] {
            assert(h@.subrange(i as int, i + n@.len())[k as int] != n@[k as int]);
            return false;
        }
        k += 1;
    }
    assert(h@.subrange(i as int, i + n@.len()) =~= n@);
    true
}

/// Scans for `n` in `h` from `from` on.
pub fn find_at(h: &Vec<char>, n: &Vec<char>, from: usize) -> (r: Option<usize>)
    requires
        from <= h.len(),
    ensures
        match r {
            Some(k) => find_from(h@, n@, from as int) == Some(k as int) && k + n.len() <= h.len()
                && from <= k,
            None => find_from(h@, n@, from as int) is None,
        },
{
    let mut i: usize = from;
    while i <= h.len() && n.len() <= h.len() - i
        invariant
            from <= i <= h.len() + 1,
            find_from(h@, n@, from as int) == find_from(h@, n@, i as int),
        decreases h.len() + 1 - i,
    {
        if matches_at(h, n, i) {
            return Some(i);
        }
        if i == h.len() {
            assert(find_from(h@, n@, i + 1) is None);
            return None;
        }
        i += 1;
    }
    None
}

/// Whether `n` stands somewhere in `h`.
pub fn has(h: &str, n: &str) -> (r: bool)
    ensures
        r == contains(h@, n@),
{
    let hv = chars_of(h);
    let nv = chars_of(n);
    proof {
        lemma_find_contains(h@, n@);
    }
    find_at(&hv, &nv, 0).is_some()
}

/// Whether `h` begins with `n`.
pub fn begins_with(h: &str, n: &str) -> (r: bool)
    ensures
        r == starts_with(h@, n@),
{
    let hv = chars_of(h);
    let nv = chars_of(n);
    matches_at(&hv, &nv, 0)
}

/// What follows `n` at the head of `h`.
pub open spec fn strip_prefix(h: Seq<char>, n: Seq<char>) -> Option<Seq<char>> {
    if starts_with(h, n) {
        Some(h.skip(n.len() as int))
    } else {
        None
    }
}

/// What follows `n` at the head of `h`.
pub fn without_prefix(h: &str, n: &str) -> (r: Option<String>)
    ensures
        opt_text(r) == strip_prefix(h@, n@),
{
    let hv = chars_of(h);
    let nv = chars_of(n);
    if matches_at(&hv, &nv, 0) {
        let s = string_of_range(&hv, nv.len(), hv.len());
        assert(s@ =~= h@.skip(n@.len() as int));
        Some(s)
    } else {
        None
    }
}

/// Searching a text from `i` on is searching what follows its first `i`
/// characters.
pub proof fn lemma_find_skip(h: Seq<char>, n: Seq<char>, i: int, j: int)
    requires
        0 <= i <= j,
        i <= h.len(),
    ensures
        find_from(h, n, j) == match find_from(h.skip(i), n, j - i) {
            Some(k) => Some(k + i),
            None => None,
        },
    decreases h.len() + 1 - j,
{
    if j + n.len() <= h.len() {
        assert(h.subrange(j, j + n.len()) =~= h.skip(i).subrange(j - i, j - i + n.len()));
        if !occurs_at(h, n, j) {
            lemma_find_skip(h, n, i, j + 1);
        }
    }
}

// ---------------------------------------------------------------------------
// Joining
// ---------------------------------------------------------------------------

/// The parts, with `sep` between each two neighbours.
pub open spec fn join(parts: Seq<Seq<char>>, sep: Seq<char>) -> Seq<char>
    decreases parts.len(),
{
    if parts.len() == 0 {
        Seq::empty()
    } else if parts.len() == 1 {
        parts[0]
    } else {
        join(parts.drop_last(), sep) + sep + parts.last()
    }
}

/// The parts, with `sep` between each two neighbours.
pub fn joined(parts: &Vec<String>, sep: &str) -> (r: String)
    ensures
        r@ == join(texts(parts@), sep@),
{
    let mut out = String::new();
    let mut i: usize = 0;
    while i < parts.len()
        invariant
            i <= parts.len(),
            out@ == join(texts(parts@).take(i as int), sep@),
        decreases parts.len() - i,
    {
        let ghost all = texts(parts@);
        proof {
            assert(all.take(i + 1).drop_last() =~= all.take(i as int));
        }
        if i > 0 {
            out.append(sep);
        }
        let ghost mid = out@;
        out.append(parts[i].as_str());
        proof {
            if i == 0 {
                assert(out@ =~= all[0]);
            }
        }
        i += 1;
    }
    assert(texts(parts@).take(parts@.len() as int) =~= texts(parts@));
    out
}

// ---------------------------------------------------------------------------
// Numbers
// ---------------------------------------------------------------------------

/// The decimal digit of a number below ten.
pub open spec fn digit(d: int) -> char {
    if d == 0 {
        '0'
    } else if d == 1 {
        '1'
    } else if d == 2 {
        '2'
    } else if d == 3 {
        '3'
    } else if d == 4 {
        '4'
    } else if d == 5 {
        '5'
    } else if d == 6 {
        '6'
    } else if d == 7 {
        '7'
    } else if d == 8 {
        '8'
    } else {
        '9'
    }
}

/// A natural number in decimal.
pub open spec fn decimal(n: nat) -> Seq<char>
    decreases n,
{
    if n < 10 {
        seq![digit(n as int)]
    } else {
        decimal(n / 10).push(digit((n % 10) as int))
    }
}

/// An integer in decimal, with a sign where it is negative.
pub open spec fn decimal_int(n: int) -> Seq<char> {
    if n < 0 {
        "-"@ + decimal((-n) as nat)
    } else {
        decimal(n as nat)
    }
}

/// `n` in decimal.
pub fn decimal_of(n: u128) -> (r: String)
    ensures
        r@ == decimal(n as nat),
    decreases n,
{
    let d: u128 = n % 10;
    let c: char = if d == 0 {
        '0'
    } else if d == 1 {
        '1'
    } else if d == 2 {
        '2'
    } else if d == 3 {
        '3'
    } else if d == 4 {
        '4'
    } else if d == 5 {
        '5'
    } else if d == 6 {
        '6'
    } else if d == 7 {
        '7'
    } else if d == 8 {
        '8'
    } else {
        '9'
    };
    let mut r = if n < 10 {
        String::new()
    } else {
        decimal_of(n / 10)
    };
    r.push(c);
    assert(n < 10 ==> r@ =~= seq![digit(n as int)]);
    r
}

/// `n` in decimal, with a sign where it is negative.
pub fn decimal_of_i32(n: i32) -> (r: String)
    ensures
        r@ == decimal_int(n as int),
{
    let wide: i64 = n as i64;
    if wide < 0 {
        let mut r = "-".to_owned();
        let d = decimal_of((-wide) as u128);
        r.append(d.as_str());
        r
    } else {
        decimal_of(wide as u128)
    }
}

/// The number a digit stands for.
pub open spec fn digit_value(c: char) -> nat {
    (c as u32 - '0' as u32) as nat
}

/// The number that a run of digits writes in decimal.
pub open spec fn digits_value(s: Seq<char>) -> nat
    decreases s.len(),
{
    if s.len() == 0 {
        0
    } else {
        10 * digits_value(s.drop_last()) + digit_value(s.last())
    }
}

/// Whether every character of `s` is a digit.
pub open spec fn all_digits(s: Seq<char>) -> bool {
    forall|i: int| 0 <= i < s.len() ==> ascii_digit(#[trigger] s[i])
}

/// A number in decimal is a run of digits, and is read back as itself.
pub proof fn lemma_decimal(n: nat)
    ensures
        decimal(n).len() > 0,
        all_digits(decimal(n)),
        digits_value(decimal(n)) == n,
    decreases n,
{
    reveal_with_fuel(digits_value, 2);
    if n >= 10 {
        lemma_decimal(n / 10);
        assert(decimal(n).drop_last() =~= decimal(n / 10));
    } else {
        assert(decimal(n).drop_last() =~= Seq::<char>::empty());
    }
}

/// More digits write no smaller a number.
pub proof fn lemma_digits_value_grows(s: Seq<char>, n: int)
    requires
        0 <= n <= s.len(),
    ensures
        digits_value(s.take(n)) <= digits_value(s),
    decreases s.len() - n,
{
    if n < s.len() {
        lemma_digits_value_grows(s, n + 1);
        assert(s.take(n + 1).drop_last() =~= s.take(n));
    } else {
        assert(s.take(n) =~= s);
    }
}

/// The unsigned 32-bit number that `s` writes: digits alone, with one plus
/// sign before them or none.
pub open spec fn parse_u32(s: Seq<char>) -> Option<u32> {
    let t = if s.len() > 0 && s[0] == '+' {
        s.skip(1)
    } else {
        s
    };
    if t.len() > 0 && all_digits(t) && digits_value(t) <= u32::MAX {
        Some(digits_value(t) as u32)
    } else {
        None
    }
}

/// The unsigned 32-bit number that `s` writes.
pub fn parsed_u32(s: &str) -> (r: Option<u32>)
    ensures
        r == parse_u32(s@),
{
    let v = chars_of(s);
    let from: usize = if v.len() > 0 && v[0] == '+' {
        1
    } else {
        0
    };
    let ghost t = if s@.len() > 0 && s@[0] == '+' {
        s@.skip(1)
    } else {
        s@
    };
    assert(t =~= s@.skip(from as int));
    if from == v.len() {
        return None;
    }
    let mut i: usize = from;
    let mut n: u64 = 0;
    while i < v.len()
        invariant
            from <= i <= v.len(),
            v@ == s@,
            t == s@.skip(from as int),
            t == (if s@.len() > 0 && s@[0] == '+' {
                s@.skip(1)
            } else {
                s@
            }),
            n == digits_value(t.take(i - from)),
            n <= u32::MAX,
            all_digits(t.take(i - from)),
        decreases v.len() - i,
    {
        let c = v[i];
        assert(t[i - from] == c);
        if !is_digit(c) {
            return None;
        }
        let ghost next = t.take(i - from + 1);
        proof {
            assert(next.drop_last() =~= t.take(i - from));
            assert forall|k: int| 0 <= k < next.len() implies ascii_digit(#[trigger] next[k]) by {
                if k < i - from {
                    assert(next[k] == t.take(i - from)[k]);
                }
            }
        }
        n = n * 10 + (c as u32 - '0' as u32) as u64;
        if n > u32::MAX as u64 {
            proof {
                lemma_digits_value_grows(t, i - from + 1);
            }
            return None;
        }
        i += 1;
    }
    assert(t.take(t.len() as int) =~= t);
    Some(n as u32)
}

// ---------------------------------------------------------------------------
// Byte lengths
// ---------------------------------------------------------------------------

/// How many bytes UTF-8 spends on `c`.
pub open spec fn char_width(c: char) -> nat {
    let u = c as u32;
    if u < 0x80 {
        1
    } else if u < 0x800 {
        2
    } else if u < 0x10000 {
        3
    } else {
        4
    }
}

/// How many bytes UTF-8 spends on `s`.
pub open spec fn byte_len(s: Seq<char>) -> nat
    decreases s.len(),
{
    if s.len() == 0 {
        0
    } else {
        byte_len(s.drop_last()) + char_width(s.last())
    }
}

/// How many bytes UTF-8 spends on `c`.
pub fn width_of(c: char) -> (r: usize)
    ensures
        r == char_width(c),
{
    let u: u32 = c as u32;
    if u < 0x80 {
        1
    } else if u < 0x800 {
        2
    } else if u < 0x10000 {
        3
    } else {
        4
    }
}

/// How many bytes UTF-8 spends on `s`.
pub fn byte_len_of(s: &str) -> (r: u128)
    ensures
        r == byte_len(s@),
        r <= 4 * s@.len(),
        s@.len() <= usize::MAX,
{
    let v = chars_of(s);
    let mut n: u128 = 0;
    let mut i: usize = 0;
    while i < v.len()
        invariant
            i <= v.len(),
            v@ == s@,
            n == byte_len(s@.take(i as int)),
            n <= 4 * i,
        decreases v.len() - i,
    {
        n += width_of(v[i]) as u128;
        i += 1;
        assert(s@.take(i as int).drop_last() =~= s@.take(i - 1));
    }
    assert(s@.take(s@.len() as int) =~= s@);
    n
}

// ---------------------------------------------------------------------------
// Order
// ---------------------------------------------------------------------------

/// Whether `a` comes before `b` in the order of their characters.
pub open spec fn before(a: Seq<char>, b: Seq<char>) -> bool
    decreases a.len(),
{
    if b.len() == 0 {
        false
    } else if a.len() == 0 {
        true
    } else if a[0] == b[0] {
        before(a.skip(1), b.skip(1))
    } else {
        a[0] < b[0]
    }
}

/// Whether `a` comes before `b`.
pub fn comes_before(a: &str, b: &str) -> (r: bool)
    ensures
        r == before(a@, b@),
{
    let x = chars_of(a);
    let y = chars_of(b);
    let mut i: usize = 0;
    assert(a@.skip(0) =~= a@);
    assert(b@.skip(0) =~= b@);
    while i < x.len() && i < y.len() && x[i] == y[i]
        invariant
            i <= x.len(),
            i <= y.len(),
            x@ == a@,
            y@ == b@,
            before(a@, b@) == before(a@.skip(i as int), b@.skip(i as int)),
        decreases x.len() - i,
    {
        assert(a@.skip(i as int).skip(1) =~= a@.skip(i + 1));
        assert(b@.skip(i as int).skip(1) =~= b@.skip(i + 1));
        i += 1;
    }
    if i == y.len() {
        false
    } else if i == x.len() {
        true
    } else {
        x[i] < y[i]
    }
}

/// Of two different texts one comes before the other.
pub proof fn lemma_before_total(a: Seq<char>, b: Seq<char>)
    ensures
        a == b || before(a, b) || before(b, a),
        !(before(a, b) && before(b, a)),
        !before(a, a),
    decreases a.len(),
{
    if a.len() > 0 && b.len() > 0 && a[0] == b[0] {
        lemma_before_total(a.skip(1), b.skip(1));
        assert(a =~= seq![a[0]] + a.skip(1));
        assert(b =~= seq![b[0]] + b.skip(1));
    } else if a.len() == 0 && b.len() == 0 {
        assert(a =~= b);
    }
    if a.len() > 0 {
        lemma_before_irreflexive(a);
    }
}

/// No text comes before itself.
pub proof fn lemma_before_irreflexive(a: Seq<char>)
    ensures
        !before(a, a),
    decreases a.len(),
{
    if a.len() > 0 {
        lemma_before_irreflexive(a.skip(1));
    }
}

/// Coming before is transitive.
pub proof fn lemma_before_transitive(a: Seq<char>, b: Seq<char>, c: Seq<char>)
    requires
        before(a, b),
        before(b, c),
    ensures
        before(a, c),
    decreases a.len(),
{
    if a.len() > 0 && a[0] == b[0] && b[0] == c[0] {
        lemma_before_transitive(a.skip(1), b.skip(1), c.skip(1));
    }
}

/// Whether each text comes before the next.
pub open spec fn ascending(v: Seq<Seq<char>>) -> bool {
    forall|i: int, j: int| 0 <= i < j < v.len() ==> before(#[trigger] v[i], #[trigger] v[j])
}

/// Whether a text is among some texts.
pub fn listed(names: &Vec<String>, name: &str) -> (r: bool)
    ensures
        r == texts(names@).contains(name@),
{
    let ghost all = texts(names@);
    let mut i: usize = 0;
    while i < names.len()
        invariant
            i <= names.len(),
            all == texts(names@),
            forall|j: int| 0 <= j < i ==> #[trigger] all[j] != name@,
        decreases names.len() - i,
    {
        assert(all[i as int] == names@[i as int]@);
        if text_eq(names[i].as_str(), name) {
            assert(all.contains(name@));
            return true;
        }
        i += 1;
    }
    false
}

/// The same texts, each once, in order.
pub fn sorted_distinct(v: &Vec<String>) -> (r: Vec<String>)
    ensures
        ascending(texts(r@)),
        forall|t: Seq<char>| texts(r@).contains(t) == texts(v@).contains(t),
{
    let mut r: Vec<String> = Vec::new();
    let mut i: usize = 0;
    assert forall|t: Seq<char>| texts(r@).contains(t) == texts(v@).take(0).contains(t) by {}
    while i < v.len()
        invariant
            i <= v.len(),
            ascending(texts(r@)),
            forall|t: Seq<char>| texts(r@).contains(t) == texts(v@).take(i as int).contains(t),
        decreases v.len() - i,
    {
        let ghost done = texts(v@).take(i as int);
        let ghost next = texts(v@).take(i + 1);
        let ghost x = v@[i as int]@;
        let ghost old_r = texts(r@);
        assert(next =~= done.push(x));
        let mut k: usize = 0;
        while k < r.len() && comes_before(r[k].as_str(), v[i].as_str())
            invariant
                k <= r.len(),
                i < v.len(),
                x == v@[i as int]@,
                old_r == texts(r@),
                forall|j: int| 0 <= j < k ==> before(#[trigger] old_r[j], x),
            decreases r.len() - k,
        {
            assert(old_r[k as int] == r@[k as int]@);
            k += 1;
        }
        if k < r.len() && text_eq(r[k].as_str(), v[i].as_str()) {
            proof {
                assert(old_r[k as int] == x);
                assert forall|t: Seq<char>| old_r.contains(t) == next.contains(t) by {
                    lemma_push_contains(done, x, t);
                }
            }
        } else {
            let s = v[i].clone();
            r.insert(k, s);
            proof {
                let now = texts(r@);
                assert(now =~= old_r.insert(k as int, x));
                if k < old_r.len() {
                    lemma_before_total(old_r[k as int], x);
                }
                assert forall|a: int, b: int| 0 <= a < b < now.len() implies before(
                    #[trigger] now[a],
                    #[trigger] now[b],
                ) by {
                    if b < k {
                        assert(now[a] == old_r[a] && now[b] == old_r[b]);
                    } else if b == k {
                        assert(now[a] == old_r[a]);
                    } else if a < k {
                        assert(now[a] == old_r[a] && now[b] == old_r[b - 1]);
                    } else if a == k {
                        assert(now[b] == old_r[b - 1]);
                        if b - 1 > k {
                            lemma_before_transitive(x, old_r[k as int], old_r[b - 1]);
                        }
                    } else {
                        assert(now[a] == old_r[a - 1] && now[b] == old_r[b - 1]);
                    }
                }
                assert forall|t: Seq<char>| now.contains(t) == next.contains(t) by {
                    lemma_push_contains(done, x, t);
                    if old_r.contains(t) {
                        let p = old_r.index_of(t);
                        if p < k {
                            assert(now[p] == t);
                        } else {
                            assert(now[p + 1] == t);
                        }
                    }
                    if t == x {
                        assert(now[k as int] == t);
                    }
                    if now.contains(t) {
                        let p = now.index_of(t);
                        if p < k {
                            assert(old_r[p] == t);
                        } else if p > k {
                            assert(old_r[p - 1] == t);
                        }
                    }
                }
            }
        }
        i += 1;
    }
    assert(texts(v@).take(v@.len() as int) =~= texts(v@));
    r
}

pub proof fn lemma_push_contains(s: Seq<Seq<char>>, x: Seq<char>, t: Seq<char>)
    ensures
        s.push(x).contains(t) == (s.contains(t) || t == x),
{
    if s.contains(t) {
        let i = s.index_of(t);
        assert(s.push(x)[i] == t);
    }
    if t == x {
        assert(s.push(x)[s.len() as int] == t);
    }
    if s.push(x).contains(t) {
        let i = s.push(x).index_of(t);
        if i < s.len() {
            assert(s[i] == t);
        }
    }
}

// ---------------------------------------------------------------------------
// Quoting
// ---------------------------------------------------------------------------

/// The quoted and escaped form that `{:?}` gives a text.
pub uninterp spec fn debug_text(s: Seq<char>) -> Seq<char>;

/// Formats `s` with `{:?}`: in quotes, with what needs it escaped. The escapes
/// are a fixed table, which is only named here.
#[verifier::external_body]
pub(crate) fn debug_of(s: &str) -> (r: String)
    ensures
        r@ == debug_text(s@),
{
    format!("{:?}", s)
}

// ---------------------------------------------------------------------------
// Paths
// ---------------------------------------------------------------------------

/// A file's name without `ending`, where it has it and something before it.
pub open spec fn strip_ending(name: Seq<char>, ending: Seq<char>) -> Option<Seq<char>> {
    if name.len() > ending.len() && occurs_at(name, ending, name.len() - ending.len()) {
        Some(name.take(name.len() - ending.len()))
    } else {
        None
    }
}

/// A file's name without `ending`, where it has it and something before it.
pub fn without_ending(name: &str, ending: &str) -> (r: Option<String>)
    ensures
        opt_text(r) == strip_ending(name@, ending@),
{
    let v = chars_of(name);
    let e = chars_of(ending);
    if v.len() <= e.len() {
        return None;
    }
    let at: usize = v.len() - e.len();
    if matches_at(&v, &e, at) {
        let s = string_of_range(&v, 0, at);
        assert(s@ =~= name@.take(at as int));
        Some(s)
    } else {
        None
    }
}

/// `rel` resolved against the directory `base`.
pub open spec fn join_path(base: Seq<char>, rel: Seq<char>) -> Seq<char> {
    if rel.len() > 0 && rel[0] == '/' {
        rel
    } else if base.len() > 0 && base.last() != '/' {
        base + "/"@ + rel
    } else {
        base + rel
    }
}

/// `rel` resolved against the directory `base`.
pub fn path_join(base: &str, rel: &str) -> (r: String)
    ensures
        r@ == join_path(base@, rel@),
{
    let b = chars_of(base);
    let l = chars_of(rel);
    if l.len() > 0 && l[0] == '/' {
        return rel.to_owned();
    }
    let mut r = base.to_owned();
    if b.len() > 0 && b[b.len() - 1] != '/' {
        r.append("/");
    }
    r.append(rel);
    r
}

// ---------------------------------------------------------------------------
// Laws
// ---------------------------------------------------------------------------

/// Trimming the front takes off white space, all of it, and nothing else.
pub proof fn law_front_trimming_cuts_white_alone(s: Seq<char>)
    ensures
        exists|i: int|
            0 <= i <= s.len() && #[trigger] s.skip(i) == trim_start(s) && (forall|k: int|
                0 <= k < i ==> white(#[trigger] s[k])) && (i < s.len() ==> !white(s[i])),
    decreases s.len(),
{
    if s.len() > 0 && white(s[0]) {
        let t = s.skip(1);
        law_front_trimming_cuts_white_alone(t);
        let j = choose|j: int|
            0 <= j <= t.len() && #[trigger] t.skip(j) == trim_start(t) && (forall|k: int|
                0 <= k < j ==> white(#[trigger] t[k])) && (j < t.len() ==> !white(t[j]));
        let i = j + 1;
        assert(s.skip(i) =~= t.skip(j));
        assert forall|k: int| 0 <= k < i implies white(#[trigger] s[k]) by {
            if k > 0 {
                assert(s[k] == t[k - 1]);
            }
        }
        if i < s.len() {
            assert(s[i] == t[j]);
        }
    } else {
        assert(s.skip(0) =~= s);
    }
}

/// Trimming the back takes off white space, all of it, and nothing else.
pub proof fn law_back_trimming_cuts_white_alone(s: Seq<char>)
    ensures
        exists|j: int|
            0 <= j <= s.len() && #[trigger] s.take(j) == trim_end(s) && (forall|k: int|
                j <= k < s.len() ==> white(#[trigger] s[k])) && (j > 0 ==> !white(s[j - 1])),
    decreases s.len(),
{
    if s.len() > 0 && white(s.last()) {
        let t = s.drop_last();
        law_back_trimming_cuts_white_alone(t);
        let j = choose|j: int|
            0 <= j <= t.len() && #[trigger] t.take(j) == trim_end(t) && (forall|k: int|
                j <= k < t.len() ==> white(#[trigger] t[k])) && (j > 0 ==> !white(t[j - 1]));
        assert(s.take(j) =~= t.take(j));
        assert forall|k: int| j <= k < s.len() implies white(#[trigger] s[k]) by {
            if k < t.len() {
                assert(s[k] == t[k]);
            }
        }
        if j > 0 {
            assert(s[j - 1] == t[j - 1]);
        }
    } else {
        assert(s.take(s.len() as int) =~= s);
    }
}

/// Trimming takes white space off both ends, all of it, and nothing else: a text
/// that neither begins nor ends with white space comes out of any white space
/// around it as it is.
pub proof fn law_trimming_keeps_what_is_between(a: Seq<char>, s: Seq<char>, b: Seq<char>)
    requires
        forall|k: int| 0 <= k < a.len() ==> white(#[trigger] a[k]),
        forall|k: int| 0 <= k < b.len() ==> white(#[trigger] b[k]),
        s.len() > 0 ==> !white(s[0]) && !white(s.last()),
    ensures
        trim(a + s + b) == s,
{
    let t = a + s + b;
    law_front_trimming_cuts_white_alone(t);
    let i = choose|i: int|
        0 <= i <= t.len() && #[trigger] t.skip(i) == trim_start(t) && (forall|k: int|
            0 <= k < i ==> white(#[trigger] t[k])) && (i < t.len() ==> !white(t[i]));
    let u = trim_start(t);
    law_back_trimming_cuts_white_alone(u);
    let j = choose|j: int|
        0 <= j <= u.len() && #[trigger] u.take(j) == trim_end(u) && (forall|k: int|
            j <= k < u.len() ==> white(#[trigger] u[k])) && (j > 0 ==> !white(u[j - 1]));
    if s.len() == 0 {
        assert forall|k: int| 0 <= k < t.len() implies white(#[trigger] t[k]) by {
            if k < a.len() {
                assert(t[k] == a[k]);
            } else {
                assert(t[k] == b[k - a.len()]);
            }
        }
        assert(i == t.len());
        assert(u.take(j) =~= s);
    } else {
        let n = a.len() as int;
        assert(t[n] == s[0]);
        if i < n {
            assert(t[i] == a[i]);
        }
        assert(i == n);
        assert(u =~= s + b);
        let m = s.len() as int;
        assert(u[m - 1] == s.last());
        if j > m {
            assert(u[j - 1] == b[j - 1 - m]);
        }
        if j < m {
            assert(white(u[m - 1]));
        }
        assert(u.take(m) =~= s);
    }
}

/// A text is cut at the first separator: what stands before it holds none, and
/// all that follows is kept, whatever separators it holds.
pub proof fn law_splitting_is_at_the_first(a: Seq<char>, c: char, b: Seq<char>)
    requires
        !a.contains(c),
    ensures
        split_once(a + seq![c] + b, c) == Some((a, b)),
        split_once(a, c) is None,
{
    let s = a + seq![c] + b;
    lemma_first_index(s, c);
    let i = first_index(s, c) as int;
    let n = a.len() as int;
    assert(s[n] == c);
    if i < n {
        assert(s[i] == a[i]);
        assert(a.contains(a[i]));
    }
    assert(s.take(n) =~= a);
    assert(s.skip(n + 1) =~= b);
    lemma_first_index(a, c);
    let k = first_index(a, c) as int;
    if k < a.len() {
        assert(a.contains(a[k]));
    }
}

/// The first word ends at the first white space, and all behind that one
/// character is kept.
pub proof fn law_the_first_word_ends_at_white_space(a: Seq<char>, c: char, b: Seq<char>)
    requires
        forall|k: int| 0 <= k < a.len() ==> !white(#[trigger] a[k]),
        white(c),
    ensures
        first_word(a + seq![c] + b) == (a, b),
        first_word(a) == (a, Seq::<char>::empty()),
{
    let s = a + seq![c] + b;
    lemma_word_len(s);
    let i = word_len(s) as int;
    let n = a.len() as int;
    assert(s[n] == c);
    if i < n {
        assert(s[i] == a[i]);
    }
    assert(s.take(n) =~= a);
    assert(s.skip(n + 1) =~= b);
    lemma_word_len(a);
}

/// A run of characters without white space is one word.
pub proof fn law_a_run_is_a_word(w: Seq<char>)
    requires
        w.len() > 0,
        forall|k: int| 0 <= k < w.len() ==> !white(#[trigger] w[k]),
    ensures
        words(w) == seq![w],
        words(Seq::<char>::empty()) == Seq::<Seq<char>>::empty(),
{
    lemma_word_len(w);
    assert(!white(w[0]));
    let rest = w.skip(w.len() as int);
    assert(rest.len() == 0);
    assert(words(rest) =~= Seq::empty());
    assert(w.take(w.len() as int) =~= w);
    assert(words(w) =~= seq![w]);
}

/// White space parts words, and nothing else does: the words of two texts with
/// white space between them are those of the one and then those of the other.
pub proof fn law_white_space_parts_words(a: Seq<char>, c: char, b: Seq<char>)
    requires
        white(c),
    ensures
        words(a + seq![c] + b) == words(a) + words(b),
    decreases a.len(),
{
    let s = a + seq![c] + b;
    if a.len() == 0 {
        assert(s.skip(1) =~= b);
        assert(words(a) + words(b) =~= words(b));
    } else if white(a[0]) {
        assert(s.skip(1) =~= a.skip(1) + seq![c] + b);
        law_white_space_parts_words(a.skip(1), c, b);
    } else {
        lemma_word_len(a);
        lemma_word_len(s);
        let n = word_len(a) as int;
        let m = word_len(s) as int;
        if m < n {
            assert(s[m] == a[m]);
        }
        if m > n {
            if n < a.len() {
                assert(s[n] == a[n]);
            } else {
                assert(s[n] == c);
            }
        }
        assert(n > 0);
        assert(s.take(n) =~= a.take(n));
        if n < a.len() {
            assert(s.skip(n) =~= a.skip(n) + seq![c] + b);
            law_white_space_parts_words(a.skip(n), c, b);
            assert(words(s) =~= words(a) + words(b));
        } else {
            assert(s.skip(n) =~= seq![c] + b);
            assert((seq![c] + b).skip(1) =~= b);
            assert((seq![c] + b)[0] == c);
            assert(words(seq![c] + b) == words(b));
            assert(a.skip(n).len() == 0);
            assert(words(a.skip(n)) =~= Seq::empty());
            assert(words(s) =~= words(a) + words(b));
        }
    }
}

/// A line feed ends a line, with a carriage return before it taken off; what
/// follows the last line feed is a line if there is anything.
pub proof fn law_line_feeds_end_lines(line: Seq<char>, rest: Seq<char>)
    requires
        !line.contains('\n'),
    ensures
        lines(line + seq!['\n'] + rest) == seq![
            if line.len() > 0 && line.last() == '\r' {
                line.drop_last()
            } else {
                line
            },
        ] + lines(rest),
        line.len() > 0 ==> lines(line) == seq![line],
        lines(Seq::<char>::empty()) == Seq::<Seq<char>>::empty(),
{
    let s = line + seq!['\n'] + rest;
    let n = line.len() as int;
    lemma_first_index(s, '\n');
    let i = first_index(s, '\n') as int;
    assert(s[n] == '\n');
    if i < n {
        assert(s[i] == line[i]);
        assert(line.contains(line[i]));
    }
    assert(s.take(n) =~= line);
    assert(s.skip(n + 1) =~= rest);
    lemma_first_index(line, '\n');
    let k = first_index(line, '\n') as int;
    if k < line.len() {
        assert(line.contains(line[k]));
    }
}

/// Joining puts the separator between two lists that both hold something, and
/// nowhere else.
pub proof fn law_joining_parts(a: Seq<Seq<char>>, b: Seq<Seq<char>>, sep: Seq<char>)
    requires
        a.len() > 0,
        b.len() > 0,
    ensures
        join(a + b, sep) == join(a, sep) + sep + join(b, sep),
        a.len() == 1 ==> join(a, sep) == a[0],
        join(Seq::<Seq<char>>::empty(), sep) == Seq::<char>::empty(),
    decreases b.len(),
{
    let c = a + b;
    assert(c.last() == b.last());
    if b.len() == 1 {
        assert(c.drop_last() =~= a);
        assert(join(c, sep) =~= join(a, sep) + sep + join(b, sep));
    } else {
        assert(c.drop_last() =~= a + b.drop_last());
        law_joining_parts(a, b.drop_last(), sep);
        assert(join(c, sep) =~= join(a, sep) + sep + join(b, sep));
    }
}

/// Numbers are written without needless zeros, and a number that fits is read
/// back as itself, with a plus sign before it or none.
pub proof fn law_numbers_are_read_back(n: u32)
    ensures
        parse_u32(decimal(n as nat)) == Some(n),
        parse_u32(seq!['+'] + decimal(n as nat)) == Some(n),
        n > 0 ==> decimal(n as nat)[0] != '0',
        n == 0 ==> decimal(n as nat) == seq!['0'],
{
    let d = decimal(n as nat);
    lemma_decimal(n as nat);
    lemma_no_leading_zero(n as nat);
    assert(ascii_digit(d[0]));
    let s = seq!['+'] + d;
    assert(s.skip(1) =~= d);
}

proof fn lemma_no_leading_zero(n: nat)
    ensures
        decimal(n).len() > 0,
        n > 0 ==> decimal(n)[0] != '0',
        n == 0 ==> decimal(n) == seq!['0'],
    decreases n,
{
    if n >= 10 {
        lemma_no_leading_zero(n / 10);
        assert(decimal(n)[0] == decimal(n / 10)[0]);
    }
}

/// What is not a run of digits behind at most one plus sign is no number.
pub proof fn law_only_digits_are_numbers(s: Seq<char>, i: int)
    requires
        0 <= i < s.len(),
        !('0' <= s[i] <= '9'),
        i > 0 || s[0] != '+' || s.len() == 1,
    ensures
        parse_u32(s) is None,
        parse_u32(Seq::<char>::empty()) is None,
{
    if s[0] == '+' {
        if s.len() > 1 {
            assert(s.skip(1)[i - 1] == s[i]);
        }
    }
}

/// The bytes of two texts are those of the one and those of the other; a
/// character takes one byte in ASCII and never more than four.
pub proof fn law_bytes_add_up(a: Seq<char>, b: Seq<char>)
    ensures
        byte_len(a + b) == byte_len(a) + byte_len(b),
        forall|c: char|
            #[trigger] byte_len(seq![c]) == (if (c as u32) < 0x80 {
                1int
            } else if (c as u32) < 0x800 {
                2
            } else if (c as u32) < 0x10000 {
                3
            } else {
                4
            }),
    decreases b.len(),
{
    if b.len() == 0 {
        assert(a + b =~= a);
    } else {
        assert((a + b).drop_last() =~= a + b.drop_last());
        assert((a + b).last() == b.last());
        law_bytes_add_up(a, b.drop_last());
    }
    assert forall|c: char| #[trigger] byte_len(seq![c]) == char_width(c) by {
        assert(seq![c].drop_last() =~= Seq::empty());
        assert(byte_len(seq![c].drop_last()) == 0);
    }
}

/// Texts are ordered by the first character in which they differ; a text comes
/// before every longer one that begins with it.
pub proof fn law_order_goes_by_the_first_difference(
    p: Seq<char>,
    a: char,
    x: Seq<char>,
    b: char,
    y: Seq<char>,
)
    requires
        a < b,
    ensures
        before(p + seq![a] + x, p + seq![b] + y),
        before(p, p + seq![b] + y),
    decreases p.len(),
{
    let s = p + seq![a] + x;
    let t = p + seq![b] + y;
    if p.len() > 0 {
        assert(s[0] == p[0] && t[0] == p[0]);
        assert(s.skip(1) =~= p.skip(1) + seq![a] + x);
        assert(t.skip(1) =~= p.skip(1) + seq![b] + y);
        law_order_goes_by_the_first_difference(p.skip(1), a, x, b, y);
    } else {
        assert(s[0] == a && t[0] == b);
    }
}

/// Taking a prefix off gives back what stands behind it, and it comes off only
/// where it stands.
pub proof fn law_prefixes_come_off_where_they_stand(h: Seq<char>, n: Seq<char>, r: Seq<char>)
    ensures
        strip_prefix(n + r, n) == Some(r),
        strip_prefix(h, n) matches Some(t) ==> h == n + t,
{
    let s = n + r;
    assert(s.subrange(0, n.len() as int) =~= n);
    assert(occurs_at(s, n, 0));
    assert(s.skip(n.len() as int) =~= r);
    match strip_prefix(h, n) {
        Some(t) => {
            assert(h =~= n + t) by {
                assert(h.subrange(0, n.len() as int) =~= n);
                assert(h =~= h.subrange(0, n.len() as int) + h.skip(n.len() as int));
            }
        },
        None => {},
    }
}

/// Taking an ending off gives back what stands before it, and it comes off only
/// where it stands behind something.
pub proof fn law_endings_come_off_where_they_stand(name: Seq<char>, stem: Seq<char>, ending: Seq<char>)
    ensures
        stem.len() > 0 ==> strip_ending(stem + ending, ending) == Some(stem),
        strip_ending(name, ending) matches Some(t) ==> t.len() > 0 && name == t + ending,
        strip_ending(ending, ending) is None,
{
    let s = stem + ending;
    let k = stem.len() as int;
    assert(s.subrange(k, k + ending.len()) =~= ending);
    assert(s.take(k) =~= stem);
    match strip_ending(name, ending) {
        Some(t) => {
            let at = name.len() - ending.len();
            assert(name.subrange(at, name.len() as int) =~= ending);
            assert(name =~= t + ending) by {
                assert(name =~= name.take(at) + name.subrange(at, name.len() as int));
            }
        },
        None => {},
    }
}

/// A relative path goes behind the directory with one slash between them, and an
/// absolute one stands for itself.
pub proof fn law_paths_are_joined_by_one_slash(base: Seq<char>, rel: Seq<char>)
    ensures
        rel.len() > 0 && rel[0] == '/' ==> join_path(base, rel) == rel,
        !(rel.len() > 0 && rel[0] == '/') ==> {
            &&& join_path(Seq::<char>::empty(), rel) == rel
            &&& join_path(base.push('/'), rel) == base.push('/') + rel
            &&& base.len() > 0 && base.last() != '/' ==> join_path(base, rel) == base + seq!['/']
                + rel
        },
{
    reveal_strlit("/");
    assert("/"@ =~= seq!['/']);
    assert(Seq::<char>::empty() + rel =~= rel);
}

/// Lowering changes the twenty-six capital letters of ASCII to their small ones,
/// and nothing else.
pub proof fn law_lowering_changes_capitals_alone(s: Seq<char>, i: int)
    requires
        0 <= i < s.len(),
    ensures
        lower(s).len() == s.len(),
        'A' <= s[i] <= 'Z' ==> lower(s)[i] as u32 == s[i] as u32 + 32,
        !('A' <= s[i] <= 'Z') ==> lower(s)[i] == s[i],
{
}

/// Trimming one character off the end takes all of it off there, and nothing
/// else.
pub proof fn law_one_character_is_trimmed_off_the_end(s: Seq<char>, c: char)
    ensures
        exists|n: int|
            0 <= n <= s.len() && #[trigger] s.take(n) == trim_end_char(s, c) && (n > 0 ==> s[n - 1]
                != c) && forall|i: int| n <= i < s.len() ==> #[trigger] s[i] == c,
    decreases s.len(),
{
    if s.len() > 0 && s.last() == c {
        let t = s.drop_last();
        law_one_character_is_trimmed_off_the_end(t, c);
        let n = choose|n: int|
            0 <= n <= t.len() && #[trigger] t.take(n) == trim_end_char(t, c) && (n > 0 ==> t[n - 1]
                != c) && forall|i: int| n <= i < t.len() ==> #[trigger] t[i] == c;
        assert(s.take(n) =~= t.take(n));
        assert forall|i: int| n <= i < s.len() implies #[trigger] s[i] == c by {
            if i < t.len() {
                assert(s[i] == t[i]);
            }
        }
        if n > 0 {
            assert(s[n - 1] == t[n - 1]);
        }
    } else {
        assert(s.take(s.len() as int) =~= s);
    }
}

/// The white space of plain text is the blank, the tab and the other characters
/// that move to another line; no visible character of it is white space.
pub proof fn law_visible_characters_are_not_white(c: char)
    requires
        c < '\u{80}',
    ensures
        white(c) <==> (c == ' ' || '\t' <= c <= '\r'),
        ascii_alphanumeric(c) || c == '_' || c == '-' || c == ':' || c == '.' || c == '/' || c == '@'
            ==> !white(c),
{
}

/// A number is written in decimal: its last digit stands for its remainder by
/// ten and what stands before it writes the rest; a minus sign goes before what
/// is below zero.
pub proof fn law_numbers_are_written_in_decimal(n: nat, d: nat)
    requires
        d < 10,
    ensures
        n > 0 ==> decimal(10 * n + d) == decimal(n) + decimal(d),
        decimal(d) == seq![(('0' as u32) + d) as char],
        decimal_int(n as int) == decimal(n),
        n > 0 ==> decimal_int(-n) == seq!['-'] + decimal(n),
{
    if n > 0 {
        assert((10 * n + d) / 10 == n);
        assert((10 * n + d) % 10 == d as int);
        assert(decimal(10 * n + d) =~= decimal(n) + decimal(d));
        reveal_strlit("-");
        assert("-"@ =~= seq!['-']);
    }
}

/// A run of digits is read in decimal, leading zeros or none, as long as it stays
/// below two to the power of thirty-two.
pub proof fn law_digits_are_read_in_decimal(s: Seq<char>, c: char)
    requires
        forall|i: int| 0 <= i < s.len() ==> '0' <= #[trigger] s[i] <= '9',
        '0' <= c <= '9',
    ensures
        ({
            let d = c as u32 - '0' as u32;
            &&& s.len() == 0 ==> parse_u32(s.push(c)) == Some(d as u32)
            &&& s.len() > 0 ==> match parse_u32(s) {
                Some(n) => if 10 * n + d <= 0xffff_ffff {
                    parse_u32(s.push(c)) == Some((10 * n + d) as u32)
                } else {
                    parse_u32(s.push(c)) is None
                },
                None => parse_u32(s.push(c)) is None,
            }
        }),
{
    let t = s.push(c);
    assert(t.drop_last() =~= s);
    assert(t.last() == c);
    assert(forall|i: int| 0 <= i < s.len() ==> t[i] == s[i]);
    reveal_with_fuel(digits_value, 2);
    if s.len() > 0 {
        assert(t[0] == s[0]);
    }
    assert(all_digits(t)) by {
        assert forall|i: int| 0 <= i < t.len() implies ascii_digit(#[trigger] t[i]) by {
            if i < s.len() {
                assert(t[i] == s[i]);
            }
        }
    }
}

/// The lines of two texts with a line feed between them are those of the one and
/// then those of the other, however many there are.
pub proof fn law_lines_add_up(a: Seq<char>, b: Seq<char>)
    ensures
        lines(a + seq!['\n'] + b) == lines(a + seq!['\n']) + lines(b),
    decreases a.len(),
{
    let s = a + seq!['\n'] + b;
    let t = a + seq!['\n'];
    lemma_first_index(a, '\n');
    let i = first_index(a, '\n') as int;
    let head = a.take(i);
    assert(!head.contains('\n')) by {
        if head.contains('\n') {
            let k = choose|k: int| 0 <= k < head.len() && head[k] == '\n';
            assert(a[k] == '\n');
        }
    }
    if i < a.len() {
        let rest = a.skip(i + 1);
        assert(s =~= head + seq!['\n'] + (rest + seq!['\n'] + b));
        assert(t =~= head + seq!['\n'] + (rest + seq!['\n']));
        law_line_feeds_end_lines(head, rest + seq!['\n'] + b);
        law_line_feeds_end_lines(head, rest + seq!['\n']);
        law_lines_add_up(rest, b);
        assert(lines(s) =~= lines(t) + lines(b));
    } else {
        assert(head =~= a);
        assert(t =~= a + seq!['\n'] + Seq::<char>::empty());
        law_line_feeds_end_lines(a, b);
        law_line_feeds_end_lines(a, Seq::empty());
        assert(lines(s) =~= lines(t) + lines(b));
    }
}

/// Something is left of a trimmed text exactly if it holds a character that is
/// not white space.
pub proof fn law_blank_texts_trim_to_nothing(s: Seq<char>)
    ensures
        trim(s).len() > 0 <==> exists|i: int| 0 <= i < s.len() && !white(#[trigger] s[i]),
{
    law_front_trimming_cuts_white_alone(s);
    let i = choose|i: int|
        0 <= i <= s.len() && #[trigger] s.skip(i) == trim_start(s) && (forall|k: int|
            0 <= k < i ==> white(#[trigger] s[k])) && (i < s.len() ==> !white(s[i]));
    let t = trim_start(s);
    law_back_trimming_cuts_white_alone(t);
    let j = choose|j: int|
        0 <= j <= t.len() && #[trigger] t.take(j) == trim_end(t) && (forall|k: int|
            j <= k < t.len() ==> white(#[trigger] t[k])) && (j > 0 ==> !white(t[j - 1]));
    if j > 0 {
        assert(s[i + j - 1] == t[j - 1]);
    } else if i < s.len() {
        assert(t[0] == s[i]);
    }
}

/// The texts of a list are the texts of its members, one for one.
pub proof fn law_lists_keep_their_texts(v: Seq<String>, i: int)
    requires
        0 <= i < v.len(),
    ensures
        texts(v).len() == v.len(),
        texts(v)[i] == v[i]@,
        opt_text(Some(v[i])) == Some(v[i]@),
        opt_text(None) is None,
{
}

/// A text contains another exactly if it stands somewhere in it, wherever that
/// is, and begins with it exactly if it stands at the front.
pub proof fn law_containing_is_having_a_place(h: Seq<char>, a: Seq<char>, n: Seq<char>, b: Seq<char>)
    ensures
        contains(a + n + b, n),
        starts_with(n + b, n),
        contains(h, n) ==> exists|x: Seq<char>, y: Seq<char>| h == #[trigger] (x + n + y),
        starts_with(h, n) ==> exists|y: Seq<char>| h == #[trigger] (n + y),
{
    let s = a + n + b;
    let k = a.len() as int;
    assert(s.subrange(k, k + n.len()) =~= n);
    assert(occurs_at(s, n, k));
    assert((n + b).subrange(0, n.len() as int) =~= n);
    if contains(h, n) {
        let i = choose|i: int| occurs_at(h, n, i);
        let x = h.take(i);
        let y = h.skip(i + n.len());
        assert(h =~= x + h.subrange(i, i + n.len()) + y);
        assert(h == x + n + y);
    }
    if starts_with(h, n) {
        let y = h.skip(n.len() as int);
        assert(h =~= h.subrange(0, n.len() as int) + y);
        assert(h == n + y);
    }
}

/// A search finds the first place, and finds one wherever there is one.
pub proof fn law_the_first_place_is_found(h: Seq<char>, n: Seq<char>, k: int)
    requires
        0 <= k,
        k + n.len() <= h.len(),
        h.subrange(k, k + n.len()) == n,
        forall|j: int| 0 <= j < k ==> #[trigger] h.subrange(j, j + n.len()) != n,
    ensures
        find(h, n) == Some(k),
{
    lemma_find_from(h, n, 0);
    assert(occurs_at(h, n, k));
    let i = find(h, n)->0;
    if i < k {
        assert(h.subrange(i, i + n.len()) == n);
    }
}

/// In an ascending list each text stands before all that follow, so that none
/// occurs twice.
pub proof fn law_ascending_lists_hold_nothing_twice(v: Seq<Seq<char>>, i: int, j: int)
    requires
        ascending(v),
        0 <= i < j < v.len(),
    ensures
        before(v[i], v[j]),
        v[i] != v[j],
{
    lemma_before_irreflexive(v[i]);
}

} // verus!
