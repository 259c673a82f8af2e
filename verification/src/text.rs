//! Character-level text helpers shared by the graph, the parser and the tools.
use vstd::prelude::*;

verus! {

/// The characters of `s`, in order.
pub fn chars_of(s: &str) -> (r: Vec<char>)
    ensures
        r@ == s@,
{
    let mut r: Vec<char> = Vec::new();
    for c in it: s.chars()
        invariant
            r@ == it.seq().take(it.index() as int),
            it.seq() == s@,
    {
        r.push(c);
    }
    r
}

/// Builds a `String` from the characters of a slice (std's `FromIterator<char>`).
#[verifier::external_body]
pub(crate) fn string_from_chars(cs: &[char]) -> (s: String)
    ensures
        s@ == cs@,
{
    cs.iter().collect()
}

/// Appends one character to a `String` (std's `String::push`).
#[verifier::external_body]
pub(crate) fn push_char(s: &mut String, c: char)
    ensures
        final(s)@ == old(s)@.push(c),
{
    s.push(c)
}

/// Appends a string slice to a `String` (std's `String::push_str`).
#[verifier::external_body]
pub(crate) fn push_str(s: &mut String, t: &str)
    ensures
        final(s)@ == old(s)@ + t@,
{
    s.push_str(t)
}

/// A fresh `String` holding the characters of `s`.
pub fn owned(s: &str) -> (r: String)
    ensures
        r@ == s@,
{
    let mut r = String::new();
    push_str(&mut r, s);
    r
}

/// Do `a` and `b` hold the same characters?
pub fn str_eq(a: &str, b: &str) -> (r: bool)
    ensures
        r == (a@ == b@),
{
    let x = owned(a);
    let y = owned(b);
    x == y
}

/// Unicode lower-casing of a character sequence, as std's `str::to_lowercase` computes it.
pub uninterp spec fn lowercase(s: Seq<char>) -> Seq<char>;

/// std's `str::to_lowercase`: the full Unicode lower-case mapping of `s`.
/// The contract names the result `lowercase(s@)` and says nothing more of it.
#[verifier::external_body]
pub(crate) fn to_lowercase(s: &str) -> (r: String)
    ensures
        r@ == lowercase(s@),
{
    s.to_lowercase()
}

/// `needle` occurs in `hay` as a contiguous run (the empty needle occurs everywhere).
pub open spec fn seq_contains(hay: Seq<char>, needle: Seq<char>) -> bool {
    exists|i: int| 0 <= i && i + needle.len() <= hay.len() && #[trigger] hay.subrange(i, i + needle.len()) == needle
}

/// `needle` occurs in `hay` starting at position `i`.
pub open spec fn occurs_at(hay: Seq<char>, needle: Seq<char>, i: int) -> bool {
    0 <= i && i + needle.len() <= hay.len() && hay.subrange(i, i + needle.len()) == needle
}

/// Does `needle` occur in `hay` at position `i`?
fn matches_at(hay: &Vec<char>, needle: &Vec<char>, i: usize) -> (r: bool)
    requires
        i + needle@.len() <= hay@.len(),
    ensures
        r == (hay@.subrange(i as int, i + needle@.len()) == needle@),
{
    let _hl = hay.len();
    let mut k: usize = 0;
    while k < needle.len()
        invariant
            hay@.len() <= usize::MAX,
            i + needle@.len() <= hay@.len(),
            k <= needle@.len(),
            i + k <= hay@.len(),
            forall|j: int| 0 <= j < k ==> hay@[i + j] == needle@[j],
        decreases needle@.len() - k,
    {
        if hay[i + k] != needle[k] {
            assert(hay@.subrange(i as int, i + needle@.len())[k as int] != needle@[k as int]);
            return false;
        }
        k += 1;
    }
    assert(hay@.subrange(i as int, i + needle@.len()) =~= needle@);
    true
}

/// Substring search over character vectors.
pub fn vec_contains(hay: &Vec<char>, needle: &Vec<char>) -> (r: bool)
    ensures
        r == seq_contains(hay@, needle@),
{
    if needle.len() > hay.len() {
        return false;
    }
    let last = hay.len() - needle.len();
    let mut i: usize = 0;
    while i <= last
        invariant_except_break
            i <= last,
        invariant
            last == hay@.len() - needle@.len(),
            needle@.len() <= hay@.len(),
            forall|j: int| 0 <= j < i ==> #[trigger] hay@.subrange(j, j + needle@.len()) != needle@,
        ensures
            forall|j: int| 0 <= j <= last ==> #[trigger] hay@.subrange(j, j + needle@.len()) != needle@,
        decreases last + 1 - i,
    {
        if matches_at(hay, needle, i) {
            return true;
        }
        if i == last {
            break;
        }
        i += 1;
    }
    false
}

/// Case-insensitive substring test: `lowercase(hay)` contains `lowercase(needle)`.
pub open spec fn contains_ci(hay: Seq<char>, needle: Seq<char>) -> bool {
    seq_contains(lowercase(hay), lowercase(needle))
}

/// `hay.to_lowercase().contains(q)` where `q` is already lower-cased.
pub fn lower_contains(hay: &str, q: &Vec<char>) -> (r: bool)
    ensures
        r == seq_contains(lowercase(hay@), q@),
{
    let l = to_lowercase(hay);
    let lc = chars_of(l.as_str());
    vec_contains(&lc, q)
}

/// The characters of `lowercase(q)`.
pub fn lower_chars(q: &str) -> (r: Vec<char>)
    ensures
        r@ == lowercase(q@),
{
    let l = to_lowercase(q);
    chars_of(l.as_str())
}

/// ASCII letters, digits and the underscore: the characters of a C identifier.
pub open spec fn is_ident_char(c: char) -> bool {
    ('a' <= c && c <= 'z') || ('A' <= c && c <= 'Z') || ('0' <= c && c <= '9') || c == '_'
}

/// `is_ident_char` in executable form.
pub fn is_ident_byte(c: char) -> (r: bool)
    ensures
        r == is_ident_char(c),
{
    ('a' <= c && c <= 'z') || ('A' <= c && c <= 'Z') || ('0' <= c && c <= '9') || c == '_'
}

/// `word` occurs in `text` at `i` with no identifier character right before or right after it.
pub open spec fn word_at(text: Seq<char>, word: Seq<char>, i: int) -> bool {
    &&& occurs_at(text, word, i)
    &&& (i == 0 || !is_ident_char(text[i - 1]))
    &&& (i + word.len() >= text.len() || !is_ident_char(text[i + word.len()]))
}

/// `word` (non-empty) occurs in `text` as a whole word.
pub open spec fn contains_word_spec(text: Seq<char>, word: Seq<char>) -> bool {
    word.len() > 0 && exists|i: int| #[trigger] word_at(text, word, i)
}

/// Whole-word search: `word` occurs in `text` delimited by non-identifier characters.
pub fn contains_word(text: &str, word: &str) -> (r: bool)
    ensures
        r == contains_word_spec(text@, word@),
{
    let t = chars_of(text);
    let w = chars_of(word);
    let wlen = w.len();
    if wlen == 0 {
        return false;
    }
    if wlen > t.len() {
        assert forall|i: int| !word_at(t@, w@, i) by {}
        return false;
    }
    let last = t.len() - wlen;
    let mut i: usize = 0;
    while i <= last
        invariant_except_break
            i <= last,
        invariant
            t@.len() <= usize::MAX,
            t@ == text@,
            w@ == word@,
            wlen == w@.len(),
            wlen > 0,
            last == t@.len() - wlen,
            forall|j: int| 0 <= j < i ==> !#[trigger] word_at(t@, w@, j),
        ensures
            forall|j: int| 0 <= j <= last ==> !#[trigger] word_at(t@, w@, j),
        decreases last + 1 - i,
    {
        if matches_at(&t, &w, i) {
            let before_ok = i == 0 || !is_ident_byte(t[i - 1]);
            let after_ok = i + wlen >= t.len() || !is_ident_byte(t[i + wlen]);
            if before_ok && after_ok {
                assert(word_at(t@, w@, i as int));
                return true;
            }
        }
        if i == last {
            break;
        }
        i += 1;
    }
    assert forall|j: int| !word_at(t@, w@, j) by {
        if 0 <= j <= last {
        }
    }
    false
}

/// Unicode `White_Space` characters, as `char::is_whitespace` reports them.
pub open spec fn is_white_space(c: char) -> bool {
    ||| c == '\t' || c == '\n' || c == '\u{0B}' || c == '\u{0C}' || c == '\r' || c == ' '
    ||| c == '\u{85}' || c == '\u{A0}' || c == '\u{1680}'
    ||| ('\u{2000}' <= c && c <= '\u{200A}')
    ||| c == '\u{2028}' || c == '\u{2029}' || c == '\u{202F}' || c == '\u{205F}' || c == '\u{3000}'
}

/// `char::is_whitespace`.
pub fn is_whitespace(c: char) -> (r: bool)
    ensures
        r == is_white_space(c),
{
    c == '\t' || c == '\n' || c == '\u{0B}' || c == '\u{0C}' || c == '\r' || c == ' ' || c
        == '\u{85}' || c == '\u{A0}' || c == '\u{1680}' || ('\u{2000}' <= c && c <= '\u{200A}')
        || c == '\u{2028}' || c == '\u{2029}' || c == '\u{202F}' || c == '\u{205F}' || c
        == '\u{3000}'
}

/// Index of the first character of `s` that is not white space (or `s.len()`).
pub open spec fn trim_start_index(s: Seq<char>) -> int
    decreases s.len(),
{
    if s.len() == 0 {
        0
    } else if is_white_space(s[0]) {
        1 + trim_start_index(s.drop_first())
    } else {
        0
    }
}

/// Length of `s` once its trailing white space is removed.
pub open spec fn trim_end_len(s: Seq<char>) -> int
    decreases s.len(),
{
    if s.len() == 0 {
        0
    } else if is_white_space(s.last()) {
        trim_end_len(s.drop_last())
    } else {
        s.len() as int
    }
}

/// `s` without leading white space (`str::trim_start`).
pub open spec fn trim_start_spec(s: Seq<char>) -> Seq<char> {
    s.subrange(trim_start_index(s), s.len() as int)
}

/// `s` without trailing white space (`str::trim_end`).
pub open spec fn trim_end_spec(s: Seq<char>) -> Seq<char> {
    s.subrange(0, trim_end_len(s))
}

/// `s` without leading or trailing white space (`str::trim`).
pub open spec fn trim_spec(s: Seq<char>) -> Seq<char> {
    trim_end_spec(trim_start_spec(s))
}

proof fn lemma_trim_start_index(s: Seq<char>, i: int)
    requires
        0 <= i <= s.len(),
        forall|j: int| 0 <= j < i ==> is_white_space(#[trigger] s[j]),
        i == s.len() || !is_white_space(s[i]),
    ensures
        trim_start_index(s) == i,
    decreases i,
{
    if i > 0 {
        lemma_trim_start_index(s.drop_first(), i - 1);
    }
}

proof fn lemma_trim_end_len(s: Seq<char>, n: int)
    requires
        0 <= n <= s.len(),
        forall|j: int| n <= j < s.len() ==> is_white_space(#[trigger] s[j]),
        n == 0 || !is_white_space(s[n - 1]),
    ensures
        trim_end_len(s) == n,
    decreases s.len(),
{
    if s.len() > n {
        lemma_trim_end_len(s.drop_last(), n);
    }
}

/// `str::trim_start` over a character vector.
pub fn trim_start_chars(s: &Vec<char>) -> (r: Vec<char>)
    ensures
        r@ == trim_start_spec(s@),
{
    let mut a: usize = 0;
    while a < s.len() && is_whitespace(s[a])
        invariant
            a <= s@.len(),
            forall|j: int| 0 <= j < a ==> is_white_space(#[trigger] s@[j]),
        decreases s@.len() - a,
    {
        a += 1;
    }
    proof {
        lemma_trim_start_index(s@, a as int);
    }
    let mut r: Vec<char> = Vec::new();
    let mut k = a;
    while k < s.len()
        invariant
            a <= k <= s@.len(),
            r@ == s@.subrange(a as int, k as int),
        decreases s@.len() - k,
    {
        r.push(s[k]);
        k += 1;
    }
    r
}

/// `str::trim` over a character vector.
pub fn trim_chars(s: &Vec<char>) -> (r: Vec<char>)
    ensures
        r@ == trim_spec(s@),
{
    let mut a: usize = 0;
    while a < s.len() && is_whitespace(s[a])
        invariant
            a <= s@.len(),
            forall|j: int| 0 <= j < a ==> is_white_space(#[trigger] s@[j]),
        decreases s@.len() - a,
    {
        a += 1;
    }
    proof {
        lemma_trim_start_index(s@, a as int);
    }
    let mut b: usize = s.len();
    while b > a && is_whitespace(s[b - 1])
        invariant
            a <= b <= s@.len(),
            forall|j: int| b <= j < s@.len() ==> is_white_space(#[trigger] s@[j]),
        decreases b,
    {
        b -= 1;
    }
    let ghost t = trim_start_spec(s@);
    proof {
        assert forall|j: int| b - a <= j < t.len() implies is_white_space(#[trigger] t[j]) by {
            assert(t[j] == s@[a + j]);
        }
        if b > a {
            assert(t[b - a - 1] == s@[b - 1]);
        }
        lemma_trim_end_len(t, b - a);
    }
    let mut r: Vec<char> = Vec::new();
    let mut k = a;
    while k < b
        invariant
            a <= k <= b <= s@.len(),
            r@ == s@.subrange(a as int, k as int),
        decreases b - k,
    {
        r.push(s[k]);
        k += 1;
    }
    assert(r@ =~= trim_spec(s@));
    r
}

/// `str::trim`, returning an owned string.
pub fn trim(s: &str) -> (r: String)
    ensures
        r@ == trim_spec(s@),
{
    let cs = chars_of(s);
    let t = trim_chars(&cs);
    string_from_chars(t.as_slice())
}

/// The first line of `s` as `str::lines().next()` yields it (the empty sequence for an empty `s`):
/// everything before the first `'\n'`, without the `'\r'` of a `"\r\n"` ending.
pub open spec fn first_line_spec(s: Seq<char>) -> Seq<char> {
    let n = if exists|i: int| 0 <= i < s.len() && s[i] == '\n' {
        choose|i: int| 0 <= i < s.len() && s[i] == '\n' && forall|j: int| 0 <= j < i ==> s[j] != '\n'
    } else {
        s.len() as int
    };
    let line = s.subrange(0, n);
    if n < s.len() && line.len() > 0 && line.last() == '\r' {
        line.drop_last()
    } else {
        line
    }
}

/// Position of the first `'\n'` in `s`, or `s.len()`.
fn first_newline(s: &Vec<char>) -> (n: usize)
    ensures
        n <= s@.len(),
        forall|j: int| 0 <= j < n ==> s@[j] != '\n',
        n < s@.len() ==> s@[n as int] == '\n',
{
    let mut i: usize = 0;
    while i < s.len() && s[i] != '\n'
        invariant
            i <= s@.len(),
            forall|j: int| 0 <= j < i ==> s@[j] != '\n',
        decreases s@.len() - i,
    {
        i += 1;
    }
    i
}

/// `s.lines().next().unwrap_or("")` over characters.
pub fn first_line(s: &Vec<char>) -> (r: Vec<char>)
    ensures
        r@ == first_line_spec(s@),
{
    let n = first_newline(s);
    proof {
        if exists|i: int| 0 <= i < s@.len() && s@[i] == '\n' {
            let c = choose|i: int|
                0 <= i < s@.len() && s@[i] == '\n' && forall|j: int| 0 <= j < i ==> s@[j] != '\n';
            assert(n < s@.len());
            assert(c == n);
        }
    }
    let mut end = n;
    if n < s.len() && end > 0 && s[end - 1] == '\r' {
        end -= 1;
    }
    let mut r: Vec<char> = Vec::new();
    let mut k: usize = 0;
    while k < end
        invariant
            end <= s@.len(),
            k <= end,
            r@ == s@.subrange(0, k as int),
        decreases end - k,
    {
        r.push(s[k]);
        k += 1;
    }
    assert(r@ =~= first_line_spec(s@));
    r
}

/// The decimal digits of `n`, most significant first.
pub open spec fn decimal(n: nat) -> Seq<char>
    decreases n,
{
    if n < 10 {
        seq![digit_char(n)]
    } else {
        decimal(n / 10).push(digit_char(n % 10))
    }
}

/// The character of a decimal digit.
pub open spec fn digit_char(d: nat) -> char {
    if d == 0 { '0' } else if d == 1 { '1' } else if d == 2 { '2' } else if d == 3 { '3' }
    else if d == 4 { '4' } else if d == 5 { '5' } else if d == 6 { '6' } else if d == 7 { '7' }
    else if d == 8 { '8' } else { '9' }
}

fn digit(d: u64) -> (c: char)
    requires
        d < 10,
    ensures
        c == digit_char(d as nat),
{
    if d == 0 { '0' } else if d == 1 { '1' } else if d == 2 { '2' } else if d == 3 { '3' }
    else if d == 4 { '4' } else if d == 5 { '5' } else if d == 6 { '6' } else if d == 7 { '7' }
    else if d == 8 { '8' } else { '9' }
}

/// The decimal rendering of `n` (`n.to_string()`).
pub fn to_decimal(n: u64) -> (s: String)
    ensures
        s@ == decimal(n as nat),
    decreases n,
{
    if n < 10 {
        let mut s = String::new();
        push_char(&mut s, digit(n));
        assert(s@ =~= decimal(n as nat));
        s
    } else {
        let mut s = to_decimal(n / 10);
        push_char(&mut s, digit(n % 10));
        s
    }
}

/// Appends the decimal rendering of `n` to `s`.
pub fn push_decimal(s: &mut String, n: u64)
    ensures
        final(s)@ == old(s)@ + decimal(n as nat),
{
    let d = to_decimal(n);
    push_str(s, d.as_str());
}


/// The pieces of `parts` with `sep` between each two (`[String]::join`).
pub open spec fn join(parts: Seq<Seq<char>>, sep: Seq<char>) -> Seq<char>
    decreases parts.len(),
{
    if parts.len() == 0 {
        Seq::empty()
    } else if parts.len() == 1 {
        parts[0]
    } else {
        join(parts.drop_last(), sep) + sep + parts.last()
    }
}

/// `parts.join(sep)`.
pub fn join_strings(parts: &Vec<String>, sep: &str) -> (r: String)
    ensures
        r@ == join(parts.deep_view(), sep@),
{
    let ghost pv = parts.deep_view();
    let mut r = String::new();
    let mut i: usize = 0;
    while i < parts.len()
        invariant
            pv == parts.deep_view(),
            i <= pv.len(),
            r@ == join(pv.take(i as int), sep@),
        decreases pv.len() - i,
    {
        proof {
            assert(pv.take(i + 1).drop_last() =~= pv.take(i as int));
            assert(pv.take(i + 1).last() == pv[i as int]);
        }
        if i > 0 {
            push_str(&mut r, sep);
        } else {
            proof {
                assert(r@ =~= Seq::<char>::empty());
            }
        }
        push_str(&mut r, parts[i].as_str());
        i += 1;
    }
    proof {
        assert(pv.take(pv.len() as int) =~= pv);
    }
    r
}

/// Does `s` start with `p`?
pub fn starts_with(s: &str, p: &str) -> (r: bool)
    ensures
        r == p@.is_prefix_of(s@),
{
    let a = chars_of(s);
    let b = chars_of(p);
    if b.len() > a.len() {
        return false;
    }
    let mut i: usize = 0;
    while i < b.len()
        invariant
            a@ == s@,
            b@ == p@,
            b@.len() <= a@.len(),
            i <= b@.len(),
            forall|j: int| 0 <= j < i ==> a@[j] == b@[j],
        decreases b@.len() - i,
    {
        if a[i] != b[i] {
            proof {
                assert(s@.subrange(0, p@.len() as int)[i as int] != p@[i as int]);
            }
            return false;
        }
        i += 1;
    }
    proof {
        assert(s@.subrange(0, p@.len() as int) =~= p@);
    }
    true
}
} // verus!
