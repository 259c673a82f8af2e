//! Source text addressed by UTF-8 byte offsets, as tree-sitter reports positions.
use vstd::prelude::*;

use crate::text::{chars_of, string_from_chars};

verus! {

/// The number of bytes UTF-8 takes for `c`.
pub open spec fn utf8_len(c: char) -> int {
    let v = c as u32;
    if v < 0x80 {
        1
    } else if v < 0x800 {
        2
    } else if v < 0x10000 {
        3
    } else {
        4
    }
}

/// The byte offset at which the character at index `k` starts (the byte length of `s` for
/// `k == s.len()`).
pub open spec fn byte_offset(s: Seq<char>, k: int) -> int
    decreases k,
{
    if k <= 0 {
        0
    } else {
        byte_offset(s, k - 1) + utf8_len(s[k - 1])
    }
}

/// Byte offsets grow strictly with the character index.
pub proof fn lemma_offset_increasing(s: Seq<char>, a: int, b: int)
    requires
        0 <= a < b,
    ensures
        byte_offset(s, a) < byte_offset(s, b),
    decreases b - a,
{
    if a + 1 < b {
        lemma_offset_increasing(s, a, b - 1);
    }
}

/// The index of the character that starts at byte `b`, or the character count when `b` is the
/// byte length; `None` when no character boundary lies at `b`.
pub open spec fn char_at_byte(s: Seq<char>, b: int) -> Option<int> {
    if exists|k: int| 0 <= k <= s.len() && byte_offset(s, k) == b {
        Some(choose|k: int| 0 <= k <= s.len() && byte_offset(s, k) == b)
    } else {
        None
    }
}

/// The text between two byte offsets, when both are character boundaries in order.
pub open spec fn byte_slice(s: Seq<char>, start: int, end: int) -> Option<Seq<char>> {
    match (char_at_byte(s, start), char_at_byte(s, end)) {
        (Some(a), Some(b)) => if a <= b {
            Some(s.subrange(a, b))
        } else {
            None
        },
        _ => None,
    }
}

/// The number of bytes UTF-8 takes for `c`.
pub fn utf8_len_exec(c: char) -> (l: usize)
    ensures
        l == utf8_len(c),
        1 <= l <= 4,
{
    let v = c as u32;
    if v < 0x80 {
        1
    } else if v < 0x800 {
        2
    } else if v < 0x10000 {
        3
    } else {
        4
    }
}

/// The byte length of `s` in UTF-8.
pub open spec fn byte_len(s: Seq<char>) -> int {
    byte_offset(s, s.len() as int)
}

/// `s` cut to its first `max` characters and marked with an ellipsis when it is longer.
pub open spec fn cap_chars(s: Seq<char>, max: int) -> Seq<char> {
    if s.len() > max {
        s.take(max).push('\u{2026}')
    } else {
        s
    }
}

/// `cap_chars` in executable form.
pub fn cap_chars_exec(s: &Vec<char>, max: usize) -> (r: Vec<char>)
    ensures
        r@ == cap_chars(s@, max as int),
{
    let mut r: Vec<char> = Vec::new();
    let mut k: usize = 0;
    while k < s.len() && k < max
        invariant
            k <= s@.len(),
            k <= max,
            r@ == s@.take(k as int),
        decreases s@.len() - k,
    {
        r.push(s[k]);
        k += 1;
        proof {
            assert(r@ =~= s@.take(k as int));
        }
    }
    if s.len() > max {
        r.push('\u{2026}');
    } else {
        proof {
            assert(r@ =~= s@);
        }
    }
    r
}

/// The first `max` bytes of `s` (all of `s` when it is shorter); `None` when the cut would fall
/// inside a character (where slicing a `str` panics).
pub open spec fn byte_prefix(s: Seq<char>, max: int) -> Option<Seq<char>> {
    if byte_len(s) > max {
        match char_at_byte(s, max) {
            Some(k) => Some(s.subrange(0, k)),
            None => None,
        }
    } else {
        Some(s)
    }
}

/// `&s[..len.min(max)]` on the characters of `s`, where `len` is the byte length.
pub fn byte_prefix_exec(s: &Vec<char>, max: usize) -> (r: Option<Vec<char>>)
    requires
        max <= usize::MAX - 4,
    ensures
        match r {
            Some(v) => byte_prefix(s@, max as int) == Some(v@),
            None => byte_prefix(s@, max as int) is None,
        },
{
    let mut off: usize = 0;
    let mut k: usize = 0;
    while k < s.len() && off < max
        invariant
            k <= s@.len(),
            off == byte_offset(s@, k as int),
            off < max + 4,
            max <= usize::MAX - 4,
            k > 0 ==> byte_offset(s@, k - 1) < max,
        decreases s@.len() - k,
    {
        off = off + utf8_len_exec(s[k]);
        k += 1;
    }
    proof {
        if k < s@.len() {
            lemma_offset_increasing(s@, k as int, s@.len() as int);
        } else {
            assert(byte_len(s@) == off);
        }
    }
    if off < max || (off == max && k == s.len()) {
        proof {
            if off < max {
                assert(k == s@.len());
            }
        }
        let mut c: Vec<char> = Vec::new();
        let mut i: usize = 0;
        while i < s.len()
            invariant
                i <= s@.len(),
                c@ == s@.subrange(0, i as int),
            decreases s@.len() - i,
        {
            c.push(s[i]);
            i += 1;
        }
        proof {
            assert(c@ =~= s@);
        }
        return Some(c);
    }
    if off == max {
        let mut c: Vec<char> = Vec::new();
        let mut i: usize = 0;
        while i < k
            invariant
                k <= s@.len(),
                i <= k,
                c@ == s@.subrange(0, i as int),
            decreases k - i,
        {
            c.push(s[i]);
            i += 1;
        }
        proof {
            assert(byte_offset(s@, k as int) == max);
            let w = choose|w: int| 0 <= w <= s@.len() && byte_offset(s@, w) == max as int;
            if w < k {
                lemma_offset_increasing(s@, w, k as int);
            } else if w > k {
                lemma_offset_increasing(s@, k as int, w);
            }
        }
        return Some(c);
    }
    proof {
        assert(k > 0);
        assert(byte_offset(s@, k - 1) < max);
        assert forall|w: int| 0 <= w <= s@.len() implies byte_offset(s@, w) != max by {
            if w < k {
                lemma_offset_monotone(s@, w, k - 1);
            } else if w > k {
                lemma_offset_increasing(s@, k as int, w);
            }
        }
        if k < s@.len() {
            lemma_offset_increasing(s@, k as int, s@.len() as int);
        }
    }
    None
}

/// A source text with the byte offset of each character.
pub struct SourceText {
    pub chars: Vec<char>,
    /// `offsets[k]` is the byte offset of character `k`; one more entry holds the byte length
    pub offsets: Vec<usize>,
}

impl SourceText {
    pub open spec fn wf(&self) -> bool {
        &&& self.offsets@.len() == self.chars@.len() + 1
        &&& forall|k: int| 0 <= k <= self.chars@.len() ==> #[trigger] self.offsets@[k] == byte_offset(self.chars@, k)
    }

    /// The text of `src` with its byte offsets. `None` only when its byte length does not fit
    /// in a `usize`.
    pub fn new(src: &str) -> (r: Option<SourceText>)
        ensures
            match r {
                Some(t) => t.wf() && t.chars@ == src@,
                None => byte_offset(src@, src@.len() as int) > usize::MAX,
            },
    {
        let chars = chars_of(src);
        let mut offsets: Vec<usize> = Vec::new();
        offsets.push(0);
        let mut k: usize = 0;
        let mut off: usize = 0;
        while k < chars.len()
            invariant
                chars@ == src@,
                k <= chars@.len(),
                offsets@.len() == k + 1,
                off == byte_offset(chars@, k as int),
                forall|j: int| 0 <= j <= k ==> #[trigger] offsets@[j] == byte_offset(chars@, j),
            decreases chars@.len() - k,
        {
            let v = chars[k] as u32;
            let l: usize = if v < 0x80 {
                1
            } else if v < 0x800 {
                2
            } else if v < 0x10000 {
                3
            } else {
                4
            };
            proof {
                assert(l == utf8_len(chars@[k as int]));
                assert(byte_offset(chars@, k + 1) == off + l);
            }
            if off > usize::MAX - l {
                proof {
                    lemma_offset_monotone(chars@, k + 1, chars@.len() as int);
                }
                return None;
            }
            off = off + l;
            offsets.push(off);
            k += 1;
        }
        Some(SourceText { chars, offsets })
    }

    /// The index of the character that starts at byte `b`.
    pub fn char_index(&self, b: usize) -> (r: Option<usize>)
        requires
            self.wf(),
        ensures
            match r {
                Some(k) => char_at_byte(self.chars@, b as int) == Some(k as int),
                None => char_at_byte(self.chars@, b as int) is None,
            },
    {
        let ghost s = self.chars@;
        let mut lo: usize = 0;
        let mut hi: usize = self.offsets.len();
        while lo < hi
            invariant
                self.wf(),
                s == self.chars@,
                lo <= hi <= self.offsets@.len(),
                forall|k: int| 0 <= k < lo ==> byte_offset(s, k) < b,
                forall|k: int| hi <= k <= s.len() ==> byte_offset(s, k) > b,
            decreases hi - lo,
        {
            let mid = lo + (hi - lo) / 2;
            let o = self.offsets[mid];
            if o == b {
                proof {
                    assert(byte_offset(s, mid as int) == b);
                    let c = choose|k: int| 0 <= k <= s.len() && byte_offset(s, k) == b;
                    if c < mid {
                        lemma_offset_increasing(s, c, mid as int);
                    } else if c > mid {
                        lemma_offset_increasing(s, mid as int, c);
                    }
                }
                return Some(mid);
            } else if o < b {
                proof {
                    assert forall|k: int| 0 <= k < mid + 1 implies byte_offset(s, k) < b by {
                        if k < mid {
                            lemma_offset_increasing(s, k, mid as int);
                        }
                    }
                }
                lo = mid + 1;
            } else {
                proof {
                    assert forall|k: int| mid <= k <= s.len() implies byte_offset(s, k) > b by {
                        if k > mid {
                            lemma_offset_increasing(s, mid as int, k);
                        }
                    }
                }
                hi = mid;
            }
        }
        None
    }

    /// The text between two byte offsets (`Node::utf8_text`): `None` when either offset is not
    /// a character boundary, or they are out of order.
    pub fn slice(&self, start: usize, end: usize) -> (r: Option<String>)
        requires
            self.wf(),
        ensures
            r.deep_view() == byte_slice(self.chars@, start as int, end as int),
    {
        let a = self.char_index(start);
        let b = self.char_index(end);
        match (a, b) {
            (Some(a), Some(b)) => {
                if a <= b {
                    let mut part: Vec<char> = Vec::new();
                    let mut k = a;
                    while k < b
                        invariant
                            a <= k <= b <= self.chars@.len(),
                            part@ == self.chars@.subrange(a as int, k as int),
                        decreases b - k,
                    {
                        part.push(self.chars[k]);
                        k += 1;
                    }
                    let r = string_from_chars(part.as_slice());
                    proof {
                        assert(r@ == self.chars@.subrange(a as int, b as int));
                    }
                    Some(r)
                } else {
                    None
                }
            },
            _ => None,
        }
    }
}

/// Byte offsets never decrease.
pub proof fn lemma_offset_monotone(s: Seq<char>, a: int, b: int)
    requires
        0 <= a <= b,
    ensures
        byte_offset(s, a) <= byte_offset(s, b),
{
    if a < b {
        lemma_offset_increasing(s, a, b);
    }
}

} // verus!
