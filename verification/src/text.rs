//! Character and string helpers shared by the decoder, the normalizer and the
//! output encoders. All text is reasoned about as its sequence of characters.

use unicode_normalization::UnicodeNormalization;
use vstd::prelude::*;

verus! {

/// The Unicode canonical composition (NFC) of a character sequence. The
/// transformation itself is left unnamed; it is a pure function of the
/// characters.
pub uninterp spec fn nfc_of(s: Seq<char>) -> Seq<char>;

/// Relies on `UnicodeNormalization::nfc` of the Unicode-normalization
/// library: yields the canonical composition of the characters, a function of
/// the input characters alone.
#[verifier::external_body]
pub fn nfc_str(s: &str) -> (r: String)
    ensures
        r@ == nfc_of(s@),
{
    s.nfc().to_string()
}

/// Whether `char::is_whitespace` holds of `c` (the Unicode `White_Space`
/// property). The exact character class is left unnamed; only the facts
/// stated on `char_is_whitespace` are relied on.
pub uninterp spec fn whitespace_char(c: char) -> bool;

/// Relies on `char::is_whitespace`: true exactly for characters with the
/// Unicode `White_Space` property, which includes the ASCII space and
/// excludes ASCII letters and digits.
#[verifier::external_body]
pub fn char_is_whitespace(c: char) -> (r: bool)
    ensures
        r == whitespace_char(c),
        c == ' ' ==> r,
        ('a' <= c <= 'z' || 'A' <= c <= 'Z' || '0' <= c <= '9') ==> !r,
{
    c.is_whitespace()
}

/// A string is blank when every character is whitespace; trimming leaves
/// nothing of it.
pub open spec fn blank(s: Seq<char>) -> bool {
    forall|i: int| 0 <= i < s.len() ==> whitespace_char(s[i])
}

/// Whether `s` trims to the empty string.
pub fn is_blank(s: &str) -> (r: bool)
    ensures
        r == blank(s@),
{
    let n = s.unicode_len();
    let mut i: usize = 0;
    while i < n
        invariant
            0 <= i <= n,
            n == s@.len(),
            forall|k: int| 0 <= k < i ==> whitespace_char(s@[k]),
        decreases n - i,
    {
        if !char_is_whitespace(s.get_char(i)) {
            return false;
        }
        i += 1;
    }
    true
}

/// The characters of `s`, one by one.
pub fn chars_of(s: &str) -> (r: Vec<char>)
    ensures
        r@ == s@,
{
    let n = s.unicode_len();
    let mut r: Vec<char> = Vec::new();
    let mut i: usize = 0;
    while i < n
        invariant
            0 <= i <= n,
            n == s@.len(),
            r@ == s@.subrange(0, i as int),
        decreases n - i,
    {
        r.push(s.get_char(i));
        i += 1;
        proof {
            assert(r@ =~= s@.subrange(0, i as int));
        }
    }
    proof {
        assert(r@ =~= s@);
    }
    r
}

/// Whether two string slices hold the same characters.
pub fn str_eq(a: &str, b: &str) -> (r: bool)
    ensures
        r == (a@ == b@),
{
    let na = a.unicode_len();
    let nb = b.unicode_len();
    if na != nb {
        proof {
            assert(a@ != b@);
        }
        return false;
    }
    let mut i: usize = 0;
    while i < na
        invariant
            0 <= i <= na,
            na == a@.len(),
            na == b@.len(),
            forall|k: int| 0 <= k < i ==> a@[k] == b@[k],
        decreases na - i,
    {
        if a.get_char(i) != b.get_char(i) {
            return false;
        }
        i += 1;
    }
    proof {
        assert(a@ =~= b@);
    }
    true
}

/// Whether some element of `v` holds the characters of `s`.
pub fn contains_str(v: &Vec<String>, s: &str) -> (r: bool)
    ensures
        r == exists|k: int| 0 <= k < v@.len() && v@[k]@ == s@,
{
    let mut i: usize = 0;
    while i < v.len()
        invariant
            0 <= i <= v@.len(),
            forall|k: int| 0 <= k < i ==> v@[k]@ != s@,
        decreases v@.len() - i,
    {
        if str_eq(v[i].as_str(), s) {
            return true;
        }
        i += 1;
    }
    false
}

/// The set of character sequences held by a list of strings.
pub open spec fn strs_set(s: Seq<String>) -> Set<Seq<char>>
    decreases s.len(),
{
    if s.len() == 0 {
        Set::empty()
    } else {
        strs_set(s.drop_last()).insert(s.last()@)
    }
}

proof fn lemma_strs_set_mem(s: Seq<String>, x: Seq<char>)
    ensures
        strs_set(s).contains(x) <==> exists|k: int| 0 <= k < s.len() && (#[trigger] s[k])@ == x,
    decreases s.len(),
{
    if s.len() > 0 {
        let p = s.drop_last();
        lemma_strs_set_mem(p, x);
        assert(forall|k: int| 0 <= k < p.len() ==> #[trigger] p[k] == s[k]);
        if strs_set(s).contains(x) {
            if x == s[s.len() - 1]@ {
                assert((s[s.len() - 1])@ == x);
            } else {
                let k = choose|k: int| 0 <= k < p.len() && (#[trigger] p[k])@ == x;
                assert((s[k])@ == x);
            }
        }
        if exists|k: int| 0 <= k < s.len() && (#[trigger] s[k])@ == x {
            let k = choose|k: int| 0 <= k < s.len() && (#[trigger] s[k])@ == x;
            if k < s.len() - 1 {
                assert((p[k])@ == x);
            }
        }
    }
}

/// A set of strings, grown one element at a time and queried by membership.
pub struct StrSet {
    items: Vec<String>,
}

impl View for StrSet {
    type V = Set<Seq<char>>;

    closed spec fn view(&self) -> Set<Seq<char>> {
        strs_set(self.items@)
    }
}

impl StrSet {
    /// The empty set.
    pub fn new() -> (r: StrSet)
        ensures
            r@ == Set::<Seq<char>>::empty(),
    {
        StrSet { items: Vec::new() }
    }

    /// Adds the characters of `s` to the set.
    pub fn insert(&mut self, s: String)
        ensures
            final(self)@ == old(self)@.insert(s@),
    {
        self.items.push(s);
        proof {
            assert(self.items@.drop_last() =~= old(self).items@);
        }
    }

    /// Whether the characters of `s` are in the set.
    pub fn contains(&self, s: &str) -> (r: bool)
        ensures
            r == self@.contains(s@),
    {
        let r = contains_str(&self.items, s);
        proof {
            lemma_strs_set_mem(self.items@, s@);
        }
        r
    }
}

/// The segment of `s` after its last '/', or all of `s` when it has none.
pub open spec fn tail_segment(s: Seq<char>) -> Seq<char>
    decreases s.len(),
{
    if s.len() == 0 {
        s
    } else if s[s.len() - 1] == '/' {
        Seq::empty()
    } else {
        tail_segment(s.subrange(0, s.len() - 1)).push(s[s.len() - 1])
    }
}

proof fn lemma_tail_segment_no_slash(s: Seq<char>)
    requires
        forall|j: int| 0 <= j < s.len() ==> s[j] != '/',
    ensures
        tail_segment(s) == s,
    decreases s.len(),
{
    if s.len() > 0 {
        let p = s.subrange(0, s.len() - 1);
        lemma_tail_segment_no_slash(p);
        assert(p.push(s[s.len() - 1]) =~= s);
    }
}

proof fn lemma_tail_segment_last_slash(s: Seq<char>, k: int)
    requires
        0 <= k < s.len(),
        s[k] == '/',
        forall|j: int| k < j < s.len() ==> s[j] != '/',
    ensures
        tail_segment(s) == s.subrange(k + 1, s.len() as int),
    decreases s.len(),
{
    if k == s.len() - 1 {
        assert(tail_segment(s) =~= s.subrange(k + 1, s.len() as int));
    } else {
        let p = s.subrange(0, s.len() - 1);
        lemma_tail_segment_last_slash(p, k);
        assert(p.subrange(k + 1, p.len() as int) =~= s.subrange(k + 1, s.len() - 1));
        assert(s.subrange(k + 1, s.len() - 1).push(s[s.len() - 1]) =~= s.subrange(
            k + 1,
            s.len() as int,
        ));
    }
}

/// The trailing path segment of `s`: everything after the last '/', or all of
/// `s` when no '/' occurs in it.
pub fn tail_of(s: &str) -> (r: String)
    ensures
        r@ == tail_segment(s@),
{
    let n = s.unicode_len();
    let mut i: usize = n;
    while i > 0
        invariant
            0 <= i <= n,
            n == s@.len(),
            forall|j: int| i <= j < n ==> s@[j] != '/',
        decreases i,
    {
        i -= 1;
        if s.get_char(i) == '/' {
            let tail = s.substring_char(i + 1, n);
            proof {
                lemma_tail_segment_last_slash(s@, i as int);
            }
            return String::from_str(tail);
        }
    }
    proof {
        lemma_tail_segment_no_slash(s@);
    }
    String::from_str(s)
}

/// Relies on `String::push`: appends the character to the end of the string.
#[verifier::external_body]
pub fn push_char(s: &mut String, c: char)
    ensures
        final(s)@ == old(s)@.push(c),
{
    s.push(c);
}

/// A `String` holding exactly the characters of `v`.
pub fn string_of_chars(v: &Vec<char>) -> (r: String)
    ensures
        r@ == v@,
{
    let mut r = String::new();
    let mut i: usize = 0;
    while i < v.len()
        invariant
            0 <= i <= v@.len(),
            r@ == v@.subrange(0, i as int),
        decreases v@.len() - i,
    {
        push_char(&mut r, v[i]);
        i += 1;
        proof {
            assert(r@ =~= v@.subrange(0, i as int));
        }
    }
    proof {
        assert(r@ =~= v@);
    }
    r
}

} // verus!
