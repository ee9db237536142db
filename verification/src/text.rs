//! Text as sequences of characters: searching, trimming, splitting and
//! formatting, each against a definition over `Seq<char>`.

use vstd::prelude::*;
use vstd::utf8::*;

pub mod laws;

verus! {

/// `String::push` appends one character and changes nothing else.
pub assume_specification[ String::push ](s: &mut String, c: char)
    ensures
        final(s)@ == old(s)@.push(c),
;

/// The text that `String::from_utf8_lossy` makes of bytes: what is not UTF-8
/// becomes replacement characters.
pub uninterp spec fn lossy(bytes: Seq<u8>) -> Seq<char>;

/// `String::from_utf8_lossy` keeps valid UTF-8 as it is. How many replacement
/// characters stand for bytes that are not is left to the name `lossy`.
#[verifier::external_body]
pub(crate) fn lossy_text(bytes: &[u8]) -> (r: String)
    ensures
        r@ == lossy(bytes@),
        valid_utf8(bytes@) ==> r@ == decode_utf8(bytes@),
{
    String::from_utf8_lossy(bytes).into_owned()
}

/// `String::from_utf8` accepts exactly the valid UTF-8, and keeps its characters.
#[verifier::external_body]
pub(crate) fn utf8_text(bytes: Vec<u8>) -> (r: Option<String>)
    ensures
        match r {
            Some(s) => valid_utf8(bytes@) && s@ == decode_utf8(bytes@),
            None => !valid_utf8(bytes@),
        },
{
    String::from_utf8(bytes).ok()
}

// ---------------------------------------------------------------------------
// Conversions
// ---------------------------------------------------------------------------

/// The characters of `s`, in order.
pub fn to_chars(s: &str) -> (out: Vec<char>)
    ensures
        out@ == s@,
{
    let mut out: Vec<char> = Vec::new();
    for c in it: s.chars()
        invariant
            out@ == it.seq().take(it.index() as int),
            it.seq() == s@,
    {
        out.push(c);
    }
    out
}

/// The text made of `cs`.
pub fn from_chars(cs: &[char]) -> (out: String)
    ensures
        out@ == cs@,
{
    let mut out = String::new();
    let mut i: usize = 0;
    while i < cs.len()
        invariant
            i <= cs@.len(),
            out@ == cs@.take(i as int),
        decreases cs@.len() - i,
    {
        out.push(cs[i]);
        i += 1;
    }
    out
}

/// The views of a list of strings.
pub open spec fn texts(v: Seq<String>) -> Seq<Seq<char>> {
    Seq::new(v.len(), |i: int| v[i]@)
}

/// The view of an optional string.
pub open spec fn opt_text(o: Option<String>) -> Option<Seq<char>> {
    match o {
        Some(s) => Some(s@),
        None => None,
    }
}

/// Whether two texts hold the same characters.
pub fn same(a: &str, b: &str) -> (r: bool)
    ensures
        r == (a@ == b@),
{
    let x = a.to_string();
    let y = b.to_string();
    x == y
}

/// A copy of an optional text.
pub fn copy_opt(o: &Option<String>) -> (r: Option<String>)
    ensures
        opt_text(r) == opt_text(*o),
{
    match o {
        Some(s) => Some(s.clone()),
        None => None,
    }
}

/// Whether two optional texts are equal.
pub fn same_opt(a: &Option<String>, b: &Option<String>) -> (r: bool)
    ensures
        r == (opt_text(*a) == opt_text(*b)),
{
    match (a, b) {
        (Some(x), Some(y)) => same(x.as_str(), y.as_str()),
        (None, None) => true,
        _ => false,
    }
}

// ---------------------------------------------------------------------------
// Order
// ---------------------------------------------------------------------------

/// `a` comes strictly before `b` in the order of their code points. This is
/// also the order of their UTF-8 bytes.
pub open spec fn lt(a: Seq<char>, b: Seq<char>) -> bool
    decreases b.len(),
{
    b.len() > 0 && (a.len() == 0 || a[0] < b[0] || (a[0] == b[0] && lt(
        a.drop_first(),
        b.drop_first(),
    )))
}

/// No text comes before itself.
pub proof fn lemma_lt_irreflexive(a: Seq<char>)
    ensures
        !lt(a, a),
    decreases a.len(),
{
    if a.len() > 0 {
        lemma_lt_irreflexive(a.drop_first());
    }
}

/// The order is transitive.
pub proof fn lemma_lt_transitive(a: Seq<char>, b: Seq<char>, c: Seq<char>)
    requires
        lt(a, b),
        lt(b, c),
    ensures
        lt(a, c),
    decreases b.len(),
{
    if a.len() > 0 && a[0] == b[0] && b[0] == c[0] {
        lemma_lt_transitive(a.drop_first(), b.drop_first(), c.drop_first());
    }
}

/// Any two different texts are ordered one way or the other.
pub proof fn lemma_lt_total(a: Seq<char>, b: Seq<char>)
    ensures
        lt(a, b) || lt(b, a) || a == b,
    decreases a.len(),
{
    if a.len() == 0 {
        if b.len() == 0 {
            assert(a =~= b);
        }
    } else if b.len() > 0 && a[0] == b[0] {
        lemma_lt_total(a.drop_first(), b.drop_first());
        if a.drop_first() == b.drop_first() {
            assert(a =~= seq![a[0]] + a.drop_first());
            assert(b =~= seq![b[0]] + b.drop_first());
        }
    }
}

proof fn lemma_lt_common_prefix(a: Seq<char>, b: Seq<char>, k: int)
    requires
        0 <= k <= a.len(),
        k <= b.len(),
        a.take(k) == b.take(k),
    ensures
        lt(a, b) == lt(a.skip(k), b.skip(k)),
    decreases k,
{
    if k == 0 {
        assert(a.skip(0) =~= a);
        assert(b.skip(0) =~= b);
    } else {
        assert(a[0] == a.take(k)[0]);
        assert(b[0] == b.take(k)[0]);
        assert(a.drop_first().take(k - 1) =~= a.take(k).drop_first());
        assert(b.drop_first().take(k - 1) =~= b.take(k).drop_first());
        lemma_lt_common_prefix(a.drop_first(), b.drop_first(), k - 1);
        assert(a.drop_first().skip(k - 1) =~= a.skip(k));
        assert(b.drop_first().skip(k - 1) =~= b.skip(k));
    }
}

/// Whether `a` comes strictly before `b`.
pub fn less(a: &str, b: &str) -> (r: bool)
    ensures
        r == lt(a@, b@),
{
    let x = to_chars(a);
    let y = to_chars(b);
    let mut i: usize = 0;
    while i < x.len() && i < y.len() && x[i] == y[i]
        invariant
            i <= x@.len(),
            i <= y@.len(),
            x@.take(i as int) == y@.take(i as int),
        decreases x@.len() - i,
    {
        proof {
            assert(x@.take(i + 1) =~= x@.take(i as int).push(x@[i as int]));
            assert(y@.take(i + 1) =~= y@.take(i as int).push(y@[i as int]));
        }
        i += 1;
    }
    proof {
        lemma_lt_common_prefix(x@, y@, i as int);
    }
    if i >= y.len() {
        false
    } else if i >= x.len() {
        true
    } else {
        x[i] < y[i]
    }
}

// ---------------------------------------------------------------------------
// Searching
// ---------------------------------------------------------------------------

/// `t` stands in `s` at position `i`.
pub open spec fn occurs_at(s: Seq<char>, t: Seq<char>, i: int) -> bool {
    0 <= i <= s.len() - t.len() && s.subrange(i, i + t.len()) == t
}

/// `t` stands somewhere in `s`.
pub open spec fn occurs(s: Seq<char>, t: Seq<char>) -> bool {
    exists|i: int| occurs_at(s, t, i)
}

/// What stands between two other texts stands in the whole.
pub proof fn lemma_occurs_within(a: Seq<char>, t: Seq<char>, b: Seq<char>)
    ensures
        occurs(a + t + b, t),
{
    assert((a + t + b).subrange(a.len() as int, (a.len() + t.len()) as int) =~= t);
    assert(occurs_at(a + t + b, t, a.len() as int));
}

/// What stands in a text has something before and something after it there.
pub proof fn lemma_occurs_split(s: Seq<char>, t: Seq<char>) -> (r: (Seq<char>, Seq<char>))
    requires
        occurs(s, t),
    ensures
        s == r.0 + t + r.1,
{
    let i = choose|i: int| occurs_at(s, t, i);
    let r = (s.take(i), s.skip(i + t.len()));
    assert(s =~= s.take(i) + s.subrange(i, i + t.len()) + s.skip(i + t.len()));
    r
}

/// What stands in a part of a text stands in the text.
pub proof fn lemma_occurs_trans(s: Seq<char>, t: Seq<char>, u: Seq<char>)
    requires
        occurs(s, t),
        occurs(t, u),
    ensures
        occurs(s, u),
{
    let (a, b) = lemma_occurs_split(s, t);
    let (c, d) = lemma_occurs_split(t, u);
    assert(s =~= (a + c) + u + (d + b));
    lemma_occurs_within(a + c, u, d + b);
}

/// Each of some texts stands in all of them one after the other.
pub proof fn lemma_flatten_holds(parts: Seq<Seq<char>>, i: int)
    requires
        0 <= i < parts.len(),
    ensures
        occurs(parts.flatten(), parts[i]),
    decreases parts.len(),
{
    let none = Seq::<char>::empty();
    let rest = parts.drop_first().flatten();
    if i == 0 {
        assert(parts.flatten() =~= none + parts[0] + rest);
        lemma_occurs_within(none, parts[0], rest);
    } else {
        lemma_flatten_holds(parts.drop_first(), i - 1);
        assert(parts.flatten() =~= parts[0] + rest + none);
        lemma_occurs_within(parts[0], rest, none);
        lemma_occurs_trans(parts.flatten(), rest, parts[i]);
    }
}

/// `i` is the first position at which `t` stands in `s`.
pub open spec fn occurs_first_at(s: Seq<char>, t: Seq<char>, i: int) -> bool {
    occurs_at(s, t, i) && forall|j: int| 0 <= j < i ==> !occurs_at(s, t, j)
}

fn matches_at(s: &Vec<char>, t: &Vec<char>, i: usize) -> (r: bool)
    requires
        i + t@.len() <= s@.len(),
    ensures
        r == occurs_at(s@, t@, i as int),
{
    let n: usize = s.len();
    let mut k: usize = 0;
    while k < t.len()
        invariant
            k <= t@.len(),
            n == s@.len(),
            i + t@.len() <= n,
            forall|j: int| 0 <= j < k ==> s@[i + j] == t@[j],
        decreases t@.len() - k,
    {
        if s[i + k] != t[k] {
            proof {
                assert(s@.subrange(i as int, i + t@.len())[k as int] != t@[k as int]);
            }
            return false;
        }
        k += 1;
    }
    proof {
        assert(s@.subrange(i as int, i + t@.len()) =~= t@);
    }
    true
}

/// The first position of `t` in `s`, if it stands there at all.
pub fn find_chars(s: &Vec<char>, t: &Vec<char>) -> (r: Option<usize>)
    ensures
        match r {
            Some(i) => occurs_first_at(s@, t@, i as int),
            None => !occurs(s@, t@),
        },
{
    if t.len() > s.len() {
        return None;
    }
    let last: usize = s.len() - t.len();
    let mut i: usize = 0;
    while i <= last
        invariant
            last == s@.len() - t@.len(),
            i <= last + 1,
            forall|j: int| 0 <= j < i ==> !occurs_at(s@, t@, j),
        decreases last + 1 - i,
    {
        if matches_at(s, t, i) {
            return Some(i);
        }
        if i == last {
            return None;
        }
        i += 1;
    }
    None
}

/// Whether `t` stands somewhere in `s`.
pub fn contains(s: &str, t: &str) -> (r: bool)
    ensures
        r == occurs(s@, t@),
{
    let x = to_chars(s);
    let y = to_chars(t);
    find_chars(&x, &y).is_some()
}

/// Whether `s` begins with `t`.
pub fn starts_with(s: &str, t: &str) -> (r: bool)
    ensures
        r == t@.is_prefix_of(s@),
{
    let x = to_chars(s);
    let y = to_chars(t);
    if y.len() > x.len() {
        return false;
    }
    matches_at(&x, &y, 0)
}

/// Whether `s` ends with `t`.
pub fn ends_with(s: &str, t: &str) -> (r: bool)
    ensures
        r == t@.is_suffix_of(s@),
{
    let x = to_chars(s);
    let y = to_chars(t);
    if y.len() > x.len() {
        return false;
    }
    let at: usize = x.len() - y.len();
    matches_at(&x, &y, at)
}

/// The views of a list of borrowed texts.
pub open spec fn strs(v: Seq<&str>) -> Seq<Seq<char>> {
    Seq::new(v.len(), |i: int| v[i]@)
}

/// Whether `list` holds the text `s`.
pub fn listed(list: &[&str], s: &str) -> (r: bool)
    ensures
        r == strs(list@).contains(s@),
{
    let mut i: usize = 0;
    while i < list.len()
        invariant
            i <= list@.len(),
            forall|j: int| 0 <= j < i ==> (#[trigger] list@[j])@ != s@,
        decreases list@.len() - i,
    {
        if same(list[i], s) {
            proof {
                assert(strs(list@)[i as int] == s@);
            }
            return true;
        }
        i += 1;
    }
    proof {
        if strs(list@).contains(s@) {
            let j = choose|j: int| 0 <= j < strs(list@).len() && strs(list@)[j] == s@;
            assert(list@[j]@ == s@);
        }
    }
    false
}

/// Some entry of `list` stands in `s`.
pub open spec fn any_occurs(s: Seq<char>, list: Seq<Seq<char>>) -> bool {
    exists|i: int| 0 <= i < list.len() && occurs(s, #[trigger] list[i])
}

/// Whether some entry of `list` stands in `s`.
pub fn contains_any(s: &str, list: &[&str]) -> (r: bool)
    ensures
        r == any_occurs(s@, strs(list@)),
{
    let mut i: usize = 0;
    while i < list.len()
        invariant
            i <= list@.len(),
            forall|j: int| 0 <= j < i ==> !occurs(s@, #[trigger] strs(list@)[j]),
        decreases list@.len() - i,
    {
        if contains(s, list[i]) {
            proof {
                assert(occurs(s@, strs(list@)[i as int]));
            }
            return true;
        }
        proof {
            assert(strs(list@)[i as int] == list@[i as int]@);
        }
        i += 1;
    }
    false
}

/// `s` ends with some entry of `list`.
pub open spec fn any_suffix(s: Seq<char>, list: Seq<Seq<char>>) -> bool {
    exists|i: int| 0 <= i < list.len() && (#[trigger] list[i]).is_suffix_of(s)
}

/// Whether `s` ends with some entry of `list`.
pub fn ends_with_any(s: &str, list: &[&str]) -> (r: bool)
    ensures
        r == any_suffix(s@, strs(list@)),
{
    let mut i: usize = 0;
    while i < list.len()
        invariant
            i <= list@.len(),
            forall|j: int| 0 <= j < i ==> !(#[trigger] strs(list@)[j]).is_suffix_of(s@),
        decreases list@.len() - i,
    {
        if ends_with(s, list[i]) {
            proof {
                assert(strs(list@)[i as int].is_suffix_of(s@));
            }
            return true;
        }
        proof {
            assert(strs(list@)[i as int] == list@[i as int]@);
        }
        i += 1;
    }
    false
}

// ---------------------------------------------------------------------------
// Trimming
// ---------------------------------------------------------------------------

/// The characters with the Unicode property `White_Space`.
pub open spec fn is_white_space(c: char) -> bool {
    let u = c as u32;
    ||| 0x9 <= u <= 0xD
    ||| u == 0x20
    ||| u == 0x85
    ||| u == 0xA0
    ||| u == 0x1680
    ||| 0x2000 <= u <= 0x200A
    ||| u == 0x2028
    ||| u == 0x2029
    ||| u == 0x202F
    ||| u == 0x205F
    ||| u == 0x3000
}

/// Whether `c` is a character of `s`.
pub fn has_char(s: &str, c: char) -> (r: bool)
    ensures
        r == s@.contains(c),
{
    let cs = to_chars(s);
    let mut i: usize = 0;
    while i < cs.len()
        invariant
            cs@ == s@,
            i <= cs@.len(),
            forall|j: int| 0 <= j < i ==> cs@[j] != c,
        decreases cs@.len() - i,
    {
        if cs[i] == c {
            proof {
                assert(s@[i as int] == c);
            }
            return true;
        }
        i += 1;
    }
    false
}

/// Which characters a trim takes off.
pub enum CharClass<'a> {
    /// Unicode white space.
    WhiteSpace,
    /// The characters of this text.
    AnyOf(&'a str),
}

impl<'a> CharClass<'a> {
    /// `c` belongs to the class.
    pub open spec fn has_char(self, c: char) -> bool {
        match self {
            CharClass::WhiteSpace => is_white_space(c),
            CharClass::AnyOf(s) => s@.contains(c),
        }
    }

    /// Whether `c` belongs to the class.
    pub fn holds(&self, c: char) -> (r: bool)
        ensures
            r == self.has_char(c),
    {
        match self {
            CharClass::WhiteSpace => {
                let u: u32 = c as u32;
                (0x9 <= u && u <= 0xD) || u == 0x20 || u == 0x85 || u == 0xA0 || u == 0x1680 || (
                0x2000 <= u && u <= 0x200A) || u == 0x2028 || u == 0x2029 || u == 0x202F || u
                    == 0x205F || u == 0x3000
            },
            CharClass::AnyOf(s) => has_char(s, c),
        }
    }
}

/// `s` without its leading characters of `class`.
pub open spec fn strip_front(s: Seq<char>, class: CharClass) -> Seq<char>
    decreases s.len(),
{
    if s.len() > 0 && class.has_char(s[0]) {
        strip_front(s.drop_first(), class)
    } else {
        s
    }
}

/// `s` without its trailing characters of `class`.
pub open spec fn strip_back(s: Seq<char>, class: CharClass) -> Seq<char>
    decreases s.len(),
{
    if s.len() > 0 && class.has_char(s.last()) {
        strip_back(s.drop_last(), class)
    } else {
        s
    }
}

/// `s` without the characters of `class` at either end.
pub open spec fn strip_both(s: Seq<char>, class: CharClass) -> Seq<char> {
    strip_back(strip_front(s, class), class)
}

/// `s` without white space at either end.
pub open spec fn trimmed(s: Seq<char>) -> Seq<char> {
    strip_both(s, CharClass::WhiteSpace)
}

/// All characters of `s` belong to `class`.
pub open spec fn all_in(s: Seq<char>, class: CharClass) -> bool {
    forall|i: int| 0 <= i < s.len() ==> class.has_char(#[trigger] s[i])
}

/// Stripping the front takes off just the leading characters of the class.
pub proof fn lemma_strip_front(w: Seq<char>, s: Seq<char>, class: CharClass)
    requires
        all_in(w, class),
        s.len() == 0 || !class.has_char(s[0]),
    ensures
        strip_front(w + s, class) == s,
    decreases w.len(),
{
    if w.len() > 0 {
        assert((w + s)[0] == w[0]);
        assert((w + s).drop_first() =~= w.drop_first() + s);
        lemma_strip_front(w.drop_first(), s, class);
    } else {
        assert(w + s =~= s);
    }
}

/// Stripping the back takes off just the trailing characters of the class.
pub proof fn lemma_strip_back(s: Seq<char>, w: Seq<char>, class: CharClass)
    requires
        all_in(w, class),
        s.len() == 0 || !class.has_char(s.last()),
    ensures
        strip_back(s + w, class) == s,
    decreases w.len(),
{
    if w.len() > 0 {
        assert((s + w).last() == w.last());
        assert((s + w).drop_last() =~= s + w.drop_last());
        lemma_strip_back(s, w.drop_last(), class);
    } else {
        assert(s + w =~= s);
    }
}

/// Trimming takes off just what stands at either end.
pub proof fn lemma_strip_both(v: Seq<char>, s: Seq<char>, w: Seq<char>, class: CharClass)
    requires
        all_in(v, class),
        all_in(w, class),
        s.len() > 0,
        !class.has_char(s[0]),
        !class.has_char(s.last()),
    ensures
        strip_both(v + s + w, class) == s,
{
    assert(v + s + w =~= v + (s + w));
    assert((s + w)[0] == s[0]);
    lemma_strip_front(v, s + w, class);
    lemma_strip_back(s, w, class);
}

/// What stripping the front takes off.
pub proof fn lemma_stripped_front(s: Seq<char>, class: CharClass) -> (w: Seq<char>)
    ensures
        all_in(w, class),
        s == w + strip_front(s, class),
        strip_front(s, class).len() == 0 || !class.has_char(strip_front(s, class)[0]),
    decreases s.len(),
{
    if s.len() > 0 && class.has_char(s[0]) {
        let w = lemma_stripped_front(s.drop_first(), class);
        let r = seq![s[0]] + w;
        let rest = strip_front(s, class);
        assert(s.drop_first() == w + rest);
        assert(s =~= seq![s[0]] + s.drop_first());
        assert(s =~= r + rest);
        assert forall|i: int| 0 <= i < r.len() implies class.has_char(#[trigger] r[i]) by {
            if i > 0 {
                assert(r[i] == w[i - 1]);
            }
        }
        r
    } else {
        assert(s =~= Seq::<char>::empty() + s);
        Seq::empty()
    }
}

/// A text that begins with no character of the class occurs in another exactly if
/// it occurs there after the front is stripped.
pub proof fn lemma_strip_keeps(s: Seq<char>, t: Seq<char>, class: CharClass)
    requires
        t.len() > 0,
        !class.has_char(t[0]),
    ensures
        occurs(s, t) <==> occurs(strip_front(s, class), t),
{
    let w = lemma_stripped_front(s, class);
    let rest = strip_front(s, class);
    if occurs(s, t) {
        let i = choose|i: int| occurs_at(s, t, i);
        assert(s[i] == s.subrange(i, i + t.len())[0]);
        if i < w.len() {
            assert(w[i] == s[i]);
        }
        assert(rest.subrange(i - w.len(), i - w.len() + t.len()) =~= s.subrange(i, i + t.len()));
        assert(occurs_at(rest, t, i - w.len()));
    }
    if occurs(rest, t) {
        let none = Seq::<char>::empty();
        assert(s =~= w + rest + none);
        lemma_occurs_within(w, rest, none);
        lemma_occurs_trans(s, rest, t);
    }
}

/// A text and a separator that occurs in neither it nor across its end are split
/// where they meet.
pub proof fn lemma_split_at_first(a: Seq<char>, sep: Seq<char>, b: Seq<char>)
    requires
        sep.len() > 0,
        !a.contains(sep[0]),
    ensures
        split_at_first(a + sep + b, sep) == Some((a, b)),
{
    let s = a + sep + b;
    lemma_occurs_within(a, sep, b);
    assert(s.subrange(a.len() as int, (a.len() + sep.len()) as int) =~= sep);
    assert(occurs_at(s, sep, a.len() as int));
    assert forall|j: int| 0 <= j < a.len() implies !occurs_at(s, sep, j) by {
        if occurs_at(s, sep, j) {
            assert(s.subrange(j, j + sep.len())[0] == s[j]);
            assert(a[j] == sep[0]);
        }
    }
    assert(occurs_first_at(s, sep, a.len() as int));
    let i = choose|i: int| occurs_first_at(s, sep, i);
    assert(occurs_first_at(s, sep, i));
    assert(i == a.len());
    assert(s.take(i) =~= a);
    assert(s.skip(i + sep.len()) =~= b);
}

/// There is nothing to split without the separator.
pub proof fn lemma_split_without(s: Seq<char>, sep: Seq<char>)
    requires
        sep.len() > 0,
        !s.contains(sep[0]),
    ensures
        split_at_first(s, sep) is None,
{
    if occurs(s, sep) {
        let i = choose|i: int| occurs_at(s, sep, i);
        assert(s.subrange(i, i + sep.len())[0] == s[i]);
    }
}

/// `s` without its leading characters of `class`.
pub fn trim_front_of<'a>(s: &'a str, class: &CharClass) -> (r: &'a str)
    ensures
        r@ == strip_front(s@, *class),
{
    let cs = to_chars(s);
    let mut i: usize = 0;
    proof {
        assert(cs@.skip(0) =~= cs@);
    }
    while i < cs.len() && class.holds(cs[i])
        invariant
            i <= cs@.len(),
            strip_front(cs@, *class) == strip_front(cs@.skip(i as int), *class),
        decreases cs@.len() - i,
    {
        proof {
            assert(cs@.skip(i as int).drop_first() =~= cs@.skip(i + 1));
        }
        i += 1;
    }
    proof {
        assert(s@.subrange(i as int, cs@.len() as int) =~= cs@.skip(i as int));
    }
    s.substring_char(i, cs.len())
}

/// `s` without its trailing characters of `class`.
pub fn trim_back_of<'a>(s: &'a str, class: &CharClass) -> (r: &'a str)
    ensures
        r@ == strip_back(s@, *class),
{
    let cs = to_chars(s);
    let mut n: usize = cs.len();
    proof {
        assert(cs@.take(n as int) =~= cs@);
    }
    while n > 0 && class.holds(cs[n - 1])
        invariant
            n <= cs@.len(),
            strip_back(cs@, *class) == strip_back(cs@.take(n as int), *class),
        decreases n,
    {
        proof {
            assert(cs@.take(n as int).drop_last() =~= cs@.take(n - 1));
        }
        n -= 1;
    }
    proof {
        assert(s@.subrange(0, n as int) =~= cs@.take(n as int));
    }
    s.substring_char(0, n)
}

/// `s` without the characters of `class` at either end.
pub fn trim_of<'a>(s: &'a str, class: &CharClass) -> (r: &'a str)
    ensures
        r@ == strip_both(s@, *class),
{
    trim_back_of(trim_front_of(s, class), class)
}

/// `s` without white space at either end.
pub fn trim<'a>(s: &'a str) -> (r: &'a str)
    ensures
        r@ == trimmed(s@),
{
    trim_of(s, &CharClass::WhiteSpace)
}

// ---------------------------------------------------------------------------
// Splitting
// ---------------------------------------------------------------------------

/// What stands before and after the first `sep` in `s`, if it holds one.
pub open spec fn split_at_first(s: Seq<char>, sep: Seq<char>) -> Option<(Seq<char>, Seq<char>)> {
    if occurs(s, sep) {
        let i = choose|i: int| occurs_first_at(s, sep, i);
        Some((s.take(i), s.skip(i + sep.len())))
    } else {
        None
    }
}

/// What stands before and after the first `sep` in `s`, if it holds one.
pub fn split_once<'a>(s: &'a str, sep: &str) -> (r: Option<(&'a str, &'a str)>)
    ensures
        r matches Some((a, b)) ==> split_at_first(s@, sep@) == Some((a@, b@)),
        r is None ==> split_at_first(s@, sep@) is None,
{
    let x = to_chars(s);
    let y = to_chars(sep);
    match find_chars(&x, &y) {
        None => None,
        Some(i) => {
            proof {
                let j = choose|j: int| occurs_first_at(s@, sep@, j);
                assert(occurs_first_at(s@, sep@, i as int));
                assert(j == i) by {
                    if j < i {
                        assert(!occurs_at(s@, sep@, j));
                    } else if i < j {
                        assert(!occurs_at(s@, sep@, i as int));
                    }
                }
                assert(s@.subrange(0, i as int) =~= s@.take(i as int));
                assert(s@.subrange(i + sep@.len(), s@.len() as int) =~= s@.skip(i + sep@.len()));
            }
            let n: usize = x.len();
            Some((s.substring_char(0, i), s.substring_char(i + y.len(), n)))
        },
    }
}

/// The position of the first `c` in `s`, or the length of `s` without one.
pub open spec fn index_of_char(s: Seq<char>, c: char) -> int
    decreases s.len(),
{
    if s.len() == 0 || s[0] == c {
        0
    } else {
        1 + index_of_char(s.drop_first(), c)
    }
}

/// `line` without one carriage return at its end.
pub open spec fn without_cr(line: Seq<char>) -> Seq<char> {
    if line.len() > 0 && line.last() == '\r' {
        line.drop_last()
    } else {
        line
    }
}

/// The first position of a character: before it there is none, and if it is not
/// the end, the character stands there.
pub proof fn lemma_index_of_char(s: Seq<char>, c: char)
    ensures
        0 <= index_of_char(s, c) <= s.len(),
        forall|j: int| 0 <= j < index_of_char(s, c) ==> s[j] != c,
        index_of_char(s, c) < s.len() ==> s[index_of_char(s, c)] == c,
    decreases s.len(),
{
    if s.len() > 0 && s[0] != c {
        lemma_index_of_char(s.drop_first(), c);
        assert forall|j: int| 0 <= j < index_of_char(s, c) implies s[j] != c by {
            if j > 0 {
                assert(s[j] == s.drop_first()[j - 1]);
            }
        }
    }
}

proof fn lemma_index_of_char_unique(s: Seq<char>, c: char, i: int)
    requires
        0 <= i <= s.len(),
        forall|j: int| 0 <= j < i ==> s[j] != c,
        i < s.len() ==> s[i] == c,
    ensures
        index_of_char(s, c) == i,
{
    lemma_index_of_char(s, c);
    let k = index_of_char(s, c);
    if k < i {
        assert(s[k] != c);
    } else if i < k {
        assert(s[i] != c);
    }
}

/// The lines of `s`. A line ends at a line feed, which is not part of it,
/// nor is a carriage return right before it. Text after the last line feed is
/// a line of its own, as it stands.
pub open spec fn lines_of(s: Seq<char>) -> Seq<Seq<char>>
    decreases s.len(),
{
    if s.len() == 0 {
        Seq::empty()
    } else {
        let i = index_of_char(s, '\n');
        if 0 <= i < s.len() {
            seq![without_cr(s.take(i))] + lines_of(s.skip(i + 1))
        } else {
            seq![s]
        }
    }
}

/// The first line of a text goes up to the first line feed, without a carriage
/// return right before it, and the other lines are those of the rest.
pub proof fn lemma_lines_step(a: Seq<char>, b: Seq<char>)
    requires
        !a.contains('\n'),
    ensures
        lines_of(a + "\n"@ + b) == seq![
            if a.len() > 0 && a.last() == '\r' {
                a.drop_last()
            } else {
                a
            },
        ] + lines_of(b),
        a.len() > 0 ==> lines_of(a) == seq![a],
        lines_of(Seq::<char>::empty()) == Seq::<Seq<char>>::empty(),
{
    reveal_strlit("\n");
    let s = a + "\n"@ + b;
    assert forall|j: int| 0 <= j < a.len() implies s[j] != '\n' by {
        assert(a[j] == s[j]);
    }
    lemma_index_of_char_unique(s, '\n', a.len() as int);
    assert(s.take(a.len() as int) =~= a);
    assert(s.skip((a.len() + 1) as int) =~= b);
    lemma_index_of_char(a, '\n');
}

proof fn lemma_take_occurs(s: Seq<char>, k: int)
    requires
        0 <= k <= s.len(),
    ensures
        occurs(s, s.take(k)),
        occurs(s, s.skip(k)),
{
    let none = Seq::<char>::empty();
    assert(s =~= none + s.take(k) + s.skip(k));
    lemma_occurs_within(none, s.take(k), s.skip(k));
    assert(s =~= s.take(k) + s.skip(k) + none);
    lemma_occurs_within(s.take(k), s.skip(k), none);
}

/// Every line of a text stands in it and holds no line feed.
pub proof fn lemma_line_occurs(s: Seq<char>, i: int)
    requires
        0 <= i < lines_of(s).len(),
    ensures
        occurs(s, lines_of(s)[i]),
        !lines_of(s)[i].contains('\n'),
    decreases s.len(),
{
    lemma_index_of_char(s, '\n');
    let k = index_of_char(s, '\n');
    if k < s.len() {
        lemma_take_occurs(s, k);
        lemma_take_occurs(s, k + 1);
        if i == 0 {
            let a = s.take(k);
            let line = without_cr(a);
            assert(lines_of(s)[0] == line);
            if line != a {
                lemma_take_occurs(a, a.len() - 1);
                assert(line =~= a.take(a.len() - 1));
                lemma_occurs_trans(s, a, line);
            }
            if line.contains('\n') {
                let j = line.index_of('\n');
                assert(s[j] == '\n');
            }
        } else {
            let rest = s.skip(k + 1);
            assert(lines_of(s)[i] == lines_of(rest)[i - 1]);
            lemma_line_occurs(rest, i - 1);
            lemma_occurs_trans(s, rest, lines_of(s)[i]);
        }
    } else {
        lemma_take_occurs(s, 0);
        assert(s.skip(0) =~= s);
        if s.contains('\n') {
            let j = s.index_of('\n');
            assert(s[j] == '\n');
        }
    }
}

/// The lines of `s`, each without its line ending.
pub fn lines(s: &str) -> (r: Vec<String>)
    ensures
        texts(r@) == lines_of(s@),
{
    let cs = to_chars(s);
    let n: usize = cs.len();
    let mut r: Vec<String> = Vec::new();
    let mut from: usize = 0;
    let mut i: usize = 0;
    proof {
        assert(cs@.skip(0) =~= cs@);
    }
    while i < n
        invariant
            n == cs@.len(),
            from <= i <= n,
            forall|j: int| from <= j < i ==> cs@[j] != '\n',
            texts(r@) + lines_of(cs@.skip(from as int)) == lines_of(cs@),
        decreases n - i,
    {
        if cs[i] == '\n' {
            let end: usize = if i > from && cs[i - 1] == '\r' {
                i - 1
            } else {
                i
            };
            let line = from_chars(vstd::slice::slice_subrange(cs.as_slice(), from, end));
            let ghost before = r@;
            let ghost rest = cs@.skip(from as int);
            r.push(line);
            proof {
                let k = i - from;
                lemma_index_of_char_unique(rest, '\n', k);
                assert(rest.skip(k + 1) =~= cs@.skip(i + 1));
                assert(without_cr(rest.take(k)) =~= cs@.subrange(from as int, end as int));
                assert(texts(r@) =~= texts(before).push(line@));
                assert(texts(before) + (seq![line@] + lines_of(cs@.skip(i + 1))) =~= texts(r@)
                    + lines_of(cs@.skip(i + 1)));
            }
            from = i + 1;
        }
        i += 1;
    }
    if from < n {
        let line = from_chars(vstd::slice::slice_subrange(cs.as_slice(), from, n));
        let ghost before = r@;
        r.push(line);
        proof {
            let rest = cs@.skip(from as int);
            lemma_index_of_char_unique(rest, '\n', rest.len() as int);
            assert(cs@.subrange(from as int, n as int) =~= rest);
            assert(texts(r@) =~= texts(before) + seq![rest]);
        }
    } else {
        proof {
            assert(cs@.skip(from as int) =~= Seq::<char>::empty());
            assert(texts(r@) =~= texts(r@) + Seq::<Seq<char>>::empty());
        }
    }
    r
}

/// The pieces of `s` between the characters `sep`.
pub open spec fn pieces_of(s: Seq<char>, sep: char) -> Seq<Seq<char>>
    decreases s.len(),
{
    let i = index_of_char(s, sep);
    if 0 <= i < s.len() {
        seq![s.take(i)] + pieces_of(s.skip(i + 1), sep)
    } else {
        seq![s]
    }
}

/// The pieces of `s` between the characters `sep`.
pub fn split_char(s: &str, sep: char) -> (r: Vec<String>)
    ensures
        texts(r@) == pieces_of(s@, sep),
        r@.len() > 0,
{
    let cs = to_chars(s);
    let n: usize = cs.len();
    let mut r: Vec<String> = Vec::new();
    let mut from: usize = 0;
    let mut i: usize = 0;
    proof {
        assert(cs@.skip(0) =~= cs@);
    }
    while i < n
        invariant
            n == cs@.len(),
            from <= i <= n,
            forall|j: int| from <= j < i ==> cs@[j] != sep,
            texts(r@) + pieces_of(cs@.skip(from as int), sep) == pieces_of(cs@, sep),
        decreases n - i,
    {
        if cs[i] == sep {
            let piece = from_chars(vstd::slice::slice_subrange(cs.as_slice(), from, i));
            let ghost before = r@;
            let ghost rest = cs@.skip(from as int);
            r.push(piece);
            proof {
                let k = i - from;
                lemma_index_of_char_unique(rest, sep, k);
                assert(rest.skip(k + 1) =~= cs@.skip(i + 1));
                assert(rest.take(k) =~= cs@.subrange(from as int, i as int));
                assert(texts(r@) =~= texts(before).push(piece@));
                assert(texts(before) + (seq![piece@] + pieces_of(cs@.skip(i + 1), sep)) =~= texts(
                    r@,
                ) + pieces_of(cs@.skip(i + 1), sep));
            }
            from = i + 1;
        }
        i += 1;
    }
    let piece = from_chars(vstd::slice::slice_subrange(cs.as_slice(), from, n));
    let ghost before = r@;
    r.push(piece);
    proof {
        let rest = cs@.skip(from as int);
        lemma_index_of_char_unique(rest, sep, rest.len() as int);
        assert(cs@.subrange(from as int, n as int) =~= rest);
        assert(texts(r@) =~= texts(before) + seq![rest]);
    }
    r
}

/// What follows the last `/` of `path`, or all of it without one.
pub open spec fn base_name(path: Seq<char>) -> Seq<char>
    decreases path.len(),
{
    if path.len() == 0 || path.last() == '/' {
        Seq::empty()
    } else {
        base_name(path.drop_last()).push(path.last())
    }
}

/// The base name of a path that ends in `/` and a name without one is the name.
pub proof fn lemma_base_name(path: Seq<char>, k: int)
    requires
        0 <= k <= path.len(),
        k == 0 || path[k - 1] == '/',
        forall|j: int| k <= j < path.len() ==> path[j] != '/',
    ensures
        base_name(path) == path.skip(k),
    decreases path.len(),
{
    if path.len() > 0 && path.last() != '/' {
        lemma_base_name(path.drop_last(), k);
        assert(path.drop_last().skip(k).push(path.last()) =~= path.skip(k));
    } else {
        assert(path.skip(k) =~= Seq::<char>::empty());
    }
}

/// What follows the last `/` of `path`, or all of it without one.
pub fn basename<'a>(path: &'a str) -> (r: &'a str)
    ensures
        r@ == base_name(path@),
{
    let cs = to_chars(path);
    let n: usize = cs.len();
    let mut k: usize = n;
    while k > 0 && cs[k - 1] != '/'
        invariant
            n == cs@.len(),
            k <= n,
            forall|j: int| k <= j < n ==> cs@[j] != '/',
        decreases k,
    {
        k -= 1;
    }
    proof {
        lemma_base_name(path@, k as int);
        assert(path@.subrange(k as int, n as int) =~= path@.skip(k as int));
    }
    path.substring_char(k, n)
}

// ---------------------------------------------------------------------------
// Building
// ---------------------------------------------------------------------------

/// ASCII letters in lower case, everything else as it is.
pub open spec fn lower_char(c: char) -> char {
    if 'A' <= c && c <= 'Z' {
        ((c as u32 + 32) as u32) as char
    } else {
        c
    }
}

/// `s` with its ASCII letters in lower case.
pub open spec fn lower(s: Seq<char>) -> Seq<char> {
    Seq::new(s.len(), |i: int| lower_char(s[i]))
}

/// `c` in lower case if it is an ASCII letter.
pub fn to_lower_char(c: char) -> (r: char)
    ensures
        r == lower_char(c),
{
    if 'A' <= c && c <= 'Z' {
        let u: u8 = c as u8;
        (u + 32) as char
    } else {
        c
    }
}

/// `s` with its ASCII letters in lower case.
pub fn to_lower(s: &str) -> (r: String)
    ensures
        r@ == lower(s@),
{
    let cs = to_chars(s);
    let mut r = String::new();
    let mut i: usize = 0;
    while i < cs.len()
        invariant
            i <= cs@.len(),
            r@ == lower(cs@).take(i as int),
        decreases cs@.len() - i,
    {
        r.push(to_lower_char(cs[i]));
        proof {
            assert(lower(cs@).take(i + 1) =~= lower(cs@).take(i as int).push(
                lower_char(cs@[i as int]),
            ));
        }
        i += 1;
    }
    proof {
        assert(lower(cs@).take(i as int) =~= lower(cs@));
    }
    r
}

/// The parts one after the other with `sep` between neighbours.
pub open spec fn joined(parts: Seq<Seq<char>>, sep: Seq<char>) -> Seq<char>
    decreases parts.len(),
{
    if parts.len() == 0 {
        Seq::empty()
    } else if parts.len() == 1 {
        parts[0]
    } else {
        joined(parts.drop_last(), sep) + sep + parts.last()
    }
}

/// The parts one after the other with `sep` between neighbours.
pub fn join(parts: &Vec<String>, sep: &str) -> (r: String)
    ensures
        r@ == joined(texts(parts@), sep@),
{
    let mut r = String::new();
    let mut i: usize = 0;
    while i < parts.len()
        invariant
            i <= parts@.len(),
            r@ == joined(texts(parts@).take(i as int), sep@),
        decreases parts@.len() - i,
    {
        let ghost all = texts(parts@);
        if i > 0 {
            r.append(sep);
        }
        r.append(parts[i].as_str());
        proof {
            assert(all.take(i + 1).drop_last() =~= all.take(i as int));
            assert(all.take(i + 1).last() == parts@[i as int]@);
            if i == 0 {
                assert(r@ =~= all[0]);
            }
        }
        i += 1;
    }
    proof {
        assert(texts(parts@).take(i as int) =~= texts(parts@));
    }
    r
}

/// The decimal digit of `d`.
pub open spec fn digit(d: nat) -> char {
    if d == 0 { '0' } else if d == 1 { '1' } else if d == 2 { '2' } else if d == 3 { '3'
    } else if d == 4 { '4' } else if d == 5 { '5' } else if d == 6 { '6' } else if d == 7 { '7'
    } else if d == 8 { '8' } else { '9' }
}

/// `n` in decimal.
pub open spec fn dec(n: nat) -> Seq<char>
    decreases n,
{
    if n < 10 {
        seq![digit(n)]
    } else {
        dec(n / 10).push(digit(n % 10))
    }
}

/// A number in decimal consists of digits.
pub(crate) proof fn lemma_dec_digits(n: nat)
    ensures
        dec(n).len() > 0,
        forall|i: int| 0 <= i < dec(n).len() ==> '0' <= #[trigger] dec(n)[i] <= '9',
    decreases n,
{
    if n >= 10 {
        lemma_dec_digits(n / 10);
        assert forall|i: int| 0 <= i < dec(n).len() implies '0' <= #[trigger] dec(n)[i] <= '9' by {
            if i < dec(n / 10).len() {
                assert(dec(n)[i] == dec(n / 10)[i]);
            }
        }
    }
}

/// `n` in decimal, with a minus sign if it is negative.
pub open spec fn dec_signed(n: int) -> Seq<char> {
    if n < 0 {
        seq!['-'] + dec((-n) as nat)
    } else {
        dec(n as nat)
    }
}

/// `n` in decimal, with a leading zero if it has one digit.
pub open spec fn dec_two(n: nat) -> Seq<char> {
    if n < 10 {
        seq!['0'] + dec(n)
    } else {
        dec(n)
    }
}

/// The lower-case hexadecimal digit of `d`.
pub open spec fn hex_digit(d: nat) -> char {
    if d < 10 {
        digit(d)
    } else if d == 10 { 'a' } else if d == 11 { 'b' } else if d == 12 { 'c' } else if d == 13 { 'd'
    } else if d == 14 { 'e' } else { 'f' }
}

/// `n` in lower-case hexadecimal.
pub open spec fn hex(n: nat) -> Seq<char>
    decreases n,
{
    if n < 16 {
        seq![hex_digit(n)]
    } else {
        hex(n / 16).push(hex_digit(n % 16))
    }
}

/// Appends `n` in lower-case hexadecimal to `out`.
pub fn push_hex(out: &mut String, n: u128)
    ensures
        final(out)@ == old(out)@ + hex(n as nat),
    decreases n,
{
    let ghost before = out@;
    if n >= 16 {
        push_hex(out, n / 16);
    }
    let d: u128 = n % 16;
    if d < 10 {
        out.push(digit_char(d));
    } else {
        out.push(
            if d == 10 { 'a' } else if d == 11 { 'b' } else if d == 12 { 'c' } else if d == 13 { 'd'
            } else if d == 14 { 'e' } else { 'f' },
        );
    }
    proof {
        assert(out@ =~= before + hex(n as nat));
    }
}

fn digit_char(d: u128) -> (c: char)
    requires
        d < 10,
    ensures
        c == digit(d as nat),
{
    if d == 0 { '0' } else if d == 1 { '1' } else if d == 2 { '2' } else if d == 3 { '3'
    } else if d == 4 { '4' } else if d == 5 { '5' } else if d == 6 { '6' } else if d == 7 { '7'
    } else if d == 8 { '8' } else { '9' }
}

/// Appends `n` in decimal to `out`.
pub fn push_dec(out: &mut String, n: u128)
    ensures
        final(out)@ == old(out)@ + dec(n as nat),
    decreases n,
{
    let ghost before = out@;
    if n >= 10 {
        push_dec(out, n / 10);
    }
    out.push(digit_char(n % 10));
    proof {
        assert(out@ =~= before + dec(n as nat));
    }
}

/// `n` in decimal.
pub fn show_dec(n: u128) -> (r: String)
    ensures
        r@ == dec(n as nat),
{
    let mut r = String::new();
    push_dec(&mut r, n);
    proof {
        assert(Seq::<char>::empty() + dec(n as nat) =~= dec(n as nat));
    }
    r
}

/// `n` in decimal, with a minus sign if it is negative.
pub fn show_signed(n: i64) -> (r: String)
    ensures
        r@ == dec_signed(n as int),
{
    if n < 0 {
        let mut r = String::new();
        r.push('-');
        let m: u128 = (-(n as i128)) as u128;
        push_dec(&mut r, m);
        proof {
            assert(Seq::<char>::empty().push('-') =~= seq!['-']);
        }
        r
    } else {
        show_dec(n as u128)
    }
}

/// Appends `n` in decimal, with a minus sign if it is negative.
pub fn push_signed(out: &mut String, n: i64)
    ensures
        final(out)@ == old(out)@ + dec_signed(n as int),
{
    let t = show_signed(n);
    out.append(t.as_str());
}

/// `n` in decimal, with a leading zero if it has one digit.
pub fn show_two(n: u128) -> (r: String)
    ensures
        r@ == dec_two(n as nat),
{
    if n < 10 {
        let mut r = String::new();
        r.push('0');
        push_dec(&mut r, n);
        proof {
            assert(Seq::<char>::empty().push('0') =~= seq!['0']);
        }
        r
    } else {
        show_dec(n)
    }
}

/// `s` with spaces after it, so that it has `width` characters at least.
pub open spec fn padded(s: Seq<char>, width: nat) -> Seq<char> {
    if s.len() >= width {
        s
    } else {
        s + Seq::new((width - s.len()) as nat, |i: int| ' ')
    }
}

/// `s` with spaces after it, so that it has `width` characters at least.
pub fn pad(s: &str, width: usize) -> (r: String)
    ensures
        r@ == padded(s@, width as nat),
{
    let n: usize = s.unicode_len();
    let mut r = s.to_string();
    let mut i: usize = n;
    proof {
        assert(s@ + Seq::new(0, |i: int| ' ') =~= s@);
    }
    while i < width
        invariant
            n == s@.len(),
            n <= i,
            i <= width || i == n,
            r@ == s@ + Seq::new((i - n) as nat, |i: int| ' '),
        decreases width - i,
    {
        r.push(' ');
        i += 1;
        proof {
            assert(r@ =~= s@ + Seq::new((i - n) as nat, |i: int| ' '));
        }
    }
    r
}

/// How many bytes a character takes in UTF-8.
pub open spec fn utf8_width(c: char) -> nat {
    if (c as u32) < 0x80 {
        1
    } else if (c as u32) < 0x800 {
        2
    } else if (c as u32) < 0x10000 {
        3
    } else {
        4
    }
}

/// The longest prefix of `s` that takes at most `max` bytes in UTF-8.
pub open spec fn utf8_prefix(s: Seq<char>, max: int) -> Seq<char>
    decreases s.len(),
{
    if s.len() == 0 || utf8_width(s[0]) > max {
        Seq::empty()
    } else {
        seq![s[0]] + utf8_prefix(s.skip(1), max - utf8_width(s[0]))
    }
}

/// The longest prefix of `s` that takes at most `max` bytes in UTF-8.
pub fn take_utf8(s: &str, max: usize) -> (r: String)
    ensures
        r@ == utf8_prefix(s@, max as int),
{
    let cs = to_chars(s);
    let mut r = String::new();
    let mut left: usize = max;
    let mut i: usize = 0;
    proof {
        assert(cs@.skip(0) =~= cs@);
        assert(utf8_prefix(s@, max as int) =~= r@ + utf8_prefix(cs@.skip(0), left as int));
    }
    while i < cs.len()
        invariant
            i <= cs@.len(),
            utf8_prefix(s@, max as int) == r@ + utf8_prefix(cs@.skip(i as int), left as int),
        decreases cs@.len() - i,
    {
        let c: char = cs[i];
        let u: u32 = c as u32;
        let w: usize = if u < 0x80 {
            1
        } else if u < 0x800 {
            2
        } else if u < 0x10000 {
            3
        } else {
            4
        };
        let ghost rest = cs@.skip(i as int);
        assert(rest[0] == c);
        if w > left {
            proof {
                assert(r@ + Seq::<char>::empty() =~= r@);
            }
            return r;
        }
        let ghost before = r@;
        r.push(c);
        left = left - w;
        i += 1;
        proof {
            assert(rest.skip(1) =~= cs@.skip(i as int));
            assert(before + (seq![c] + utf8_prefix(rest.skip(1), left as int)) =~= r@ + utf8_prefix(
                cs@.skip(i as int),
                left as int,
            ));
        }
    }
    proof {
        assert(cs@.skip(i as int) =~= Seq::<char>::empty());
        assert(r@ + Seq::<char>::empty() =~= r@);
    }
    r
}

/// Appends a line to a list of lines.
pub fn push_line(out: &mut Vec<String>, line: String)
    ensures
        texts(final(out)@) == texts(old(out)@).push(line@),
{
    let ghost before = out@;
    out.push(line);
    proof {
        assert(texts(out@) =~= texts(before).push(line@));
    }
}

} // verus!
