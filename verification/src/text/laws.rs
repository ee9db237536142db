//! Laws of texts: numbers, letters, pieces and cuts.

use vstd::prelude::*;

use crate::text;
use crate::text::CharClass;

verus! {

// ---------------------------------------------------------------------------
// Numbers
// ---------------------------------------------------------------------------

/// The number that a digit stands for.
pub open spec fn digit_value(c: char) -> nat {
    if '0' <= c && c <= '9' {
        (c as u32 - '0' as u32) as nat
    } else if 'a' <= c && c <= 'f' {
        (c as u32 - 'a' as u32 + 10) as nat
    } else {
        0
    }
}

/// The number that digits of `base` stand for, the greatest place first.
pub open spec fn value(s: Seq<char>, base: nat) -> nat
    decreases s.len(),
{
    if s.len() == 0 {
        0
    } else {
        value(s.drop_last(), base) * base + digit_value(s.last())
    }
}

/// Decimal digits read back as the number that was written, and a number takes
/// no more digits than it needs.
pub proof fn lemma_dec(n: nat)
    ensures
        value(text::dec(n), 10) == n,
        text::dec(n).len() > 0,
        forall|i: int|
            0 <= i < text::dec(n).len() ==> '0' <= #[trigger] text::dec(n)[i] && text::dec(n)[i]
                <= '9',
        n > 0 ==> text::dec(n)[0] != '0',
        n < 10 ==> text::dec(n).len() == 1,
        10 <= n < 100 ==> text::dec(n).len() == 2,
    decreases n,
{
    reveal_with_fuel(value, 3);
    if n < 10 {
        assert(text::dec(n) =~= seq![text::digit(n)]);
        assert(text::dec(n).drop_last() =~= Seq::<char>::empty());
    } else {
        lemma_dec(n / 10);
        let front = text::dec(n / 10);
        let all = text::dec(n);
        assert(all =~= front.push(text::digit(n % 10)));
        assert(all.drop_last() =~= front);
        assert(value(all, 10) == value(front, 10) * 10 + digit_value(text::digit(n % 10)));
        assert(digit_value(text::digit(n % 10)) == n % 10);
        assert(all[0] == front[0]);
        assert forall|i: int| 0 <= i < all.len() implies '0' <= #[trigger] all[i] && all[i]
            <= '9' by {
            if i < front.len() {
                assert(all[i] == front[i]);
            }
        }
    }
}

/// Two numbers with the same digits are the same.
pub proof fn lemma_dec_tells(a: nat, b: nat)
    requires
        text::dec(a) == text::dec(b),
    ensures
        a == b,
{
    lemma_dec(a);
    lemma_dec(b);
}

/// A negative number has a minus sign in front of its digits, and no other has.
pub proof fn lemma_dec_signed(n: int)
    ensures
        n < 0 <==> text::dec_signed(n)[0] == '-',
        n >= 0 ==> value(text::dec_signed(n), 10) == n,
        n < 0 ==> value(text::dec_signed(n).skip(1), 10) == -n,
{
    if n < 0 {
        lemma_dec((-n) as nat);
        assert(text::dec_signed(n).skip(1) =~= text::dec((-n) as nat));
    } else {
        lemma_dec(n as nat);
        assert('0' <= text::dec(n as nat)[0]);
    }
}

/// Numbers below a hundred take two digits where two are asked for.
pub proof fn lemma_dec_two(n: nat)
    ensures
        value(text::dec_two(n), 10) == n,
        n < 100 ==> text::dec_two(n).len() == 2,
{
    lemma_dec(n);
    if n < 10 {
        reveal_with_fuel(value, 3);
        let s = text::dec_two(n);
        assert(s =~= seq!['0', text::digit(n)]);
        assert(s.drop_last() =~= seq!['0']);
        assert(seq!['0'].drop_last() =~= Seq::<char>::empty());
    }
}

/// Hexadecimal digits read back as the number that was written.
pub proof fn lemma_hex(n: nat)
    ensures
        value(text::hex(n), 16) == n,
        text::hex(n).len() > 0,
        n > 0 ==> text::hex(n)[0] != '0',
        !text::hex(n).contains('/'),
    decreases n,
{
    reveal_with_fuel(value, 3);
    if n < 16 {
        assert(text::hex(n) =~= seq![text::hex_digit(n)]);
        assert(text::hex(n).drop_last() =~= Seq::<char>::empty());
    } else {
        lemma_hex(n / 16);
        let front = text::hex(n / 16);
        let all = text::hex(n);
        assert(all =~= front.push(text::hex_digit(n % 16)));
        assert(all.drop_last() =~= front);
        assert(digit_value(text::hex_digit(n % 16)) == n % 16);
        assert(all[0] == front[0]);
        assert forall|i: int| 0 <= i < all.len() implies all[i] != '/' by {
            if i < front.len() {
                assert(all[i] == front[i]);
                assert(front.contains(front[i]));
            }
        }
    }
}

// ---------------------------------------------------------------------------
// Letters and order
// ---------------------------------------------------------------------------

/// Only the letters A to Z change when a text is put in lower case: each becomes
/// the small letter 32 places on.
pub proof fn lemma_lower(a: Seq<char>, b: Seq<char>, i: int)
    ensures
        text::lower(a).len() == a.len(),
        0 <= i < a.len() && 'A' <= a[i] && a[i] <= 'Z' ==> text::lower(a)[i] as u32 == a[i] as u32
            + 32,
        0 <= i < a.len() && !('A' <= a[i] && a[i] <= 'Z') ==> text::lower(a)[i] == a[i],
        text::lower(text::lower(a)) == text::lower(a),
        text::lower(a + b) == text::lower(a) + text::lower(b),
{
    assert(text::lower(text::lower(a)) =~= text::lower(a));
    assert(text::lower(a + b) =~= text::lower(a) + text::lower(b));
}

/// Texts are ordered by the first character in which they differ, and a text
/// comes before its continuations.
pub proof fn lemma_order(p: Seq<char>, x: char, a: Seq<char>, y: char, b: Seq<char>)
    ensures
        x < y ==> text::lt(p + seq![x] + a, p + seq![y] + b),
        text::lt(p, p + seq![x] + a),
        !text::lt(p + seq![x] + a, p),
    decreases p.len(),
{
    let u = p + seq![x] + a;
    let v = p + seq![y] + b;
    if p.len() > 0 {
        let q = p.drop_first();
        lemma_order(q, x, a, y, b);
        assert(u.drop_first() =~= q + seq![x] + a);
        assert(v.drop_first() =~= q + seq![y] + b);
        assert(u[0] == p[0] && v[0] == p[0]);
    } else {
        assert(u[0] == x && v[0] == y);
    }
}

/// Spaces, tabs and the ends of lines are white space. No visible character of
/// ASCII is.
pub proof fn lemma_white_space(c: char)
    ensures
        c == ' ' || c == '\t' || c == '\n' || c == '\r' ==> CharClass::WhiteSpace.has_char(c),
        0x21 <= c as u32 <= 0x7E ==> !CharClass::WhiteSpace.has_char(c),
{
}

/// Trimming keeps a text that neither begins nor ends with white space, whatever
/// white space is around it.
pub proof fn lemma_trimmed(v: Seq<char>, s: Seq<char>, w: Seq<char>)
    requires
        text::all_in(v, CharClass::WhiteSpace),
        text::all_in(w, CharClass::WhiteSpace),
        s.len() > 0,
        !text::is_white_space(s[0]),
        !text::is_white_space(s.last()),
    ensures
        text::trimmed(v + s + w) == s,
        text::trimmed(v).len() == 0,
{
    text::lemma_strip_both(v, s, w, CharClass::WhiteSpace);
    let none = Seq::<char>::empty();
    assert(v + none =~= v);
    text::lemma_strip_front(v, none, CharClass::WhiteSpace);
}

// ---------------------------------------------------------------------------
// Pieces
// ---------------------------------------------------------------------------

proof fn lemma_joined_first(first: Seq<char>, rest: Seq<Seq<char>>, sep: Seq<char>)
    requires
        rest.len() > 0,
    ensures
        text::joined(seq![first] + rest, sep) == first + sep + text::joined(rest, sep),
    decreases rest.len(),
{
    let all = seq![first] + rest;
    assert(all.last() == rest.last());
    assert(all.drop_last() =~= seq![first] + rest.drop_last());
    if rest.len() == 1 {
        assert(rest.drop_last() =~= Seq::<Seq<char>>::empty());
        assert(all.drop_last() =~= seq![first]);
        assert(text::joined(all.drop_last(), sep) == first);
        assert(text::joined(rest, sep) == rest[0]);
    } else {
        lemma_joined_first(first, rest.drop_last(), sep);
        assert(text::joined(all, sep) =~= first + sep + (text::joined(rest.drop_last(), sep) + sep
            + rest.last()));
    }
}

/// The pieces between separators hold no separator, and put together again they
/// are the whole.
pub proof fn lemma_pieces(s: Seq<char>, sep: char)
    ensures
        text::joined(text::pieces_of(s, sep), seq![sep]) == s,
        text::pieces_of(s, sep).len() > 0,
        forall|i: int|
            0 <= i < text::pieces_of(s, sep).len() ==> !(#[trigger] text::pieces_of(
                s,
                sep,
            )[i]).contains(sep),
    decreases s.len(),
{
    let i = text::index_of_char(s, sep);
    text::lemma_index_of_char(s, sep);
    let all = text::pieces_of(s, sep);
    if 0 <= i < s.len() {
        let rest = text::pieces_of(s.skip(i + 1), sep);
        lemma_pieces(s.skip(i + 1), sep);
        assert(all == seq![s.take(i)] + rest);
        lemma_joined_first(s.take(i), rest, seq![sep]);
        assert(s.take(i) + seq![sep] + s.skip(i + 1) =~= s);
        assert forall|k: int| 0 <= k < all.len() implies !(#[trigger] all[k]).contains(sep) by {
            if k > 0 {
                assert(all[k] == rest[k - 1]);
            }
        }
    } else {
        assert(all == seq![s]);
    }
}

/// Texts without the separator are the pieces of what they are joined to.
pub proof fn lemma_joined_pieces(parts: Seq<Seq<char>>, sep: char)
    requires
        parts.len() > 0,
        forall|i: int| 0 <= i < parts.len() ==> !(#[trigger] parts[i]).contains(sep),
    ensures
        text::pieces_of(text::joined(parts, seq![sep]), sep) == parts,
    decreases parts.len(),
{
    let s = text::joined(parts, seq![sep]);
    let i = text::index_of_char(s, sep);
    text::lemma_index_of_char(s, sep);
    assert(!parts[0].contains(sep));
    if parts.len() == 1 {
        assert(s == parts[0]);
        assert(parts =~= seq![s]);
    } else {
        let rest = parts.drop_first();
        assert forall|k: int| 0 <= k < rest.len() implies !(#[trigger] rest[k]).contains(sep) by {
            assert(rest[k] == parts[k + 1]);
        }
        lemma_joined_pieces(rest, sep);
        assert(parts =~= seq![parts[0]] + rest);
        lemma_joined_first(parts[0], rest, seq![sep]);
        let n = parts[0].len();
        assert(s[n as int] == sep);
        if i < n {
            assert(s[i] == parts[0][i]);
        }
        assert(i == n);
        assert(s.take(i) =~= parts[0]);
        assert(s.skip(i + 1) =~= text::joined(rest, seq![sep]));
    }
}

/// Joined texts stand in order with the separator between each two.
pub proof fn lemma_joined(a: Seq<Seq<char>>, b: Seq<Seq<char>>, sep: Seq<char>)
    ensures
        a.len() > 0 && b.len() > 0 ==> text::joined(a + b, sep) == text::joined(a, sep) + sep
            + text::joined(b, sep),
        a.len() == 1 ==> text::joined(a, sep) == a[0],
        a.len() == 0 ==> text::joined(a, sep).len() == 0,
    decreases b.len(),
{
    if a.len() > 0 && b.len() > 0 {
        assert((a + b).last() == b.last());
        assert((a + b).drop_last() =~= a + b.drop_last());
        if b.len() == 1 {
            assert(a + b.drop_last() =~= a);
        } else {
            lemma_joined(a, b.drop_last(), sep);
            assert(text::joined(a + b, sep) =~= text::joined(a, sep) + sep + (text::joined(
                b.drop_last(),
                sep,
            ) + sep + b.last()));
        }
    }
}

/// The base name of a path is what follows its last slash.
pub proof fn lemma_base_name_below(dir: Seq<char>, name: Seq<char>)
    requires
        !name.contains('/'),
    ensures
        text::base_name(dir + "/"@ + name) == name,
        text::base_name(name) == name,
{
    reveal_strlit("/");
    let path = dir + "/"@ + name;
    let k = dir.len() + 1;
    assert forall|j: int| k <= j < path.len() implies path[j] != '/' by {
        assert(path[j] == name[j - k]);
        assert(name.contains(name[j - k]));
    }
    text::lemma_base_name(path, k as int);
    assert(path.skip(k as int) =~= name);
    assert forall|j: int| 0 <= j < name.len() implies name[j] != '/' by {
        assert(name.contains(name[j]));
    }
    text::lemma_base_name(name, 0);
    assert(name.skip(0) =~= name);
}

// ---------------------------------------------------------------------------
// Cuts and columns
// ---------------------------------------------------------------------------

/// A padded text begins with the text, is as wide as asked for, and has nothing
/// but spaces behind it.
pub proof fn lemma_padded(s: Seq<char>, width: nat, i: int)
    ensures
        s.is_prefix_of(text::padded(s, width)),
        text::padded(s, width).len() == if s.len() < width {
            width
        } else {
            s.len()
        },
        s.len() <= i < text::padded(s, width).len() ==> text::padded(s, width)[i] == ' ',
{
    assert(s.is_prefix_of(text::padded(s, width))) by {
        assert(text::padded(s, width).subrange(0, s.len() as int) =~= s);
    }
}

/// How many bytes a text takes in UTF-8.
pub open spec fn utf8_len(s: Seq<char>) -> nat
    decreases s.len(),
{
    if s.len() == 0 {
        0
    } else {
        text::utf8_width(s[0]) + utf8_len(s.skip(1))
    }
}

/// A text cut to a number of bytes is its longest beginning that fits.
pub proof fn lemma_utf8_prefix(s: Seq<char>, max: int)
    requires
        max >= 0,
    ensures
        ({
            let t = text::utf8_prefix(s, max);
            &&& t.len() <= s.len()
            &&& t == s.take(t.len() as int)
            &&& utf8_len(t) <= max
            &&& t.len() < s.len() ==> utf8_len(t) + text::utf8_width(s[t.len() as int]) > max
        }),
    decreases s.len(),
{
    let t = text::utf8_prefix(s, max);
    if s.len() == 0 || text::utf8_width(s[0]) > max {
        assert(t =~= s.take(0));
    } else {
        let w = text::utf8_width(s[0]);
        let u = text::utf8_prefix(s.skip(1), max - w);
        lemma_utf8_prefix(s.skip(1), max - w);
        assert(t == seq![s[0]] + u);
        assert(t.skip(1) =~= u);
        assert(t =~= s.take(t.len() as int));
        if t.len() < s.len() {
            assert(s.skip(1)[u.len() as int] == s[t.len() as int]);
        }
    }
}

/// Of a text of ASCII characters each takes one byte.
pub proof fn lemma_ascii_prefix(s: Seq<char>, max: int)
    requires
        forall|i: int| 0 <= i < s.len() ==> (#[trigger] s[i]) as u32 <= 0x7F,
        0 <= max <= s.len(),
    ensures
        text::utf8_prefix(s, max) == s.take(max),
    decreases s.len(),
{
    if max == 0 {
        assert(s.take(0) =~= Seq::<char>::empty());
        if s.len() > 0 {
            assert(s[0] as u32 <= 0x7F);
        }
    } else {
        assert(s[0] as u32 <= 0x7F);
        let rest = s.skip(1);
        assert forall|i: int| 0 <= i < rest.len() implies (#[trigger] rest[i]) as u32 <= 0x7F by {
            assert(rest[i] == s[i + 1]);
        }
        lemma_ascii_prefix(rest, max - 1);
        assert(seq![s[0]] + rest.take(max - 1) =~= s.take(max));
    }
}

/// White space is the twenty-five characters that Unicode counts as such.
pub proof fn lemma_all_white_space(c: char)
    ensures
        CharClass::WhiteSpace.has_char(c) <==> seq![
            '\u{9}',
            '\u{a}',
            '\u{b}',
            '\u{c}',
            '\u{d}',
            '\u{20}',
            '\u{85}',
            '\u{a0}',
            '\u{1680}',
            '\u{2000}',
            '\u{2001}',
            '\u{2002}',
            '\u{2003}',
            '\u{2004}',
            '\u{2005}',
            '\u{2006}',
            '\u{2007}',
            '\u{2008}',
            '\u{2009}',
            '\u{200a}',
            '\u{2028}',
            '\u{2029}',
            '\u{202f}',
            '\u{205f}',
            '\u{3000}',
        ].contains(c),
{
    let all = seq![
        '\u{9}',
        '\u{a}',
        '\u{b}',
        '\u{c}',
        '\u{d}',
        '\u{20}',
        '\u{85}',
        '\u{a0}',
        '\u{1680}',
        '\u{2000}',
        '\u{2001}',
        '\u{2002}',
        '\u{2003}',
        '\u{2004}',
        '\u{2005}',
        '\u{2006}',
        '\u{2007}',
        '\u{2008}',
        '\u{2009}',
        '\u{200a}',
        '\u{2028}',
        '\u{2029}',
        '\u{202f}',
        '\u{205f}',
        '\u{3000}',
    ];
    let u = c as u32;
    if CharClass::WhiteSpace.has_char(c) {
        let i: int = if u <= 0xD {
            u - 9
        } else if u == 0x20 {
            5
        } else if u == 0x85 {
            6
        } else if u == 0xA0 {
            7
        } else if u == 0x1680 {
            8
        } else if u <= 0x200A {
            u - 0x2000 + 9
        } else if u == 0x2028 {
            20
        } else if u == 0x2029 {
            21
        } else if u == 0x202F {
            22
        } else if u == 0x205F {
            23
        } else {
            24
        };
        assert(all[i] == c);
    }
}

} // verus!
