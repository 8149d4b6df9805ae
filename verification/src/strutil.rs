//! Verified string helpers: character classification, string equality
//! and the kebab-case to concatenated-capitalized name normalization
//! used by component resolution.

use vstd::prelude::*;

verus! {

/// The characters counted as whitespace when a text node is tested for
/// blankness: the Unicode white-space code points.
pub open spec fn is_space(c: char) -> bool {
    ||| c == '\u{0009}'
    ||| c == '\u{000A}'
    ||| c == '\u{000B}'
    ||| c == '\u{000C}'
    ||| c == '\u{000D}'
    ||| c == ' '
    ||| c == '\u{0085}'
    ||| c == '\u{00A0}'
    ||| c == '\u{1680}'
    ||| c == '\u{2000}'
    ||| c == '\u{2001}'
    ||| c == '\u{2002}'
    ||| c == '\u{2003}'
    ||| c == '\u{2004}'
    ||| c == '\u{2005}'
    ||| c == '\u{2006}'
    ||| c == '\u{2007}'
    ||| c == '\u{2008}'
    ||| c == '\u{2009}'
    ||| c == '\u{200A}'
    ||| c == '\u{2028}'
    ||| c == '\u{2029}'
    ||| c == '\u{202F}'
    ||| c == '\u{205F}'
    ||| c == '\u{3000}'
}

pub fn char_is_space(c: char) -> (r: bool)
    ensures
        r == is_space(c),
{
    match c {
        '\u{0009}' | '\u{000A}' | '\u{000B}' | '\u{000C}' | '\u{000D}' | ' ' | '\u{0085}'
            | '\u{00A0}' | '\u{1680}' | '\u{2000}' | '\u{2001}' | '\u{2002}' | '\u{2003}'
            | '\u{2004}' | '\u{2005}' | '\u{2006}' | '\u{2007}' | '\u{2008}' | '\u{2009}'
            | '\u{200A}' | '\u{2028}' | '\u{2029}' | '\u{202F}' | '\u{205F}' | '\u{3000}' => true,
        _ => false,
    }
}

/// A character sequence with nothing but whitespace in it; an empty
/// one counts.
pub open spec fn is_blank(s: Seq<char>) -> bool {
    forall|i: int| 0 <= i < s.len() ==> is_space(#[trigger] s[i])
}

/// Whether a string trims to empty.
pub fn str_is_blank(s: &str) -> (r: bool)
    ensures
        r == is_blank(s@),
{
    let len = s.unicode_len();
    let mut i: usize = 0;
    while i < len
        invariant
            0 <= i <= len,
            len == s@.len(),
            forall|j: int| 0 <= j < i ==> is_space(#[trigger] s@[j]),
        decreases len - i,
    {
        if !char_is_space(s.get_char(i)) {
            return false;
        }
        i = i + 1;
    }
    true
}

/// Character-exact string equality.
pub fn str_eq(a: &str, b: &str) -> (r: bool)
    ensures
        r == (a@ == b@),
{
    let alen = a.unicode_len();
    let blen = b.unicode_len();
    if alen != blen {
        assert(a@ != b@) by {
            assert(a@.len() != b@.len());
        }
        return false;
    }
    let mut i: usize = 0;
    while i < alen
        invariant
            0 <= i <= alen,
            alen == a@.len(),
            alen == b@.len(),
            forall|j: int| 0 <= j < i ==> a@[j] == #[trigger] b@[j],
        decreases alen - i,
    {
        if a.get_char(i) != b.get_char(i) {
            return false;
        }
        i = i + 1;
    }
    proof {
        assert(a@ =~= b@);
    }
    true
}

/// Whether the string holds a kebab-case dash.
pub fn str_contains_dash(s: &str) -> (r: bool)
    ensures
        r == s@.contains('-'),
{
    let len = s.unicode_len();
    let mut i: usize = 0;
    while i < len
        invariant
            0 <= i <= len,
            len == s@.len(),
            forall|j: int| 0 <= j < i ==> s@[j] != '-',
        decreases len - i,
    {
        if s.get_char(i) == '-' {
            assert(s@.contains('-'));
            return true;
        }
        i = i + 1;
    }
    assert(!s@.contains('-'));
    false
}

/// The Unicode uppercase mapping of one character, as
/// `char::to_uppercase` yields it: one or more characters, a function
/// of the character alone.
pub uninterp spec fn uppercase_of(c: char) -> Seq<char>;

/// Relies on `char::to_uppercase`: yields the Unicode uppercase
/// mapping of the character as one or more characters, depending on
/// the character alone.
#[verifier::external_body]
fn char_uppercase(c: char) -> (r: Vec<char>)
    ensures
        r@ == uppercase_of(c),
        r@.len() >= 1,
{
    c.to_uppercase().collect::<Vec<char>>()
}

/// Concatenated-capitalized form of a character sequence: dashes are
/// dropped and the first character of each dash-separated segment is
/// replaced by its Unicode uppercase mapping.
pub open spec fn norm_rec(s: Seq<char>, at_word_start: bool) -> Seq<char>
    decreases s.len(),
{
    if s.len() == 0 {
        Seq::empty()
    } else if s[0] == '-' {
        norm_rec(s.drop_first(), true)
    } else if at_word_start {
        uppercase_of(s[0]) + norm_rec(s.drop_first(), false)
    } else {
        seq![s[0]] + norm_rec(s.drop_first(), false)
    }
}

/// The searched form of a tag name: kebab-case names are normalized,
/// names without a dash pass unchanged.
pub open spec fn normalize_tag(s: Seq<char>) -> Seq<char> {
    if s.contains('-') {
        norm_rec(s, true)
    } else {
        s
    }
}

/// Builds the normalized form of a kebab-case tag name.
fn normalized_chars(tag: &str) -> (r: Vec<char>)
    ensures
        r@ == norm_rec(tag@, true),
{
    let len = tag.unicode_len();
    let mut out: Vec<char> = Vec::new();
    let mut ti: usize = 0;
    let mut at_word_start: bool = true;
    proof {
        assert(tag@.skip(0) =~= tag@);
        assert(out@ + norm_rec(tag@, true) =~= norm_rec(tag@, true));
    }
    while ti < len
        invariant
            0 <= ti <= len,
            len == tag@.len(),
            out@ + norm_rec(tag@.skip(ti as int), at_word_start) == norm_rec(tag@, true),
        decreases len - ti,
    {
        let c = tag.get_char(ti);
        proof {
            assert(tag@.skip(ti as int).len() > 0);
            assert(tag@.skip(ti as int)[0] == c);
            assert(tag@.skip(ti as int).drop_first() =~= tag@.skip(ti as int + 1));
        }
        if c == '-' {
            at_word_start = true;
        } else if at_word_start {
            let ghost rest = norm_rec(tag@.skip(ti as int + 1), false);
            let ghost out0 = out@;
            let ups = char_uppercase(c);
            let m = ups.len();
            let mut u: usize = 0;
            proof {
                assert(out@ =~= out0 + ups@.take(0));
            }
            while u < m
                invariant
                    0 <= u <= m,
                    m == ups@.len(),
                    out@ == out0 + ups@.take(u as int),
                decreases m - u,
            {
                out.push(ups[u]);
                proof {
                    assert(ups@.take(u as int + 1) =~= ups@.take(u as int).push(ups@[u as int]));
                    assert(out0 + ups@.take(u as int + 1) =~= (out0 + ups@.take(u as int)).push(
                        ups@[u as int],
                    ));
                }
                u = u + 1;
            }
            proof {
                assert(ups@.take(m as int) =~= ups@);
                assert((out0 + ups@) + rest =~= out0 + (ups@ + rest));
            }
            at_word_start = false;
        } else {
            let ghost rest = norm_rec(tag@.skip(ti as int + 1), false);
            let ghost out0 = out@;
            out.push(c);
            proof {
                assert(out0.push(c) + rest =~= out0 + (seq![c] + rest));
            }
        }
        ti = ti + 1;
    }
    proof {
        assert(tag@.skip(ti as int) =~= Seq::<char>::empty());
        assert(out@ + Seq::<char>::empty() =~= out@);
    }
    out
}

/// Character-exact comparison of a character vector against a string.
fn chars_eq_str(v: &Vec<char>, s: &str) -> (r: bool)
    ensures
        r == (v@ == s@),
{
    let n = s.unicode_len();
    if v.len() != n {
        assert(v@ != s@) by {
            assert(v@.len() != s@.len());
        }
        return false;
    }
    let mut i: usize = 0;
    while i < n
        invariant
            0 <= i <= n,
            n == s@.len(),
            n == v@.len(),
            forall|j: int| 0 <= j < i ==> v@[j] == #[trigger] s@[j],
        decreases n - i,
    {
        if v[i] != s.get_char(i) {
            return false;
        }
        i = i + 1;
    }
    proof {
        assert(v@ =~= s@);
    }
    true
}

/// Whether the normalized form of `tag` is exactly `name`.
pub fn matches_normalized(tag: &str, name: &str) -> (r: bool)
    ensures
        r == (norm_rec(tag@, true) == name@),
{
    let nc = normalized_chars(tag);
    chars_eq_str(&nc, name)
}

} // verus!
