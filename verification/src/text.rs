//! Characters, tokens and words: the text-level rules of normalization.

use vstd::prelude::*;
use vstd::string::*;

verus! {

/// The ASCII punctuation characters: `!"#$%&'()*+,-./`, `:;<=>?@`, ``[\]^_` `` and `{|}~`.
pub open spec fn is_ascii_punctuation(c: char) -> bool {
    let n = c as u32;
    33 <= n <= 47 || 58 <= n <= 64 || 91 <= n <= 96 || 123 <= n <= 126
}

/// The characters with the Unicode property `White_Space`.
pub open spec fn is_whitespace(c: char) -> bool {
    let n = c as u32;
    9 <= n <= 13 || n == 0x20 || n == 0x85 || n == 0xA0 || n == 0x1680 || 0x2000 <= n <= 0x200A
        || n == 0x2028 || n == 0x2029 || n == 0x202F || n == 0x205F || n == 0x3000
}

pub fn char_is_ascii_punctuation(c: char) -> (r: bool)
    ensures
        r == is_ascii_punctuation(c),
{
    ('!' <= c && c <= '/') || (':' <= c && c <= '@') || ('[' <= c && c <= '`') || ('{' <= c && c
        <= '~')
}

pub fn char_is_whitespace(c: char) -> (r: bool)
    ensures
        r == is_whitespace(c),
{
    ('\u{9}' <= c && c <= '\u{D}') || c == ' ' || c == '\u{85}' || c == '\u{A0}' || c == '\u{1680}'
        || ('\u{2000}' <= c && c <= '\u{200A}') || c == '\u{2028}' || c == '\u{2029}' || c
        == '\u{202F}' || c == '\u{205F}' || c == '\u{3000}'
}

/// `s` without its leading run of ASCII punctuation.
pub open spec fn trim_leading_punctuation(s: Seq<char>) -> Seq<char>
    decreases s.len(),
{
    if s.len() > 0 && is_ascii_punctuation(s.first()) {
        trim_leading_punctuation(s.drop_first())
    } else {
        s
    }
}

/// `s` without its trailing run of ASCII punctuation.
pub open spec fn trim_trailing_punctuation(s: Seq<char>) -> Seq<char>
    decreases s.len(),
{
    if s.len() > 0 && is_ascii_punctuation(s.last()) {
        trim_trailing_punctuation(s.drop_last())
    } else {
        s
    }
}

/// `s` without the ASCII punctuation at either end. Punctuation inside the word stays.
pub open spec fn without_surrounding_punctuation(s: Seq<char>) -> Seq<char> {
    trim_trailing_punctuation(trim_leading_punctuation(s))
}

pub open spec fn all_punctuation(s: Seq<char>) -> bool {
    forall|i: int| 0 <= i < s.len() ==> is_ascii_punctuation(#[trigger] s[i])
}

/// Appends one character with `String::push`, which adds exactly that character at the end.
#[verifier::external_body]
pub(crate) fn push_char(s: &mut String, c: char)
    ensures
        final(s)@ == old(s)@.push(c),
{
    s.push(c)
}

/// The characters of a string, in order.
pub fn chars_of(s: &str) -> (v: Vec<char>)
    ensures
        v@ == s@,
{
    let mut v: Vec<char> = Vec::new();
    for c in it: s.chars()
        invariant
            v@ == it.seq().take(it.index() as int),
            it.seq() == s@,
    {
        v.push(c);
    }
    v
}

/// The string made of `chars[from..to]`.
pub fn string_of(chars: &Vec<char>, from: usize, to: usize) -> (s: String)
    requires
        from <= to <= chars.len(),
    ensures
        s@ == chars@.subrange(from as int, to as int),
{
    let mut s = String::new();
    let mut i: usize = from;
    while i < to
        invariant
            from <= i <= to <= chars.len(),
            s@ == chars@.subrange(from as int, i as int),
        decreases to - i,
    {
        push_char(&mut s, chars[i]);
        i += 1;
    }
    s
}

/// Whether two strings hold the same characters.
pub fn same_text(a: &str, b: &str) -> (r: bool)
    ensures
        r == (a@ == b@),
{
    let x = chars_of(a);
    let y = chars_of(b);
    if x.len() != y.len() {
        return false;
    }
    let mut i: usize = 0;
    while i < x.len()
        invariant
            i <= x.len() == y.len(),
            x@ == a@,
            y@ == b@,
            x@.take(i as int) == y@.take(i as int),
        decreases x.len() - i,
    {
        if x[i] != y[i] {
            assert(a@[i as int] != b@[i as int]);
            return false;
        }
        assert(x@.take(i + 1) == x@.take(i as int).push(x@[i as int]));
        assert(y@.take(i + 1) == y@.take(i as int).push(y@[i as int]));
        i += 1;
    }
    assert(x@ == x@.take(x.len() as int));
    assert(y@ == y@.take(y.len() as int));
    true
}

/// The whitespace-delimited tokens of `s`, in order: each one as the index of its first
/// character and the index just after its last one.
pub open spec fn tokens(s: Seq<char>) -> Seq<(int, int)>
    decreases s.len(),
{
    if s.len() == 0 {
        Seq::empty()
    } else {
        let before = tokens(s.drop_last());
        let i = s.len() - 1;
        if is_whitespace(s.last()) {
            before
        } else if i > 0 && !is_whitespace(s[i - 1]) {
            before.drop_last().push((before.last().0, i + 1))
        } else {
            before.push((i, i + 1))
        }
    }
}

/// Whether `s[a..b]` is a token: a run of characters without whitespace, as long as it can be.
pub open spec fn is_token(s: Seq<char>, a: int, b: int) -> bool {
    &&& 0 <= a < b <= s.len()
    &&& forall|i: int| a <= i < b ==> !is_whitespace(#[trigger] s[i])
    &&& a == 0 || is_whitespace(s[a - 1])
    &&& b == s.len() || is_whitespace(s[b])
}

/// The tokens are exactly the runs of characters between whitespace, and they come in the
/// order in which they stand in the text.
pub proof fn lemma_tokens(s: Seq<char>)
    ensures
        forall|k: int| 0 <= k < tokens(s).len() ==> is_token(s, (#[trigger] tokens(s)[k]).0, tokens(s)[k].1),
        forall|k: int, l: int|
            0 <= k < l < tokens(s).len() ==> (#[trigger] tokens(s)[k]).1 < (#[trigger] tokens(
                s,
            )[l]).0,
        forall|a: int, b: int| is_token(s, a, b) ==> tokens(s).contains((a, b)),
        s.len() > 0 && !is_whitespace(s.last()) ==> tokens(s).len() > 0 && tokens(s).last().1
            == s.len(),
    decreases s.len(),
{
    if s.len() > 0 {
        let t = s.drop_last();
        let i = s.len() - 1;
        let before = tokens(t);
        let now = tokens(s);
        lemma_tokens(t);
        assert forall|k: int| 0 <= k < before.len() implies (#[trigger] before[k]).1 <= i by {
            assert(is_token(t, before[k].0, before[k].1));
        }
        if is_whitespace(s.last()) {
            assert forall|k: int| 0 <= k < now.len() implies is_token(
                s,
                (#[trigger] now[k]).0,
                now[k].1,
            ) by {
                assert(is_token(t, before[k].0, before[k].1));
                assert forall|j: int| now[k].0 <= j < now[k].1 implies !is_whitespace(
                    #[trigger] s[j],
                ) by {
                    assert(s[j] == t[j]);
                }
            }
            assert forall|a: int, b: int| is_token(s, a, b) implies now.contains((a, b)) by {
                assert forall|j: int| a <= j < b implies !is_whitespace(#[trigger] t[j]) by {
                    assert(s[j] == t[j]);
                }
                assert(is_token(t, a, b));
            }
        } else if i > 0 && !is_whitespace(s[i - 1]) {
            assert(t.last() == s[i - 1]);
            let n = before.len() - 1;
            assert(is_token(t, before[n].0, before[n].1));
            assert forall|k: int| 0 <= k < now.len() implies is_token(
                s,
                (#[trigger] now[k]).0,
                now[k].1,
            ) by {
                if k < n {
                    assert(now[k] == before[k]);
                    assert(is_token(t, before[k].0, before[k].1));
                    assert(before[k].1 < before[n].0);
                    assert forall|j: int| now[k].0 <= j < now[k].1 implies !is_whitespace(
                        #[trigger] s[j],
                    ) by {
                        assert(s[j] == t[j]);
                    }
                    assert(s[before[k].1] == t[before[k].1]);
                } else {
                    assert forall|j: int| now[k].0 <= j < now[k].1 implies !is_whitespace(
                        #[trigger] s[j],
                    ) by {
                        if j < i {
                            assert(s[j] == t[j]);
                        }
                    }
                }
            }
            assert forall|k: int, l: int| 0 <= k < l < now.len() implies (#[trigger] now[k]).1 < (
            #[trigger] now[l]).0 by {
                assert(now[k] == before[k]);
                assert(before[k].1 < before[l].0);
            }
            assert forall|a: int, b: int| is_token(s, a, b) implies now.contains((a, b)) by {
                if b == s.len() {
                    assert forall|j: int| a <= j < i implies !is_whitespace(#[trigger] t[j]) by {
                        assert(s[j] == t[j]);
                    }
                    assert(is_token(t, a, i));
                    let k = choose|k: int| 0 <= k < before.len() && before[k] == (a, i);
                    if k < n {
                        assert(before[k].1 < before[n].0);
                    }
                    assert(now[n] == (a, b));
                } else {
                    assert forall|j: int| a <= j < b implies !is_whitespace(#[trigger] t[j]) by {
                        assert(s[j] == t[j]);
                    }
                    assert(s[b] == t[b]);
                    assert(is_token(t, a, b));
                    let k = choose|k: int| 0 <= k < before.len() && before[k] == (a, b);
                    assert(now[k] == (a, b));
                }
            }
        } else {
            assert forall|k: int| 0 <= k < now.len() implies is_token(
                s,
                (#[trigger] now[k]).0,
                now[k].1,
            ) by {
                if k < before.len() {
                    assert(now[k] == before[k]);
                    assert(is_token(t, before[k].0, before[k].1));
                    assert forall|j: int| now[k].0 <= j < now[k].1 implies !is_whitespace(
                        #[trigger] s[j],
                    ) by {
                        assert(s[j] == t[j]);
                    }
                    if before[k].1 < i {
                        assert(s[before[k].1] == t[before[k].1]);
                    } else {
                        assert(t[before[k].1 - 1] == s[i - 1]);
                    }
                }
            }
            assert forall|k: int, l: int| 0 <= k < l < now.len() implies (#[trigger] now[k]).1 < (
            #[trigger] now[l]).0 by {
                assert(now[k] == before[k]);
                assert(is_token(t, before[k].0, before[k].1));
                if l < before.len() {
                    assert(before[k].1 < before[l].0);
                } else {
                    if before[k].1 == i {
                        assert(t[before[k].1 - 1] == s[i - 1]);
                    }
                }
            }
            assert forall|a: int, b: int| is_token(s, a, b) implies now.contains((a, b)) by {
                if b == s.len() {
                    if a < i {
                        assert(!is_whitespace(s[i - 1]));
                    }
                    assert(now[before.len() as int] == (a, b));
                } else {
                    assert forall|j: int| a <= j < b implies !is_whitespace(#[trigger] t[j]) by {
                        assert(s[j] == t[j]);
                    }
                    assert(s[b] == t[b]);
                    assert(is_token(t, a, b));
                    let k = choose|k: int| 0 <= k < before.len() && before[k] == (a, b);
                    assert(now[k] == (a, b));
                }
            }
        }
    }
}

/// The bounds of the whitespace-delimited tokens of a text.
pub fn token_bounds(chars: &Vec<char>) -> (r: Vec<(usize, usize)>)
    ensures
        r@.len() == tokens(chars@).len(),
        forall|k: int|
            0 <= k < r@.len() ==> (#[trigger] r@[k]).0 == tokens(chars@)[k].0 && r@[k].1 == tokens(
                chars@,
            )[k].1,
{
    let mut r: Vec<(usize, usize)> = Vec::new();
    let mut i: usize = 0;
    while i < chars.len()
        invariant
            i <= chars.len(),
            r@.len() == tokens(chars@.take(i as int)).len(),
            forall|k: int|
                0 <= k < r@.len() ==> (#[trigger] r@[k]).0 == tokens(chars@.take(i as int))[k].0
                    && r@[k].1 == tokens(chars@.take(i as int))[k].1,
        decreases chars.len() - i,
    {
        let ghost now = chars@.take(i + 1);
        assert(now.drop_last() == chars@.take(i as int));
        assert(now.last() == chars@[i as int]);
        proof {
            lemma_tokens(chars@.take(i as int));
        }
        if !char_is_whitespace(chars[i]) {
            if i > 0 && !char_is_whitespace(chars[i - 1]) {
                assert(now[i - 1] == chars@[i - 1]);
                assert(chars@.take(i as int).last() == chars@[i - 1]);
                let n = r.len() - 1;
                let start = r[n].0;
                r.set(n, (start, i + 1));
            } else {
                if i > 0 {
                    assert(now[i - 1] == chars@[i - 1]);
                }
                r.push((i, i + 1));
            }
        }
        i += 1;
    }
    assert(chars@.take(chars.len() as int) == chars@);
    r
}

/// Finds the word inside `chars[from..to]`: the bounds of what is left of that range once the
/// punctuation at both ends is gone.
pub fn surrounding_punctuation_bounds(chars: &Vec<char>, from: usize, to: usize) -> (r: (
    usize,
    usize,
))
    requires
        from <= to <= chars.len(),
    ensures
        from <= r.0 <= r.1 <= to,
        chars@.subrange(r.0 as int, r.1 as int) == without_surrounding_punctuation(
            chars@.subrange(from as int, to as int),
        ),
{
    let ghost whole = chars@.subrange(from as int, to as int);
    let mut a: usize = from;
    while a < to && char_is_ascii_punctuation(chars[a])
        invariant
            from <= a <= to <= chars.len(),
            trim_leading_punctuation(whole) == trim_leading_punctuation(
                chars@.subrange(a as int, to as int),
            ),
        decreases to - a,
    {
        assert(chars@.subrange(a as int, to as int).drop_first() == chars@.subrange(
            a + 1,
            to as int,
        ));
        a += 1;
    }
    let ghost rest = chars@.subrange(a as int, to as int);
    assert(trim_leading_punctuation(whole) == rest);
    let mut b: usize = to;
    while a < b && char_is_ascii_punctuation(chars[b - 1])
        invariant
            a <= b <= to <= chars.len(),
            trim_trailing_punctuation(rest) == trim_trailing_punctuation(
                chars@.subrange(a as int, b as int),
            ),
        decreases b - a,
    {
        assert(chars@.subrange(a as int, b as int).drop_last() == chars@.subrange(
            a as int,
            b - 1,
        ));
        b -= 1;
    }
    (a, b)
}

/// Strips the ASCII punctuation from both ends of a token. An empty token, or one made of
/// punctuation only, gives the empty string.
pub fn remove_surrounding_punctuation(input: &str) -> (r: String)
    ensures
        r@ == without_surrounding_punctuation(input@),
{
    let chars = chars_of(input);
    assert(chars@.subrange(0, chars@.len() as int) == chars@);
    let (a, b) = surrounding_punctuation_bounds(&chars, 0, chars.len());
    string_of(&chars, a, b)
}

/// How many ASCII punctuation characters `s` starts with.
pub open spec fn leading_punctuation_len(s: Seq<char>) -> nat
    decreases s.len(),
{
    if s.len() > 0 && is_ascii_punctuation(s.first()) {
        1 + leading_punctuation_len(s.drop_first())
    } else {
        0
    }
}

/// How many ASCII punctuation characters `s` ends with.
pub open spec fn trailing_punctuation_len(s: Seq<char>) -> nat
    decreases s.len(),
{
    if s.len() > 0 && is_ascii_punctuation(s.last()) {
        1 + trailing_punctuation_len(s.drop_last())
    } else {
        0
    }
}

/// Trimming at the front removes exactly the leading run of punctuation.
pub proof fn lemma_trim_leading(s: Seq<char>)
    ensures
        leading_punctuation_len(s) <= s.len(),
        trim_leading_punctuation(s) == s.skip(leading_punctuation_len(s) as int),
        forall|i: int| 0 <= i < leading_punctuation_len(s) ==> is_ascii_punctuation(#[trigger] s[i]),
        leading_punctuation_len(s) < s.len() ==> !is_ascii_punctuation(
            s[leading_punctuation_len(s) as int],
        ),
    decreases s.len(),
{
    if s.len() > 0 && is_ascii_punctuation(s.first()) {
        let t = s.drop_first();
        lemma_trim_leading(t);
        let n = leading_punctuation_len(t) as int;
        assert(t.skip(n) == s.skip(n + 1));
        assert forall|i: int| 0 <= i < n + 1 implies is_ascii_punctuation(#[trigger] s[i]) by {
            if i > 0 {
                assert(s[i] == t[i - 1]);
            }
        }
        if n + 1 < s.len() {
            assert(s[n + 1] == t[n]);
        }
    } else {
        assert(s.skip(0) == s);
    }
}

/// Trimming at the back removes exactly the trailing run of punctuation.
pub proof fn lemma_trim_trailing(s: Seq<char>)
    ensures
        trailing_punctuation_len(s) <= s.len(),
        trim_trailing_punctuation(s) == s.take(s.len() - trailing_punctuation_len(s)),
        forall|i: int|
            s.len() - trailing_punctuation_len(s) <= i < s.len() ==> is_ascii_punctuation(
                #[trigger] s[i],
            ),
        trailing_punctuation_len(s) < s.len() ==> !is_ascii_punctuation(
            s[s.len() - trailing_punctuation_len(s) - 1],
        ),
    decreases s.len(),
{
    if s.len() > 0 && is_ascii_punctuation(s.last()) {
        let t = s.drop_last();
        lemma_trim_trailing(t);
        let n = trailing_punctuation_len(t) as int;
        assert(t.take(t.len() - n) == s.take(s.len() - (n + 1)));
        assert forall|i: int| s.len() - (n + 1) <= i < s.len() implies is_ascii_punctuation(
            #[trigger] s[i],
        ) by {
            if i < s.len() - 1 {
                assert(s[i] == t[i]);
            }
        }
        if n + 1 < s.len() {
            assert(s[s.len() - (n + 1) - 1] == t[t.len() - n - 1]);
        }
    } else {
        assert(s.take(s.len() as int) == s);
    }
}

/// Stripping keeps one contiguous piece of the token. Everything before and after that piece is
/// ASCII punctuation, and the piece, unless empty, begins and ends with a character that is
/// not: punctuation inside the word is never touched.
pub proof fn lemma_strip_keeps_interior(s: Seq<char>)
    ensures
        ({
            let r = without_surrounding_punctuation(s);
            let a = leading_punctuation_len(s) as int;
            &&& a + r.len() <= s.len()
            &&& r == s.subrange(a, a + r.len())
            &&& forall|i: int| 0 <= i < a ==> is_ascii_punctuation(#[trigger] s[i])
            &&& forall|i: int| a + r.len() <= i < s.len() ==> is_ascii_punctuation(#[trigger] s[i])
            &&& r.len() > 0 ==> !is_ascii_punctuation(r.first()) && !is_ascii_punctuation(r.last())
        }),
{
    lemma_trim_leading(s);
    let a = leading_punctuation_len(s) as int;
    let t = s.skip(a);
    lemma_trim_trailing(t);
    let r = without_surrounding_punctuation(s);
    let k = trailing_punctuation_len(t) as int;
    assert(r == t.take(t.len() - k));
    assert(r == s.subrange(a, a + r.len()));
    assert forall|i: int| a + r.len() <= i < s.len() implies is_ascii_punctuation(
        #[trigger] s[i],
    ) by {
        assert(s[i] == t[i - a]);
    }
    if r.len() > 0 {
        assert(r.first() == s[a]);
        assert(r.last() == t[t.len() - k - 1]);
    }
}

/// Stripping is idempotent: a stripped word is left as it is.
pub proof fn lemma_strip_idempotent(s: Seq<char>)
    ensures
        without_surrounding_punctuation(without_surrounding_punctuation(s))
            == without_surrounding_punctuation(s),
{
    lemma_strip_keeps_interior(s);
}

/// A token is stripped to nothing exactly when it holds nothing but ASCII punctuation; the
/// empty token is one of these.
pub proof fn lemma_strip_empty_iff_all_punctuation(s: Seq<char>)
    ensures
        without_surrounding_punctuation(s).len() == 0 <==> all_punctuation(s),
{
    lemma_strip_keeps_interior(s);
    let r = without_surrounding_punctuation(s);
    let a = leading_punctuation_len(s) as int;
    if r.len() > 0 {
        assert(r.first() == s[a]);
    }
}

} // verus!
