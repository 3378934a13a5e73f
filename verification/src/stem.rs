//! The stem of a word: a small, fixed set of suffix-stripping rules for English.
//!
//! A word is first put in lower case (ASCII letters only). Then a plural ending goes: `sses`
//! becomes `ss`, `ies` becomes `i`, a final `s` is dropped unless the word ends in `ss`; words
//! of fewer than three characters are left alone. Then `ing` or `ed` goes, if what is left
//! still holds a vowel, and a doubled consonant that this lays bare is made single (but not
//! `l`, `s` or `z`). So `running` and `runs` both give `run`.

use vstd::prelude::*;

verus! {

pub open spec fn lower(c: char) -> char {
    if 65 <= c as u32 <= 90 {
        ((c as u32) + 32) as char
    } else {
        c
    }
}

pub open spec fn lowercase(s: Seq<char>) -> Seq<char> {
    Seq::new(s.len(), |i: int| lower(s[i]))
}

pub open spec fn ends_with(s: Seq<char>, suffix: Seq<char>) -> bool {
    &&& suffix.len() <= s.len()
    &&& forall|i: int|
        0 <= i < suffix.len() ==> s[s.len() - suffix.len() + i] == #[trigger] suffix[i]
}

pub open spec fn is_vowel(c: char) -> bool {
    c == 'a' || c == 'e' || c == 'i' || c == 'o' || c == 'u' || c == 'y'
}

pub open spec fn has_vowel(s: Seq<char>) -> bool {
    exists|i: int| 0 <= i < s.len() && is_vowel(#[trigger] s[i])
}

/// Whether `c` is a consonant that is made single where it stands doubled at the end.
pub open spec fn is_undoubled(c: char) -> bool {
    97 <= c as u32 <= 122 && !is_vowel(c) && c != 'l' && c != 's' && c != 'z'
}

pub open spec fn without_plural(s: Seq<char>) -> Seq<char> {
    if s.len() < 3 {
        s
    } else if ends_with(s, seq!['s', 's', 'e', 's']) || ends_with(s, seq!['i', 'e', 's']) {
        s.take(s.len() - 2)
    } else if ends_with(s, seq!['s', 's']) {
        s
    } else if ends_with(s, seq!['s']) {
        s.take(s.len() - 1)
    } else {
        s
    }
}

pub open spec fn undoubled(s: Seq<char>) -> Seq<char> {
    if s.len() >= 2 && s[s.len() - 1] == s[s.len() - 2] && is_undoubled(s[s.len() - 1]) {
        s.take(s.len() - 1)
    } else {
        s
    }
}

pub open spec fn without_inflection(s: Seq<char>) -> Seq<char> {
    if ends_with(s, seq!['i', 'n', 'g']) && has_vowel(s.take(s.len() - 3)) {
        undoubled(s.take(s.len() - 3))
    } else if ends_with(s, seq!['e', 'd']) && has_vowel(s.take(s.len() - 2)) {
        undoubled(s.take(s.len() - 2))
    } else {
        s
    }
}

/// The stem of a word.
pub open spec fn stem_of(word: Seq<char>) -> Seq<char> {
    without_inflection(without_plural(lowercase(word)))
}

fn to_lower(c: char) -> (r: char)
    ensures
        r == lower(c),
{
    if 'A' <= c && c <= 'Z' {
        ((c as u8) + 32) as char
    } else {
        c
    }
}

fn vowel(c: char) -> (r: bool)
    ensures
        r == is_vowel(c),
{
    c == 'a' || c == 'e' || c == 'i' || c == 'o' || c == 'u' || c == 'y'
}

fn made_single(c: char) -> (r: bool)
    ensures
        r == is_undoubled(c),
{
    'a' <= c && c <= 'z' && !vowel(c) && c != 'l' && c != 's' && c != 'z'
}

/// Whether the first `n` characters hold a vowel.
fn holds_vowel(s: &Vec<char>, n: usize) -> (r: bool)
    requires
        n <= s.len(),
    ensures
        r == has_vowel(s@.take(n as int)),
{
    let mut i: usize = 0;
    while i < n
        invariant
            i <= n <= s.len(),
            forall|j: int| 0 <= j < i ==> !is_vowel(#[trigger] s@[j]),
        decreases n - i,
    {
        if vowel(s[i]) {
            assert(is_vowel(s@.take(n as int)[i as int]));
            return true;
        }
        i += 1;
    }
    false
}

/// The length that is left of the first `n` characters once a doubled consonant at their end
/// is made single.
fn undoubled_len(s: &Vec<char>, n: usize) -> (r: usize)
    requires
        n <= s.len(),
    ensures
        r <= n,
        s@.take(r as int) == undoubled(s@.take(n as int)),
{
    if n >= 2 {
        assert(s@.take(n as int)[n - 1] == s@[n - 1]);
        assert(s@.take(n as int)[n - 2] == s@[n - 2]);
    }
    if n >= 2 && s[n - 1] == s[n - 2] {
        let c = s[n - 1];
        if made_single(c) {
            assert(s@.take(n as int).take(n - 1) == s@.take(n - 1));
            return n - 1;
        }
    }
    n
}

/// The stem of a word, both as characters.
pub fn stem(word: &Vec<char>) -> (r: Vec<char>)
    ensures
        r@ == stem_of(word@),
{
    let mut s: Vec<char> = Vec::new();
    let mut i: usize = 0;
    while i < word.len()
        invariant
            i <= word.len(),
            s@ == lowercase(word@).take(i as int),
        decreases word.len() - i,
    {
        s.push(to_lower(word[i]));
        i += 1;
    }
    let ghost lowered = s@;
    assert(lowered == lowercase(word@));
    let n = s.len();
    let mut m: usize = n;
    if n >= 3 {
        if n >= 4 && s[n - 4] == 's' && s[n - 3] == 's' && s[n - 2] == 'e' && s[n - 1] == 's' {
            m = n - 2;
        } else if s[n - 3] == 'i' && s[n - 2] == 'e' && s[n - 1] == 's' {
            m = n - 2;
        } else if s[n - 2] == 's' && s[n - 1] == 's' {
        } else if s[n - 1] == 's' {
            m = n - 1;
        }
    }
    proof {
        lemma_ends_with(lowered);
    }
    let ghost singular = s@.take(m as int);
    assert(singular == without_plural(lowered));
    let mut k: usize = m;
    proof {
        lemma_ends_with(singular);
    }
    if m >= 3 && s[m - 3] == 'i' && s[m - 2] == 'n' && s[m - 1] == 'g' && holds_vowel(&s, m - 3) {
        assert(singular.take(m - 3) == s@.take(m - 3));
        k = undoubled_len(&s, m - 3);
    } else if m >= 2 && s[m - 2] == 'e' && s[m - 1] == 'd' && holds_vowel(&s, m - 2) {
        assert(singular.take(m - 3) == s@.take(m - 3));
        assert(singular.take(m - 2) == s@.take(m - 2));
        k = undoubled_len(&s, m - 2);
    } else {
        if m >= 3 {
            assert(singular.take(m - 3) == s@.take(m - 3));
        }
        if m >= 2 {
            assert(singular.take(m - 2) == s@.take(m - 2));
        }
    }
    assert(s@.take(k as int) == without_inflection(singular));
    s.truncate(k);
    assert(s@ == lowered.take(k as int));
    s
}

/// What `ends_with` says of the four endings, character by character.
proof fn lemma_ends_with(s: Seq<char>)
    ensures
        ends_with(s, seq!['s', 's', 'e', 's']) <==> s.len() >= 4 && s[s.len() - 4] == 's' && s[s.len()
            - 3] == 's' && s[s.len() - 2] == 'e' && s[s.len() - 1] == 's',
        ends_with(s, seq!['i', 'e', 's']) <==> s.len() >= 3 && s[s.len() - 3] == 'i' && s[s.len()
            - 2] == 'e' && s[s.len() - 1] == 's',
        ends_with(s, seq!['s', 's']) <==> s.len() >= 2 && s[s.len() - 2] == 's' && s[s.len() - 1]
            == 's',
        ends_with(s, seq!['s']) <==> s.len() >= 1 && s[s.len() - 1] == 's',
        ends_with(s, seq!['i', 'n', 'g']) <==> s.len() >= 3 && s[s.len() - 3] == 'i' && s[s.len()
            - 2] == 'n' && s[s.len() - 1] == 'g',
        ends_with(s, seq!['e', 'd']) <==> s.len() >= 2 && s[s.len() - 2] == 'e' && s[s.len() - 1]
            == 'd',
{
    let a = seq!['s', 's', 'e', 's'];
    let b = seq!['i', 'e', 's'];
    let c = seq!['s', 's'];
    let d = seq!['s'];
    let e = seq!['i', 'n', 'g'];
    let f = seq!['e', 'd'];
    assert(a[0] == 's' && a[1] == 's' && a[2] == 'e' && a[3] == 's');
    assert(b[0] == 'i' && b[1] == 'e' && b[2] == 's');
    assert(c[0] == 's' && c[1] == 's');
    assert(d[0] == 's');
    assert(e[0] == 'i' && e[1] == 'n' && e[2] == 'g');
    assert(f[0] == 'e' && f[1] == 'd');
}

} // verus!
