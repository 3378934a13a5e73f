//! The stem table: for each stem, the word forms of the corpus that reduce to it.
//!
//! The table is a list of groups that names no stem twice, and a group is a list of forms
//! that names no form twice. A list has an order that a contract can fix, which the walk of a
//! hash map has not: here it is the order in which stems and forms first come in the corpus.

use vstd::prelude::*;
use vstd::string::*;
use crate::entry::{NormalizedEntry, NormalizedEntryView};
use crate::stem::{stem, stem_of};
use crate::text::{chars_of, string_of};

verus! {

pub open spec fn entries_view(entries: Seq<NormalizedEntry>) -> Seq<NormalizedEntryView> {
    Seq::new(entries.len(), |i: int| entries[i]@)
}

/// Whether the corpus has a word at place `j` of entry `i`.
pub open spec fn is_position(entries: Seq<NormalizedEntryView>, i: int, j: int) -> bool {
    0 <= i < entries.len() && 0 <= j < entries[i].words.len()
}

pub open spec fn word_at(entries: Seq<NormalizedEntryView>, i: int, j: int) -> Seq<char> {
    entries[i].words[j].word
}

/// Corpus order: entry by entry, and inside an entry word by word.
pub open spec fn comes_before(i1: int, j1: int, i2: int, j2: int) -> bool {
    i1 < i2 || (i1 == i2 && j1 < j2)
}

/// Whether `word` stands in the corpus before place `j` of entry `i`.
pub open spec fn seen_before(
    entries: Seq<NormalizedEntryView>,
    i: int,
    j: int,
    word: Seq<char>,
) -> bool {
    exists|i1: int, j1: int|
        is_position(entries, i1, j1) && comes_before(i1, j1, i, j) && #[trigger] word_at(
            entries,
            i1,
            j1,
        ) == word
}

/// The word forms of the corpus.
pub open spec fn corpus_words(entries: Seq<NormalizedEntryView>) -> Set<Seq<char>> {
    Set::new(|word: Seq<char>| seen_before(entries, entries.len() as int, 0, word))
}

/// The stem table of a set of word forms: its keys are the stems of the forms, and each key
/// leads to the forms that have this stem.
pub open spec fn stem_table_of(words: Set<Seq<char>>) -> Map<Seq<char>, Set<Seq<char>>> {
    Map::new(
        |stem: Seq<char>|
            exists|word: Seq<char>| #[trigger] words.contains(word) && stem_of(word) == stem,
        |stem: Seq<char>| Set::new(|word: Seq<char>| words.contains(word) && stem_of(word) == stem),
    )
}

/// Whether a word with stem `a` stands in the corpus before every word with stem `b`.
pub open spec fn stem_comes_first(
    entries: Seq<NormalizedEntryView>,
    a: Seq<char>,
    b: Seq<char>,
) -> bool {
    exists|i: int, j: int|
        is_position(entries, i, j) && stem_of(#[trigger] word_at(entries, i, j)) == a && forall|
            i2: int,
            j2: int,
        |
            is_position(entries, i2, j2) && stem_of(#[trigger] word_at(entries, i2, j2)) == b
                ==> comes_before(i, j, i2, j2)
}

/// Whether the word form `a` stands in the corpus before the word form `b` ever does.
pub open spec fn form_comes_first(
    entries: Seq<NormalizedEntryView>,
    a: Seq<char>,
    b: Seq<char>,
) -> bool {
    exists|i: int, j: int|
        is_position(entries, i, j) && #[trigger] word_at(entries, i, j) == a && forall|
            i2: int,
            j2: int,
        |
            is_position(entries, i2, j2) && #[trigger] word_at(entries, i2, j2) == b
                ==> comes_before(i, j, i2, j2)
}

/// A stem with its word forms.
#[derive(Clone, Debug, PartialEq, Eq)]
pub struct StemGroup {
    pub stem: String,
    pub forms: Vec<String>,
}

#[derive(Clone, Debug, PartialEq, Eq)]
pub struct StemTable {
    pub groups: Vec<StemGroup>,
}

impl StemTable {
    /// Whether the table lists `form` under `stem`.
    pub open spec fn holds(&self, stem: Seq<char>, form: Seq<char>) -> bool {
        exists|g: int, f: int|
            0 <= g < self.groups@.len() && 0 <= f < self.groups@[g].forms@.len()
                && self.groups@[g].stem@ == stem && #[trigger] self.groups@[g].forms@[f]@ == form
    }

    pub open spec fn has_stem(&self, stem: Seq<char>) -> bool {
        exists|g: int| 0 <= g < self.groups@.len() && (#[trigger] self.groups@[g]).stem@ == stem
    }

    /// No stem and no form is listed twice, no stem is without a form, and each form stands
    /// under its own stem.
    pub open spec fn wf(&self) -> bool {
        &&& forall|g: int, h: int|
            0 <= g < h < self.groups@.len() ==> (#[trigger] self.groups@[g]).stem@
                != (#[trigger] self.groups@[h]).stem@
        &&& forall|g: int|
            0 <= g < self.groups@.len() ==> (#[trigger] self.groups@[g]).forms@.len() > 0
        &&& forall|g: int, e: int, f: int|
            0 <= g < self.groups@.len() && 0 <= e < f < self.groups@[g].forms@.len()
                ==> #[trigger] self.groups@[g].forms@[e]@ != #[trigger] self.groups@[g].forms@[f]@
        &&& forall|g: int, f: int|
            0 <= g < self.groups@.len() && 0 <= f < self.groups@[g].forms@.len() ==> stem_of(
                #[trigger] self.groups@[g].forms@[f]@,
            ) == self.groups@[g].stem@
    }

    /// Whether the stems, and under each stem the forms, stand in the order in which they
    /// first come in the corpus.
    pub open spec fn in_order_of(&self, entries: Seq<NormalizedEntryView>) -> bool {
        &&& forall|g: int, h: int|
            0 <= g < h < self.groups@.len() ==> stem_comes_first(
                entries,
                (#[trigger] self.groups@[g]).stem@,
                (#[trigger] self.groups@[h]).stem@,
            )
        &&& forall|g: int, e: int, f: int|
            0 <= g < self.groups@.len() && 0 <= e < f < self.groups@[g].forms@.len()
                ==> form_comes_first(
                entries,
                #[trigger] self.groups@[g].forms@[e]@,
                #[trigger] self.groups@[g].forms@[f]@,
            )
    }
}

impl View for StemTable {
    type V = Map<Seq<char>, Set<Seq<char>>>;

    open spec fn view(&self) -> Map<Seq<char>, Set<Seq<char>>> {
        Map::new(
            |stem: Seq<char>| self.has_stem(stem),
            |stem: Seq<char>| Set::new(|form: Seq<char>| self.holds(stem, form)),
        )
    }
}

/// The place of a stem in the table.
pub fn find_stem(table: &StemTable, stem: &String) -> (r: Option<usize>)
    ensures
        match r {
            Some(g) => g < table.groups@.len() && table.groups@[g as int].stem@ == stem@,
            None => !table.has_stem(stem@),
        },
{
    let mut g: usize = 0;
    while g < table.groups.len()
        invariant
            g <= table.groups@.len(),
            forall|h: int| 0 <= h < g ==> (#[trigger] table.groups@[h]).stem@ != stem@,
        decreases table.groups.len() - g,
    {
        if table.groups[g].stem == *stem {
            return Some(g);
        }
        g += 1;
    }
    None
}

fn has_form(forms: &Vec<String>, form: &String) -> (r: bool)
    ensures
        r <==> exists|f: int| 0 <= f < forms@.len() && #[trigger] forms@[f]@ == form@,
{
    let mut f: usize = 0;
    while f < forms.len()
        invariant
            f <= forms@.len(),
            forall|e: int| 0 <= e < f ==> #[trigger] forms@[e]@ != form@,
        decreases forms.len() - f,
    {
        if forms[f] == *form {
            return true;
        }
        f += 1;
    }
    false
}

/// The stem of a word, both as strings.
pub fn stem_string(word: &String) -> (r: String)
    ensures
        r@ == stem_of(word@),
{
    let chars = chars_of(word.as_str());
    let stemmed = stem(&chars);
    assert(stemmed@.subrange(0, stemmed@.len() as int) == stemmed@);
    string_of(&stemmed, 0, stemmed.len())
}

/// What holds of the table while the corpus is walked: it lists the words before place `j`
/// of entry `i`, each under its stem, and nothing else.
pub open spec fn lists_words_before(
    table: StemTable,
    entries: Seq<NormalizedEntryView>,
    i: int,
    j: int,
) -> bool {
    &&& table.wf()
    &&& table.in_order_of(entries)
    &&& forall|g: int, f: int|
        0 <= g < table.groups@.len() && 0 <= f < table.groups@[g].forms@.len() ==> seen_before(
            entries,
            i,
            j,
            #[trigger] table.groups@[g].forms@[f]@,
        )
    &&& forall|i1: int, j1: int|
        is_position(entries, i1, j1) && comes_before(i1, j1, i, j) ==> table.holds(
            stem_of(#[trigger] word_at(entries, i1, j1)),
            word_at(entries, i1, j1),
        )
}

/// Lists one more word in the table.
fn add_word(
    table: &mut StemTable,
    word: &String,
    Ghost(entries): Ghost<Seq<NormalizedEntryView>>,
    Ghost(i): Ghost<int>,
    Ghost(j): Ghost<int>,
)
    requires
        lists_words_before(*old(table), entries, i, j),
        is_position(entries, i, j),
        word_at(entries, i, j) == word@,
    ensures
        lists_words_before(*final(table), entries, i, j + 1),
{
    let stem = stem_string(word);
    let ghost before = *table;
    match find_stem(table, &stem) {
        Some(g) => {
            if !has_form(&table.groups[g].forms, word) {
                table.groups[g].forms.push(word.clone());
                let ghost n = before.groups@[g as int].forms@.len() as int;
                assert(table.groups@[g as int].forms@[n]@ == word@);
                assert forall|i1: int, j1: int|
                    is_position(entries, i1, j1) && comes_before(i1, j1, i, j + 1)
                    implies table.holds(
                    stem_of(#[trigger] word_at(entries, i1, j1)),
                    word_at(entries, i1, j1),
                ) by {
                    if comes_before(i1, j1, i, j) {
                        let w = word_at(entries, i1, j1);
                        assert(before.holds(stem_of(w), w));
                        let (h, f) = choose|h: int, f: int|
                            0 <= h < before.groups@.len() && 0 <= f < before.groups@[h].forms@.len()
                                && before.groups@[h].stem@ == stem_of(w)
                                && #[trigger] before.groups@[h].forms@[f]@ == w;
                        assert(table.groups@[h].forms@[f]@ == w);
                    }
                }
                assert forall|h: int, f: int|
                    0 <= h < table.groups@.len() && 0 <= f < table.groups@[h].forms@.len()
                    implies seen_before(
                    entries,
                    i,
                    j + 1,
                    #[trigger] table.groups@[h].forms@[f]@,
                ) by {
                    if h == g && f == n {
                        assert(word_at(entries, i, j) == word@);
                    } else {
                        assert(table.groups@[h].forms@[f] == before.groups@[h].forms@[f]);
                        lemma_seen_later(entries, i, j, before.groups@[h].forms@[f]@);
                    }
                }
                assert(table.in_order_of(entries)) by {
                    assert forall|h: int, k: int| 0 <= h < k < table.groups@.len()
                    implies stem_comes_first(
                        entries,
                        (#[trigger] table.groups@[h]).stem@,
                        (#[trigger] table.groups@[k]).stem@,
                    ) by {
                        assert(stem_comes_first(
                            entries,
                            before.groups@[h].stem@,
                            before.groups@[k].stem@,
                        ));
                    }
                    assert forall|h: int, e: int, f: int|
                        0 <= h < table.groups@.len() && 0 <= e < f < table.groups@[h].forms@.len()
                        implies form_comes_first(
                        entries,
                        #[trigger] table.groups@[h].forms@[e]@,
                        #[trigger] table.groups@[h].forms@[f]@,
                    ) by {
                        if h == g && f == n {
                            let earlier = before.groups@[h].forms@[e]@;
                            assert(table.groups@[h].forms@[e] == before.groups@[h].forms@[e]);
                            assert(seen_before(entries, i, j, earlier));
                            let (i1, j1) = choose|i1: int, j1: int|
                                is_position(entries, i1, j1) && comes_before(i1, j1, i, j)
                                    && #[trigger] word_at(entries, i1, j1) == earlier;
                            assert forall|i2: int, j2: int|
                                is_position(entries, i2, j2) && #[trigger] word_at(entries, i2, j2)
                                    == word@ implies comes_before(i1, j1, i2, j2) by {
                                if comes_before(i2, j2, i, j) {
                                    assert(before.holds(stem_of(word@), word@));
                                    let (h2, f2) = choose|h2: int, f2: int|
                                        0 <= h2 < before.groups@.len() && 0 <= f2
                                            < before.groups@[h2].forms@.len()
                                            && before.groups@[h2].stem@ == stem_of(word@)
                                            && #[trigger] before.groups@[h2].forms@[f2]@ == word@;
                                    if h2 < g {
                                        assert(before.groups@[h2].stem@ != before.groups@[g as int].stem@);
                                    }
                                    if g < h2 {
                                        assert(before.groups@[g as int].stem@ != before.groups@[h2].stem@);
                                    }
                                    assert(before.groups@[g as int].forms@[f2]@ == word@);
                                }
                            }
                            assert(is_position(entries, i1, j1) && word_at(entries, i1, j1)
                                == earlier);
                        } else {
                            assert(table.groups@[h].forms@[e] == before.groups@[h].forms@[e]);
                            assert(table.groups@[h].forms@[f] == before.groups@[h].forms@[f]);
                            assert(form_comes_first(
                                entries,
                                before.groups@[h].forms@[e]@,
                                before.groups@[h].forms@[f]@,
                            ));
                        }
                    }
                }
                assert(table.wf()) by {
                    assert forall|h: int, e: int, f: int|
                        0 <= h < table.groups@.len() && 0 <= e < f < table.groups@[h].forms@.len()
                        implies #[trigger] table.groups@[h].forms@[e]@
                        != #[trigger] table.groups@[h].forms@[f]@ by {
                        if h == g && f == n {
                            assert(before.groups@[g as int].forms@[e]@ != word@);
                        } else {
                            assert(before.groups@[h].forms@[e]@ != before.groups@[h].forms@[f]@);
                        }
                    }
                    assert forall|h: int, f: int|
                        0 <= h < table.groups@.len() && 0 <= f < table.groups@[h].forms@.len()
                        implies stem_of(
                        #[trigger] table.groups@[h].forms@[f]@,
                    ) == table.groups@[h].stem@ by {
                        if !(h == g && f == n) {
                            assert(table.groups@[h].forms@[f] == before.groups@[h].forms@[f]);
                        }
                    }
                    assert forall|h: int, k: int|
                        0 <= h < k < table.groups@.len() implies (#[trigger] table.groups@[h]).stem@
                        != (#[trigger] table.groups@[k]).stem@ by {
                        assert(before.groups@[h].stem@ != before.groups@[k].stem@);
                    }
                    assert forall|h: int| 0 <= h < table.groups@.len() implies (
                    #[trigger] table.groups@[h]).forms@.len() > 0 by {
                        assert(before.groups@[h].forms@.len() > 0);
                    }
                }
            } else {
                let ghost f0 = choose|f: int|
                    0 <= f < table.groups@[g as int].forms@.len()
                        && #[trigger] table.groups@[g as int].forms@[f]@ == word@;
                assert(table.groups@[g as int].forms@[f0]@ == word@);
                assert(table.holds(stem_of(word@), word@));
                assert forall|h: int, f: int|
                    0 <= h < table.groups@.len() && 0 <= f < table.groups@[h].forms@.len()
                    implies seen_before(
                    entries,
                    i,
                    j + 1,
                    #[trigger] table.groups@[h].forms@[f]@,
                ) by {
                    lemma_seen_later(entries, i, j, table.groups@[h].forms@[f]@);
                }
            }
        },
        None => {
            let mut forms: Vec<String> = Vec::new();
            forms.push(word.clone());
            table.groups.push(StemGroup { stem, forms });
            let ghost n = before.groups@.len() as int;
            assert(table.groups@[n].forms@[0]@ == word@);
            assert forall|i1: int, j1: int|
                is_position(entries, i1, j1) && comes_before(i1, j1, i, j + 1) implies table.holds(
                stem_of(#[trigger] word_at(entries, i1, j1)),
                word_at(entries, i1, j1),
            ) by {
                if comes_before(i1, j1, i, j) {
                    let w = word_at(entries, i1, j1);
                    assert(before.holds(stem_of(w), w));
                    let (h, f) = choose|h: int, f: int|
                        0 <= h < before.groups@.len() && 0 <= f < before.groups@[h].forms@.len()
                            && before.groups@[h].stem@ == stem_of(w)
                            && #[trigger] before.groups@[h].forms@[f]@ == w;
                    assert(table.groups@[h] == before.groups@[h]);
                    assert(table.groups@[h].forms@[f]@ == w);
                }
            }
            assert forall|h: int, f: int|
                0 <= h < table.groups@.len() && 0 <= f < table.groups@[h].forms@.len()
                implies seen_before(
                entries,
                i,
                j + 1,
                #[trigger] table.groups@[h].forms@[f]@,
            ) by {
                if h == n {
                    assert(word_at(entries, i, j) == word@);
                } else {
                    assert(table.groups@[h] == before.groups@[h]);
                    lemma_seen_later(entries, i, j, before.groups@[h].forms@[f]@);
                }
            }
            assert(table.in_order_of(entries)) by {
                assert forall|h: int, k: int| 0 <= h < k < table.groups@.len()
                implies stem_comes_first(
                    entries,
                    (#[trigger] table.groups@[h]).stem@,
                    (#[trigger] table.groups@[k]).stem@,
                ) by {
                    assert(table.groups@[h] == before.groups@[h]);
                    if k < n {
                        assert(table.groups@[k] == before.groups@[k]);
                        assert(stem_comes_first(
                            entries,
                            before.groups@[h].stem@,
                            before.groups@[k].stem@,
                        ));
                    } else {
                        let earlier = before.groups@[h].forms@[0]@;
                        assert(seen_before(entries, i, j, earlier));
                        let (i1, j1) = choose|i1: int, j1: int|
                            is_position(entries, i1, j1) && comes_before(i1, j1, i, j)
                                && #[trigger] word_at(entries, i1, j1) == earlier;
                        assert forall|i2: int, j2: int|
                            is_position(entries, i2, j2) && stem_of(
                                #[trigger] word_at(entries, i2, j2),
                            ) == stem@ implies comes_before(i1, j1, i2, j2) by {
                            if comes_before(i2, j2, i, j) {
                                let w = word_at(entries, i2, j2);
                                assert(before.holds(stem_of(w), w));
                                let (h2, f2) = choose|h2: int, f2: int|
                                    0 <= h2 < before.groups@.len() && 0 <= f2
                                        < before.groups@[h2].forms@.len()
                                        && before.groups@[h2].stem@ == stem_of(w)
                                        && #[trigger] before.groups@[h2].forms@[f2]@ == w;
                                assert(before.groups@[h2].stem@ == stem@);
                                assert(before.has_stem(stem@));
                            }
                        }
                        assert(is_position(entries, i1, j1) && stem_of(word_at(entries, i1, j1))
                            == before.groups@[h].stem@);
                    }
                }
                assert forall|h: int, e: int, f: int|
                    0 <= h < table.groups@.len() && 0 <= e < f < table.groups@[h].forms@.len()
                    implies form_comes_first(
                    entries,
                    #[trigger] table.groups@[h].forms@[e]@,
                    #[trigger] table.groups@[h].forms@[f]@,
                ) by {
                    if h < n {
                        assert(table.groups@[h] == before.groups@[h]);
                        assert(form_comes_first(
                            entries,
                            before.groups@[h].forms@[e]@,
                            before.groups@[h].forms@[f]@,
                        ));
                    }
                }
            }
            assert(table.wf()) by {
                assert forall|h: int, k: int|
                    0 <= h < k < table.groups@.len() implies (#[trigger] table.groups@[h]).stem@
                    != (#[trigger] table.groups@[k]).stem@ by {
                    assert(table.groups@[h] == before.groups@[h]);
                    if k < n {
                        assert(table.groups@[k] == before.groups@[k]);
                    }
                }
                assert forall|h: int, e: int, f: int|
                    0 <= h < table.groups@.len() && 0 <= e < f < table.groups@[h].forms@.len()
                    implies #[trigger] table.groups@[h].forms@[e]@
                    != #[trigger] table.groups@[h].forms@[f]@ by {
                    if h < n {
                        assert(table.groups@[h] == before.groups@[h]);
                    }
                }
                assert forall|h: int, f: int|
                    0 <= h < table.groups@.len() && 0 <= f < table.groups@[h].forms@.len()
                    implies stem_of(
                    #[trigger] table.groups@[h].forms@[f]@,
                ) == table.groups@[h].stem@ by {
                    if h < n {
                        assert(table.groups@[h] == before.groups@[h]);
                    }
                }
                assert forall|h: int| 0 <= h < table.groups@.len() implies (
                #[trigger] table.groups@[h]).forms@.len() > 0 by {
                    if h < n {
                        assert(table.groups@[h] == before.groups@[h]);
                    }
                }
            }
        },
    }
}

/// A word that was seen before one place was seen before the next.
proof fn lemma_seen_later(entries: Seq<NormalizedEntryView>, i: int, j: int, word: Seq<char>)
    requires
        seen_before(entries, i, j, word),
    ensures
        seen_before(entries, i, j + 1, word),
        seen_before(entries, i + 1, 0, word),
{
    let (i1, j1) = choose|i1: int, j1: int|
        is_position(entries, i1, j1) && comes_before(i1, j1, i, j) && #[trigger] word_at(
            entries,
            i1,
            j1,
        ) == word;
    assert(is_position(entries, i1, j1) && comes_before(i1, j1, i, j + 1) && word_at(
        entries,
        i1,
        j1,
    ) == word);
    assert(is_position(entries, i1, j1) && comes_before(i1, j1, i + 1, 0) && word_at(
        entries,
        i1,
        j1,
    ) == word);
}

/// A table that lists the words of the whole corpus, each under its stem, and nothing else,
/// is the stem table of the corpus.
pub proof fn lemma_table_of_corpus(table: StemTable, entries: Seq<NormalizedEntryView>)
    requires
        lists_words_before(table, entries, entries.len() as int, 0),
    ensures
        table@ == stem_table_of(corpus_words(entries)),
{
    let words = corpus_words(entries);
    let n = entries.len() as int;
    let expected = stem_table_of(words);
    assert forall|word: Seq<char>| words.contains(word) implies table.holds(
        stem_of(word),
        word,
    ) by {
        let (i1, j1) = choose|i1: int, j1: int|
            is_position(entries, i1, j1) && comes_before(i1, j1, n, 0) && #[trigger] word_at(
                entries,
                i1,
                j1,
            ) == word;
        assert(table.holds(stem_of(word_at(entries, i1, j1)), word_at(entries, i1, j1)));
    }
    assert forall|stem: Seq<char>, form: Seq<char>| table.holds(stem, form) implies words.contains(
        form,
    ) && stem_of(form) == stem by {
        let (g, f) = choose|g: int, f: int|
            0 <= g < table.groups@.len() && 0 <= f < table.groups@[g].forms@.len()
                && table.groups@[g].stem@ == stem && #[trigger] table.groups@[g].forms@[f]@ == form;
        assert(seen_before(entries, n, 0, table.groups@[g].forms@[f]@));
    }
    assert forall|stem: Seq<char>| table@.dom().contains(stem) <==> expected.dom().contains(
        stem,
    ) by {
        if table.has_stem(stem) {
            let g = choose|g: int|
                0 <= g < table.groups@.len() && (#[trigger] table.groups@[g]).stem@ == stem;
            let form = table.groups@[g].forms@[0]@;
            assert(table.holds(stem, form));
            assert(words.contains(form) && stem_of(form) == stem);
        }
        if expected.dom().contains(stem) {
            let word = choose|word: Seq<char>| #[trigger]
                words.contains(word) && stem_of(word) == stem;
            assert(table.holds(stem, word));
            let (g, f) = choose|g: int, f: int|
                0 <= g < table.groups@.len() && 0 <= f < table.groups@[g].forms@.len()
                    && table.groups@[g].stem@ == stem && #[trigger] table.groups@[g].forms@[f]@
                    == word;
            assert(table.groups@[g].stem@ == stem);
        }
    }
    assert forall|stem: Seq<char>| table@.dom().contains(stem) implies table@[stem]
        =~= expected[stem] by {
        assert(expected.dom().contains(stem));
        assert(table@[stem] == Set::new(|form: Seq<char>| table.holds(stem, form)));
        assert(expected[stem] == Set::new(
            |word: Seq<char>| words.contains(word) && stem_of(word) == stem,
        ));
        assert forall|form: Seq<char>| table@[stem].contains(form) <==> expected[stem].contains(
            form,
        ) by {
            if table.holds(stem, form) {
                assert(words.contains(form) && stem_of(form) == stem);
            }
            if words.contains(form) && stem_of(form) == stem {
                assert(table.holds(stem, form));
            }
        }
    }
    assert(table@ =~= expected);
}

/// Builds the stem table of the corpus: every word form stands under its stem, once. Stems
/// and forms stand in the order in which they first come in the corpus.
pub fn fill_stems(entries: &Vec<NormalizedEntry>) -> (table: StemTable)
    ensures
        table.wf(),
        table.in_order_of(entries_view(entries@)),
        table@ == stem_table_of(corpus_words(entries_view(entries@))),
{
    let ghost corpus = entries_view(entries@);
    let mut table = StemTable { groups: Vec::new() };
    let mut i: usize = 0;
    while i < entries.len()
        invariant
            i <= entries.len(),
            corpus == entries_view(entries@),
            lists_words_before(table, corpus, i as int, 0),
        decreases entries.len() - i,
    {
        let entry = &entries[i];
        let mut j: usize = 0;
        while j < entry.words.len()
            invariant
                i < entries.len(),
                j <= entry.words.len(),
                *entry == entries@[i as int],
                corpus == entries_view(entries@),
                lists_words_before(table, corpus, i as int, j as int),
            decreases entry.words.len() - j,
        {
            add_word(&mut table, &entry.words[j].word, Ghost(corpus), Ghost(i as int), Ghost(j as int));
            j += 1;
        }
        proof {
            lemma_next_entry(table, corpus, i as int);
        }
        i += 1;
    }
    proof {
        lemma_table_of_corpus(table, corpus);
    }
    table
}

/// At the end of an entry, the words before the end are the words before the next entry.
proof fn lemma_next_entry(table: StemTable, entries: Seq<NormalizedEntryView>, i: int)
    requires
        0 <= i < entries.len(),
        lists_words_before(table, entries, i, entries[i].words.len() as int),
    ensures
        lists_words_before(table, entries, i + 1, 0),
{
    let n = entries[i].words.len() as int;
    assert forall|g: int, f: int|
        0 <= g < table.groups@.len() && 0 <= f < table.groups@[g].forms@.len() implies seen_before(
        entries,
        i + 1,
        0,
        #[trigger] table.groups@[g].forms@[f]@,
    ) by {
        lemma_seen_later(entries, i, n, table.groups@[g].forms@[f]@);
    }
    assert forall|i1: int, j1: int|
        is_position(entries, i1, j1) && comes_before(i1, j1, i + 1, 0) implies table.holds(
        stem_of(#[trigger] word_at(entries, i1, j1)),
        word_at(entries, i1, j1),
    ) by {
        assert(comes_before(i1, j1, i, n));
    }
}

} // verus!
