//! Containers: for each stem, the places in the corpus where a word with this stem stands.

use vstd::prelude::*;
use vstd::string::*;
use crate::entry::{NormalizedEntry, NormalizedEntryView};
use crate::stem::stem_of;
use crate::stems::{
    comes_before,
    corpus_words,
    entries_view,
    find_stem,
    is_position,
    seen_before,
    stem_comes_first,
    stem_string,
    stem_table_of,
    word_at,
    StemTable,
};

verus! {

/// One place where a word stands.
#[derive(Clone, Copy, Debug, PartialEq, Eq, Structural)]
pub struct Occurrence {
    /// The place of the entry among the entries.
    pub entry: usize,
    /// The place of the word among the words of the entry.
    pub position: usize,
    /// Where the token of the word begins in the text, counted in characters.
    pub character_offset: usize,
}

pub struct OccurrenceView {
    pub entry: int,
    pub position: int,
    pub character_offset: int,
}

impl View for Occurrence {
    type V = OccurrenceView;

    open spec fn view(&self) -> OccurrenceView {
        OccurrenceView {
            entry: self.entry as int,
            position: self.position as int,
            character_offset: self.character_offset as int,
        }
    }
}

/// All the occurrences of the words that share one stem.
#[derive(Clone, Debug, PartialEq, Eq)]
pub struct Container {
    pub stem: String,
    pub occurrences: Vec<Occurrence>,
}

pub open spec fn occurrences_view(occurrences: Seq<Occurrence>) -> Seq<OccurrenceView> {
    Seq::new(occurrences.len(), |n: int| occurrences[n]@)
}

/// The occurrence that stands for word `j` of entry `i`.
pub open spec fn occurrence_at(entries: Seq<NormalizedEntryView>, i: int, j: int) -> OccurrenceView {
    OccurrenceView {
        entry: i,
        position: j,
        character_offset: entries[i].words[j].character_offset,
    }
}

/// The occurrences of `stem` among the first `j` words of entry `i`, in the order of the
/// words.
pub open spec fn occurrences_in_entry(
    entries: Seq<NormalizedEntryView>,
    stem: Seq<char>,
    i: int,
    j: int,
) -> Seq<OccurrenceView>
    decreases j,
{
    if j <= 0 {
        Seq::empty()
    } else {
        let before = occurrences_in_entry(entries, stem, i, j - 1);
        if stem_of(word_at(entries, i, j - 1)) == stem {
            before.push(occurrence_at(entries, i, j - 1))
        } else {
            before
        }
    }
}

/// The occurrences of `stem` in the first `i` entries: entry by entry, and in each entry in
/// the order of its words.
pub open spec fn occurrences_in_first(
    entries: Seq<NormalizedEntryView>,
    stem: Seq<char>,
    i: int,
) -> Seq<OccurrenceView>
    decreases i,
{
    if i <= 0 {
        Seq::empty()
    } else {
        occurrences_in_first(entries, stem, i - 1) + occurrences_in_entry(
            entries,
            stem,
            i - 1,
            entries[i - 1].words.len() as int,
        )
    }
}

/// The occurrences of `stem` in the whole corpus, in corpus order.
pub open spec fn occurrences_of(entries: Seq<NormalizedEntryView>, stem: Seq<char>) -> Seq<
    OccurrenceView,
> {
    occurrences_in_first(entries, stem, entries.len() as int)
}

/// How many words the first `i` entries hold.
pub open spec fn words_in_first(entries: Seq<NormalizedEntryView>, i: int) -> nat
    decreases i,
{
    if i <= 0 {
        0
    } else {
        words_in_first(entries, i - 1) + entries[i - 1].words.len()
    }
}

/// How many words the corpus holds.
pub open spec fn total_words(entries: Seq<NormalizedEntryView>) -> nat {
    words_in_first(entries, entries.len() as int)
}

/// How many occurrences the containers hold together.
pub open spec fn total_occurrences(containers: Seq<Container>) -> nat
    decreases containers.len(),
{
    if containers.len() == 0 {
        0
    } else {
        total_occurrences(containers.drop_last()) + containers.last().occurrences@.len()
    }
}

/// Whether `containers` hold the corpus: there is one for each stem that a word of the
/// corpus has and none for any other stem, and each one holds the occurrences of its stem,
/// all of them, in corpus order.
pub open spec fn hold_the_corpus(
    containers: Seq<Container>,
    entries: Seq<NormalizedEntryView>,
) -> bool {
    &&& forall|k: int, l: int|
        0 <= k < l < containers.len() ==> (#[trigger] containers[k]).stem@
            != (#[trigger] containers[l]).stem@
    &&& forall|k: int|
        0 <= k < containers.len() ==> occurrences_view((#[trigger] containers[k]).occurrences@)
            == occurrences_of(entries, containers[k].stem@)
    &&& forall|k: int|
        0 <= k < containers.len() ==> (#[trigger] containers[k]).occurrences@.len() > 0
    &&& forall|i: int, j: int|
        is_position(entries, i, j) ==> has_container(
            containers,
            stem_of(#[trigger] word_at(entries, i, j)),
        )
}

/// Whether `containers` stand in the order in which their stems first come in the corpus.
pub open spec fn stand_in_corpus_order(
    containers: Seq<Container>,
    entries: Seq<NormalizedEntryView>,
) -> bool {
    forall|k: int, l: int|
        0 <= k < l < containers.len() ==> stem_comes_first(
            entries,
            (#[trigger] containers[k]).stem@,
            (#[trigger] containers[l]).stem@,
        )
}

/// Whether `containers` are the containers of a corpus.
pub open spec fn are_containers_of(
    containers: Seq<Container>,
    entries: Seq<NormalizedEntryView>,
) -> bool {
    hold_the_corpus(containers, entries) && stand_in_corpus_order(containers, entries)
}

pub open spec fn has_container(containers: Seq<Container>, stem: Seq<char>) -> bool {
    exists|k: int| 0 <= k < containers.len() && (#[trigger] containers[k]).stem@ == stem
}

/// The occurrences of a stem inside one entry are the words of the entry with this stem.
pub proof fn lemma_occurrences_in_entry(
    entries: Seq<NormalizedEntryView>,
    stem: Seq<char>,
    i: int,
    j: int,
)
    requires
        0 <= j,
    ensures
        occurrences_in_entry(entries, stem, i, j).len() <= j,
        forall|n: int|
            0 <= n < occurrences_in_entry(entries, stem, i, j).len() ==> {
                let o = #[trigger] occurrences_in_entry(entries, stem, i, j)[n];
                &&& o.entry == i
                &&& 0 <= o.position < j
                &&& o == occurrence_at(entries, i, o.position)
                &&& stem_of(word_at(entries, i, o.position)) == stem
            },
        forall|j1: int|
            0 <= j1 < j && stem_of(#[trigger] word_at(entries, i, j1)) == stem
                ==> occurrences_in_entry(entries, stem, i, j).contains(occurrence_at(entries, i, j1)),
    decreases j,
{
    if j > 0 {
        lemma_occurrences_in_entry(entries, stem, i, j - 1);
        let before = occurrences_in_entry(entries, stem, i, j - 1);
        let now = occurrences_in_entry(entries, stem, i, j);
        assert forall|j1: int|
            0 <= j1 < j && stem_of(#[trigger] word_at(entries, i, j1)) == stem implies now.contains(
            occurrence_at(entries, i, j1),
        ) by {
            if j1 < j - 1 {
                let n = choose|n: int|
                    0 <= n < before.len() && before[n] == occurrence_at(entries, i, j1);
                assert(now[n] == occurrence_at(entries, i, j1));
            } else {
                assert(now[before.len() as int] == occurrence_at(entries, i, j1));
            }
        }
    }
}

/// The occurrences of a stem in the corpus are the words of the corpus with this stem.
pub proof fn lemma_occurrences_in_first(
    entries: Seq<NormalizedEntryView>,
    stem: Seq<char>,
    i: int,
)
    requires
        0 <= i <= entries.len(),
    ensures
        forall|n: int|
            0 <= n < occurrences_in_first(entries, stem, i).len() ==> {
                let o = #[trigger] occurrences_in_first(entries, stem, i)[n];
                &&& 0 <= o.entry < i
                &&& is_position(entries, o.entry, o.position)
                &&& o == occurrence_at(entries, o.entry, o.position)
                &&& stem_of(word_at(entries, o.entry, o.position)) == stem
            },
        forall|i1: int, j1: int|
            is_position(entries, i1, j1) && i1 < i && stem_of(#[trigger] word_at(entries, i1, j1))
                == stem ==> occurrences_in_first(entries, stem, i).contains(
                occurrence_at(entries, i1, j1),
            ),
    decreases i,
{
    if i > 0 {
        lemma_occurrences_in_first(entries, stem, i - 1);
        let len = entries[i - 1].words.len() as int;
        lemma_occurrences_in_entry(entries, stem, i - 1, len);
        let before = occurrences_in_first(entries, stem, i - 1);
        let here = occurrences_in_entry(entries, stem, i - 1, len);
        let now = occurrences_in_first(entries, stem, i);
        assert forall|n: int| 0 <= n < now.len() implies {
            let o = #[trigger] now[n];
            &&& 0 <= o.entry < i
            &&& is_position(entries, o.entry, o.position)
            &&& o == occurrence_at(entries, o.entry, o.position)
            &&& stem_of(word_at(entries, o.entry, o.position)) == stem
        } by {
            if n < before.len() {
                assert(now[n] == before[n]);
            } else {
                assert(now[n] == here[n - before.len()]);
            }
        }
        assert forall|i1: int, j1: int|
            is_position(entries, i1, j1) && i1 < i && stem_of(#[trigger] word_at(entries, i1, j1))
                == stem implies now.contains(occurrence_at(entries, i1, j1)) by {
            if i1 < i - 1 {
                let n = choose|n: int|
                    0 <= n < before.len() && before[n] == occurrence_at(entries, i1, j1);
                assert(now[n] == occurrence_at(entries, i1, j1));
            } else {
                let n = choose|n: int|
                    0 <= n < here.len() && here[n] == occurrence_at(entries, i1, j1);
                assert(now[before.len() + n] == occurrence_at(entries, i1, j1));
            }
        }
    }
}

/// Every word of the corpus stands in exactly one container: the one of its stem.
pub proof fn lemma_each_word_in_one_container(
    containers: Seq<Container>,
    entries: Seq<NormalizedEntryView>,
    i: int,
    j: int,
)
    requires
        hold_the_corpus(containers, entries),
        is_position(entries, i, j),
    ensures
        exists|k: int|
            0 <= k < containers.len() && (#[trigger] containers[k]).stem@ == stem_of(
                word_at(entries, i, j),
            ) && occurrences_view(containers[k].occurrences@).contains(
                occurrence_at(entries, i, j),
            ),
        forall|k: int|
            0 <= k < containers.len() && occurrences_view(
                (#[trigger] containers[k]).occurrences@,
            ).contains(occurrence_at(entries, i, j)) ==> containers[k].stem@ == stem_of(
                word_at(entries, i, j),
            ),
        forall|k: int, l: int|
            0 <= k < containers.len() && 0 <= l < containers.len() && occurrences_view(
                (#[trigger] containers[k]).occurrences@,
            ).contains(occurrence_at(entries, i, j)) && occurrences_view(
                (#[trigger] containers[l]).occurrences@,
            ).contains(occurrence_at(entries, i, j)) ==> k == l,
{
    let word = word_at(entries, i, j);
    let here = occurrence_at(entries, i, j);
    assert(has_container(containers, stem_of(word)));
    let k = choose|k: int| 0 <= k < containers.len() && (#[trigger] containers[k]).stem@ == stem_of(word);
    lemma_occurrences_in_first(entries, stem_of(word), entries.len() as int);
    assert(occurrences_view(containers[k].occurrences@).contains(here));
    assert forall|l: int|
        0 <= l < containers.len() && occurrences_view(
            (#[trigger] containers[l]).occurrences@,
        ).contains(here) implies containers[l].stem@ == stem_of(word) by {
        lemma_occurrences_in_first(entries, containers[l].stem@, entries.len() as int);
        let listed = occurrences_of(entries, containers[l].stem@);
        let n = choose|n: int| 0 <= n < listed.len() && listed[n] == here;
        assert(listed[n].entry == i && listed[n].position == j);
    }
}

/// How many occurrences the first `m` containers would hold of the first `j` words of entry
/// `i`.
pub open spec fn share_of_entry(
    containers: Seq<Container>,
    entries: Seq<NormalizedEntryView>,
    i: int,
    j: int,
    m: int,
) -> nat
    decreases m,
{
    if m <= 0 {
        0
    } else {
        share_of_entry(containers, entries, i, j, m - 1) + occurrences_in_entry(
            entries,
            containers[m - 1].stem@,
            i,
            j,
        ).len()
    }
}

/// How many occurrences the first `m` containers would hold of the first `i` entries.
pub open spec fn share_of_first(
    containers: Seq<Container>,
    entries: Seq<NormalizedEntryView>,
    i: int,
    m: int,
) -> nat
    decreases m,
{
    if m <= 0 {
        0
    } else {
        share_of_first(containers, entries, i, m - 1) + occurrences_in_first(
            entries,
            containers[m - 1].stem@,
            i,
        ).len()
    }
}

/// Whether one of the first `m` containers has the stem `stem`.
pub open spec fn has_container_among(containers: Seq<Container>, stem: Seq<char>, m: int) -> bool {
    exists|k: int| 0 <= k < m && (#[trigger] containers[k]).stem@ == stem
}

/// One more word of an entry is one more occurrence for the container of its stem, and for
/// no other.
proof fn lemma_share_of_next_word(
    containers: Seq<Container>,
    entries: Seq<NormalizedEntryView>,
    i: int,
    j: int,
    m: int,
)
    requires
        0 <= j,
        0 <= m <= containers.len(),
        forall|k: int, l: int|
            0 <= k < l < containers.len() ==> (#[trigger] containers[k]).stem@
                != (#[trigger] containers[l]).stem@,
    ensures
        share_of_entry(containers, entries, i, j + 1, m) == share_of_entry(
            containers,
            entries,
            i,
            j,
            m,
        ) + (if has_container_among(containers, stem_of(word_at(entries, i, j)), m) {
            1nat
        } else {
            0nat
        }),
    decreases m,
{
    let stem = stem_of(word_at(entries, i, j));
    if m > 0 {
        lemma_share_of_next_word(containers, entries, i, j, m - 1);
        if containers[m - 1].stem@ == stem {
            if has_container_among(containers, stem, m - 1) {
                let k = choose|k: int| 0 <= k < m - 1 && (#[trigger] containers[k]).stem@ == stem;
                assert(containers[k].stem@ != containers[m - 1].stem@);
            }
        } else {
            if has_container_among(containers, stem, m) {
                let k = choose|k: int| 0 <= k < m && (#[trigger] containers[k]).stem@ == stem;
                assert(0 <= k < m - 1 && containers[k].stem@ == stem);
            }
        }
    }
}

/// The containers share out the words of an entry: each word goes to one container.
proof fn lemma_share_of_entry(
    containers: Seq<Container>,
    entries: Seq<NormalizedEntryView>,
    i: int,
    j: int,
)
    requires
        hold_the_corpus(containers, entries),
        0 <= i < entries.len(),
        0 <= j <= entries[i].words.len(),
    ensures
        share_of_entry(containers, entries, i, j, containers.len() as int) == j,
    decreases j,
{
    if j > 0 {
        lemma_share_of_entry(containers, entries, i, j - 1);
        lemma_share_of_next_word(containers, entries, i, j - 1, containers.len() as int);
        assert(is_position(entries, i, j - 1));
        assert(has_container(containers, stem_of(word_at(entries, i, j - 1))));
    } else {
        lemma_share_of_nothing(containers, entries, i, containers.len() as int);
    }
}

proof fn lemma_share_of_nothing(
    containers: Seq<Container>,
    entries: Seq<NormalizedEntryView>,
    i: int,
    m: int,
)
    ensures
        share_of_entry(containers, entries, i, 0, m) == 0,
        share_of_first(containers, entries, 0, m) == 0,
    decreases m,
{
    if m > 0 {
        lemma_share_of_nothing(containers, entries, i, m - 1);
    }
}

/// The share of the first `i` entries is the share of the entries before the last of them
/// and the share of that last one.
proof fn lemma_share_of_next_entry(
    containers: Seq<Container>,
    entries: Seq<NormalizedEntryView>,
    i: int,
    m: int,
)
    requires
        0 < i,
    ensures
        share_of_first(containers, entries, i, m) == share_of_first(containers, entries, i - 1, m)
            + share_of_entry(containers, entries, i - 1, entries[i - 1].words.len() as int, m),
    decreases m,
{
    if m > 0 {
        lemma_share_of_next_entry(containers, entries, i, m - 1);
    }
}

proof fn lemma_share_of_first(
    containers: Seq<Container>,
    entries: Seq<NormalizedEntryView>,
    i: int,
)
    requires
        hold_the_corpus(containers, entries),
        0 <= i <= entries.len(),
    ensures
        share_of_first(containers, entries, i, containers.len() as int) == words_in_first(
            entries,
            i,
        ),
    decreases i,
{
    if i > 0 {
        lemma_share_of_first(containers, entries, i - 1);
        lemma_share_of_next_entry(containers, entries, i, containers.len() as int);
        lemma_share_of_entry(containers, entries, i - 1, entries[i - 1].words.len() as int);
    } else {
        lemma_share_of_nothing(containers, entries, 0, containers.len() as int);
    }
}

proof fn lemma_total_is_share(
    containers: Seq<Container>,
    entries: Seq<NormalizedEntryView>,
    m: int,
)
    requires
        hold_the_corpus(containers, entries),
        0 <= m <= containers.len(),
    ensures
        total_occurrences(containers.take(m)) == share_of_first(
            containers,
            entries,
            entries.len() as int,
            m,
        ),
    decreases m,
{
    if m > 0 {
        lemma_total_is_share(containers, entries, m - 1);
        assert(containers.take(m).drop_last() == containers.take(m - 1));
        assert(containers.take(m).last() == containers[m - 1]);
        assert(occurrences_view(containers[m - 1].occurrences@).len()
            == containers[m - 1].occurrences@.len());
    }
}

/// The containers of a corpus hold as many occurrences as the corpus holds words.
pub proof fn lemma_as_many_occurrences_as_words(
    containers: Seq<Container>,
    entries: Seq<NormalizedEntryView>,
)
    requires
        hold_the_corpus(containers, entries),
    ensures
        total_occurrences(containers) == total_words(entries),
{
    lemma_total_is_share(containers, entries, containers.len() as int);
    assert(containers.take(containers.len() as int) == containers);
    lemma_share_of_first(containers, entries, entries.len() as int);
}

/// Containers that follow a stem table stand in the order of the corpus where the table does.
pub proof fn lemma_containers_follow_the_table(
    containers: Seq<Container>,
    table: StemTable,
    entries: Seq<NormalizedEntryView>,
)
    requires
        table.in_order_of(entries),
        containers.len() == table.groups@.len(),
        forall|k: int|
            0 <= k < containers.len() ==> (#[trigger] containers[k]).stem@
                == table.groups@[k].stem@,
    ensures
        stand_in_corpus_order(containers, entries),
{
    assert forall|k: int, l: int| 0 <= k < l < containers.len() implies stem_comes_first(
        entries,
        (#[trigger] containers[k]).stem@,
        (#[trigger] containers[l]).stem@,
    ) by {
        assert(stem_comes_first(entries, table.groups@[k].stem@, table.groups@[l].stem@));
    }
}

/// What holds of the containers while the corpus is walked.
spec fn hold_words_before(
    containers: Seq<Container>,
    table: StemTable,
    entries: Seq<NormalizedEntryView>,
    i: int,
    j: int,
) -> bool {
    &&& containers.len() == table.groups@.len()
    &&& forall|k: int|
        0 <= k < containers.len() ==> (#[trigger] containers[k]).stem@ == table.groups@[k].stem@
    &&& forall|k: int|
        0 <= k < containers.len() ==> occurrences_view((#[trigger] containers[k]).occurrences@)
            == occurrences_in_first(entries, containers[k].stem@, i) + occurrences_in_entry(
            entries,
            containers[k].stem@,
            i,
            j,
        )
}

/// One empty container for each stem of the table.
fn empty_containers(table: &StemTable) -> (r: Vec<Container>)
    ensures
        r@.len() == table.groups@.len(),
        forall|k: int| 0 <= k < r@.len() ==> (#[trigger] r@[k]).stem@ == table.groups@[k].stem@,
        forall|k: int| 0 <= k < r@.len() ==> (#[trigger] r@[k]).occurrences@.len() == 0,
{
    let mut r: Vec<Container> = Vec::new();
    let mut k: usize = 0;
    while k < table.groups.len()
        invariant
            k <= table.groups@.len(),
            r@.len() == k,
            forall|l: int| 0 <= l < k ==> (#[trigger] r@[l]).stem@ == table.groups@[l].stem@,
            forall|l: int| 0 <= l < k ==> (#[trigger] r@[l]).occurrences@.len() == 0,
        decreases table.groups.len() - k,
    {
        r.push(Container { stem: table.groups[k].stem.clone(), occurrences: Vec::new() });
        k += 1;
    }
    r
}

/// Builds the containers of the corpus, one for each stem of the stem table, in the order of
/// the table.
///
/// Each word of each entry is put, as an occurrence, into the container of its stem. So a
/// container holds its occurrences in corpus order, every word stands in exactly one
/// container, and the containers hold as many occurrences as the corpus holds words.
pub fn fill_containers(entries: &Vec<NormalizedEntry>, table: &StemTable) -> (containers: Vec<
    Container,
>)
    requires
        table.wf(),
        table@ == stem_table_of(corpus_words(entries_view(entries@))),
    ensures
        hold_the_corpus(containers@, entries_view(entries@)),
        total_occurrences(containers@) == total_words(entries_view(entries@)),
        containers@.len() == table.groups@.len(),
        forall|k: int|
            0 <= k < containers@.len() ==> (#[trigger] containers@[k]).stem@
                == table.groups@[k].stem@,
{
    let ghost corpus = entries_view(entries@);
    let mut containers = empty_containers(table);
    let mut i: usize = 0;
    assert forall|k: int| 0 <= k < containers@.len() implies occurrences_view(
        (#[trigger] containers@[k]).occurrences@,
    ) == occurrences_in_first(corpus, containers@[k].stem@, 0) + occurrences_in_entry(
        corpus,
        containers@[k].stem@,
        0,
        0,
    ) by {}
    while i < entries.len()
        invariant
            i <= entries.len(),
            corpus == entries_view(entries@),
            table.wf(),
            table@ == stem_table_of(corpus_words(corpus)),
            hold_words_before(containers@, *table, corpus, i as int, 0),
        decreases entries.len() - i,
    {
        let entry = &entries[i];
        let mut j: usize = 0;
        while j < entry.words.len()
            invariant
                i < entries.len(),
                j <= entry.words.len(),
                *entry == entries@[i as int],
                corpus == entries_view(entries@),
                table.wf(),
                table@ == stem_table_of(corpus_words(corpus)),
                hold_words_before(containers@, *table, corpus, i as int, j as int),
            decreases entry.words.len() - j,
        {
            let word = &entry.words[j];
            let stem = stem_string(&word.word);
            let ghost before = containers@;
            assert(is_position(corpus, i as int, j as int));
            assert(word_at(corpus, i as int, j as int) == word.word@);
            assert(corpus[i as int].words[j as int].character_offset == word.character_offset);
            proof {
                assert(comes_before(i as int, j as int, corpus.len() as int, 0));
                assert(seen_before(corpus, corpus.len() as int, 0, word.word@));
                assert(corpus_words(corpus).contains(word.word@));
                assert(stem_table_of(corpus_words(corpus)).dom().contains(stem@));
                assert(table@.dom().contains(stem@));
                assert(table.has_stem(stem@));
            }
            match find_stem(table, &stem) {
                Some(g) => {
                    let occurrence = Occurrence {
                        entry: i,
                        position: j,
                        character_offset: word.character_offset,
                    };
                    containers[g].occurrences.push(occurrence);
                    proof {
                        assert forall|k: int| 0 <= k < containers@.len() implies occurrences_view(
                            (#[trigger] containers@[k]).occurrences@,
                        ) == occurrences_in_first(corpus, containers@[k].stem@, i as int)
                            + occurrences_in_entry(corpus, containers@[k].stem@, i as int, j + 1) by {
                            if k == g {
                                assert(occurrences_view(containers@[k].occurrences@)
                                    == occurrences_view(before[k].occurrences@).push(
                                    occurrence_at(corpus, i as int, j as int),
                                ));
                            } else {
                                assert(containers@[k] == before[k]);
                                assert(table.groups@[k].stem@ != table.groups@[g as int].stem@);
                            }
                        }
                    }
                },
                None => {},
            }
            j += 1;
        }
        assert forall|k: int| 0 <= k < containers@.len() implies occurrences_view(
            (#[trigger] containers@[k]).occurrences@,
        ) == occurrences_in_first(corpus, containers@[k].stem@, i + 1) + occurrences_in_entry(
            corpus,
            containers@[k].stem@,
            i + 1,
            0,
        ) by {}
        i += 1;
    }
    proof {
        let n = corpus.len() as int;
        assert forall|k: int| 0 <= k < containers@.len() implies occurrences_view(
            (#[trigger] containers@[k]).occurrences@,
        ) == occurrences_of(corpus, containers@[k].stem@) by {}
        assert forall|i1: int, j1: int| is_position(corpus, i1, j1) implies has_container(
            containers@,
            stem_of(#[trigger] word_at(corpus, i1, j1)),
        ) by {
            let w = word_at(corpus, i1, j1);
            assert(comes_before(i1, j1, n, 0));
            assert(corpus_words(corpus).contains(w));
            assert(stem_table_of(corpus_words(corpus)).dom().contains(stem_of(w)));
            assert(table@.dom().contains(stem_of(w)));
            let g = choose|g: int|
                0 <= g < table.groups@.len() && (#[trigger] table.groups@[g]).stem@ == stem_of(w);
            assert(containers@[g].stem@ == stem_of(w));
        }
        assert forall|k: int| 0 <= k < containers@.len() implies (
        #[trigger] containers@[k]).occurrences@.len() > 0 by {
            let form = table.groups@[k].forms@[0]@;
            let stem = table.groups@[k].stem@;
            assert(table.holds(stem, form));
            assert(table@.dom().contains(stem));
            assert(table@[stem].contains(form));
            assert(stem_table_of(corpus_words(corpus))[stem].contains(form));
            assert(corpus_words(corpus).contains(form));
            let (i1, j1) = choose|i1: int, j1: int|
                is_position(corpus, i1, j1) && comes_before(i1, j1, n, 0) && #[trigger] word_at(
                    corpus,
                    i1,
                    j1,
                ) == form;
            lemma_occurrences_in_first(corpus, stem, n);
            assert(occurrences_of(corpus, stem).contains(occurrence_at(corpus, i1, j1)));
        }
        assert forall|k: int, l: int| 0 <= k < l < containers@.len() implies (
        #[trigger] containers@[k]).stem@ != (#[trigger] containers@[l]).stem@ by {
            assert(table.groups@[k].stem@ != table.groups@[l].stem@);
        }
        lemma_as_many_occurrences_as_words(containers@, corpus);
    }
    containers
}

} // verus!
