//! What holds of every build, stated over the contracts of the functions.

use vstd::prelude::*;
use crate::config::Config;
use crate::entry::{Document, NormalizedEntryView};
use crate::errors::DocumentErrorView;
use crate::index::{
    builds,
    errors_view,
    failures,
    index_entries_view,
    outcomes,
    successes,
    Index,
    IndexGenerationError,
};
use crate::stems::{comes_before, corpus_words, is_position, stem_table_of, word_at};

verus! {

/// How many documents were normalized.
pub open spec fn succeeding(outcomes: Seq<Result<NormalizedEntryView, DocumentErrorView>>) -> nat {
    outcomes.filter(|outcome: Result<NormalizedEntryView, DocumentErrorView>| outcome is Ok).len()
}

/// How many documents failed.
pub open spec fn failing(outcomes: Seq<Result<NormalizedEntryView, DocumentErrorView>>) -> nat {
    outcomes.filter(|outcome: Result<NormalizedEntryView, DocumentErrorView>| outcome is Err).len()
}

/// Every document is counted once: it gives an entry or an error, never both and never
/// neither.
pub proof fn lemma_every_document_is_counted(
    outcomes: Seq<Result<NormalizedEntryView, DocumentErrorView>>,
)
    ensures
        successes(outcomes).len() == succeeding(outcomes),
        failures(outcomes).len() == failing(outcomes),
        succeeding(outcomes) + failing(outcomes) == outcomes.len(),
    decreases outcomes.len(),
{
    reveal(Seq::filter);
    if outcomes.len() > 0 {
        lemma_every_document_is_counted(outcomes.drop_last());
    }
}

/// Where some documents can be normalized and others fail, and the configuration does not
/// ask to break on a failure, the build succeeds: its index has one entry for each document
/// that was normalized and one error for each that failed.
pub proof fn lemma_partial_failure_is_tolerated(
    config: Config,
    documents: Seq<Document>,
    r: Result<Index, IndexGenerationError>,
)
    requires
        builds(config, documents, r),
        !config.input.break_on_file_error,
        succeeding(outcomes(config, documents)) >= 1,
        failing(outcomes(config, documents)) >= 1,
    ensures
        r matches Ok(index) && index.entries@.len() == succeeding(outcomes(config, documents))
            && index.errors@.len() == failing(outcomes(config, documents)),
{
    lemma_every_document_is_counted(outcomes(config, documents));
    let index = r->Ok_0;
    assert(index_entries_view(index.entries@).len() == index.entries@.len());
    assert(errors_view(index.errors@).len() == index.errors@.len());
}

/// Where every document fails, the build fails with `NoValidFiles`, and no index is made.
pub proof fn lemma_all_failing_aborts(
    config: Config,
    documents: Seq<Document>,
    r: Result<Index, IndexGenerationError>,
)
    requires
        builds(config, documents, r),
        succeeding(outcomes(config, documents)) == 0,
    ensures
        r == Err::<Index, IndexGenerationError>(IndexGenerationError::NoValidFiles),
{
    lemma_every_document_is_counted(outcomes(config, documents));
}

/// Where the configuration asks to break on a failure, and a document fails while another
/// is normalized, the build fails with `DocumentErrors`. The index that comes along is the
/// one that the build would have given: it shows every document that was normalized.
pub proof fn lemma_break_on_error_keeps_the_index(
    config: Config,
    documents: Seq<Document>,
    r: Result<Index, IndexGenerationError>,
)
    requires
        builds(config, documents, r),
        config.input.break_on_file_error,
        succeeding(outcomes(config, documents)) >= 1,
        failing(outcomes(config, documents)) >= 1,
    ensures
        r matches Err(IndexGenerationError::DocumentErrors(index)) && index.is_index_of(
            config,
            documents,
        ) && index.entries@.len() == succeeding(outcomes(config, documents))
            && index.errors@.len() == failing(outcomes(config, documents)),
{
    lemma_every_document_is_counted(outcomes(config, documents));
    let index = r->Err_0->DocumentErrors_0;
    assert(index_entries_view(index.entries@).len() == index.entries@.len());
    assert(errors_view(index.errors@).len() == index.errors@.len());
}

/// Whatever a build returns, no failure is dropped: an index, handed over as the result or
/// inside `DocumentErrors`, holds the error of every document that failed.
pub proof fn lemma_no_error_is_dropped(
    config: Config,
    documents: Seq<Document>,
    r: Result<Index, IndexGenerationError>,
)
    requires
        builds(config, documents, r),
    ensures
        r matches Ok(index) ==> index.entries@.len() >= 1 && index.entries@.len()
            + index.errors@.len() == config.input.files@.len(),
        r matches Err(IndexGenerationError::DocumentErrors(index)) ==> index.entries@.len() >= 1
            && index.errors@.len() >= 1 && index.entries@.len() + index.errors@.len()
            == config.input.files@.len(),
{
    lemma_every_document_is_counted(outcomes(config, documents));
    match r {
        Ok(index) => {
            assert(index_entries_view(index.entries@).len() == index.entries@.len());
            assert(errors_view(index.errors@).len() == index.errors@.len());
        },
        Err(IndexGenerationError::DocumentErrors(index)) => {
            assert(index_entries_view(index.entries@).len() == index.entries@.len());
            assert(errors_view(index.errors@).len() == index.errors@.len());
        },
        _ => {},
    }
}

/// The stem table does not depend on the order of the entries, nor on how often an entry
/// comes: two corpora that hold the same entries have the same stem table.
pub proof fn lemma_stem_table_ignores_order(
    a: Seq<NormalizedEntryView>,
    b: Seq<NormalizedEntryView>,
)
    requires
        forall|entry: NormalizedEntryView| a.contains(entry) <==> b.contains(entry),
    ensures
        stem_table_of(corpus_words(a)) == stem_table_of(corpus_words(b)),
{
    lemma_words_of_entries(a, b);
    lemma_words_of_entries(b, a);
    assert(corpus_words(a) =~= corpus_words(b));
}

proof fn lemma_words_of_entries(a: Seq<NormalizedEntryView>, b: Seq<NormalizedEntryView>)
    requires
        forall|entry: NormalizedEntryView| a.contains(entry) ==> b.contains(entry),
    ensures
        forall|word: Seq<char>| corpus_words(a).contains(word) ==> corpus_words(b).contains(word),
{
    assert forall|word: Seq<char>| corpus_words(a).contains(word) implies corpus_words(
        b,
    ).contains(word) by {
        let (i, j) = choose|i: int, j: int|
            is_position(a, i, j) && comes_before(i, j, a.len() as int, 0) && #[trigger] word_at(
                a,
                i,
                j,
            ) == word;
        assert(a.contains(a[i]));
        let k = choose|k: int| 0 <= k < b.len() && b[k] == a[i];
        assert(is_position(b, k, j) && comes_before(k, j, b.len() as int, 0) && word_at(b, k, j)
            == word);
    }
}

} // verus!
