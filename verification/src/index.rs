//! The index, and the build that assembles it.

use vstd::prelude::*;
use vstd::string::*;
use crate::config::{Config, TitleBoost};
use crate::containers::{
    are_containers_of,
    fill_containers,
    lemma_containers_follow_the_table,
    total_occurrences,
    total_words,
    Container,
};
use crate::entry::{
    copy_fields,
    fields_view,
    normalize,
    normalized,
    outcome_view,
    Document,
    NormalizedEntry,
    NormalizedEntryView,
};
use crate::errors::{DocumentError, DocumentErrorView};
use crate::stems::{entries_view, fill_stems};

verus! {

/// A document as the index shows it.
#[derive(Clone, Debug, PartialEq, Eq)]
pub struct Entry {
    pub title: String,
    pub url: String,
    pub fields: Vec<(String, String)>,
}

pub struct EntryView {
    pub title: Seq<char>,
    pub url: Seq<char>,
    pub fields: Seq<(Seq<char>, Seq<char>)>,
}

impl View for Entry {
    type V = EntryView;

    open spec fn view(&self) -> EntryView {
        EntryView { title: self.title@, url: self.url@, fields: fields_view(self.fields@) }
    }
}

/// The entry that the index shows for a normalized document.
pub open spec fn entry_of(normalized: NormalizedEntryView) -> EntryView {
    EntryView { title: normalized.title, url: normalized.url, fields: normalized.fields }
}

impl Entry {
    pub fn of(normalized: &NormalizedEntry) -> (r: Entry)
        ensures
            r@ == entry_of(normalized@),
    {
        Entry {
            title: normalized.title.clone(),
            url: normalized.url.clone(),
            fields: copy_fields(&normalized.fields),
        }
    }
}

/// The values of the configuration that go into the index as they are.
#[derive(Clone, Debug, PartialEq, Eq)]
pub struct PassthroughConfig {
    pub url_prefix: String,
    pub title_boost: TitleBoost,
    pub excerpt_buffer: u8,
    pub excerpts_per_result: u8,
    pub displayed_results_count: u8,
}

impl PassthroughConfig {
    /// Whether these are the values of `config`, unchanged.
    pub open spec fn copies(&self, config: Config) -> bool {
        &&& self.url_prefix@ == config.input.url_prefix@
        &&& self.title_boost == config.input.title_boost
        &&& self.excerpt_buffer == config.output.excerpt_buffer
        &&& self.excerpts_per_result == config.output.excerpts_per_result
        &&& self.displayed_results_count == config.output.displayed_results_count
    }

    pub fn of(config: &Config) -> (r: PassthroughConfig)
        ensures
            r.copies(*config),
    {
        PassthroughConfig {
            url_prefix: config.input.url_prefix.clone(),
            title_boost: config.input.title_boost,
            excerpt_buffer: config.output.excerpt_buffer,
            excerpts_per_result: config.output.excerpts_per_result,
            displayed_results_count: config.output.displayed_results_count,
        }
    }
}

/// What a build gives: the documents that were indexed, the containers of their words, and
/// the errors of the documents that were not.
#[derive(Clone, Debug, PartialEq, Eq)]
pub struct Index {
    pub entries: Vec<Entry>,
    pub containers: Vec<Container>,
    pub config: PassthroughConfig,
    pub errors: Vec<DocumentError>,
}

/// Why a build gave no index that its caller may take as good.
#[derive(Clone, Debug, PartialEq, Eq)]
pub enum IndexGenerationError {
    /// Not one document could be indexed.
    NoValidFiles,
    /// Some documents failed where the configuration allows none to fail. The index that the
    /// others give comes along.
    DocumentErrors(Index),
}

pub open spec fn index_entries_view(entries: Seq<Entry>) -> Seq<EntryView> {
    Seq::new(entries.len(), |i: int| entries[i]@)
}

pub open spec fn errors_view(errors: Seq<DocumentError>) -> Seq<DocumentErrorView> {
    Seq::new(errors.len(), |i: int| errors[i]@)
}

/// What came in for file `i`, if anything did.
pub open spec fn document_at(documents: Seq<Document>, i: int) -> Option<Document> {
    if 0 <= i < documents.len() {
        Some(documents[i])
    } else {
        None
    }
}

/// What normalization makes of each configured file, in the order of the configuration.
pub open spec fn outcomes(config: Config, documents: Seq<Document>) -> Seq<
    Result<NormalizedEntryView, DocumentErrorView>,
> {
    Seq::new(
        config.input.files@.len(),
        |i: int|
            normalized(
                i,
                config.input.files@[i],
                config.input.html_selector,
                document_at(documents, i),
            ),
    )
}

pub open spec fn entry_in(outcome: Result<NormalizedEntryView, DocumentErrorView>) -> Option<
    NormalizedEntryView,
> {
    match outcome {
        Ok(entry) => Some(entry),
        Err(_) => None,
    }
}

pub open spec fn error_in(outcome: Result<NormalizedEntryView, DocumentErrorView>) -> Option<
    DocumentErrorView,
> {
    match outcome {
        Ok(_) => None,
        Err(error) => Some(error),
    }
}

/// The entries among the outcomes, in order.
pub open spec fn successes(outcomes: Seq<Result<NormalizedEntryView, DocumentErrorView>>) -> Seq<
    NormalizedEntryView,
> {
    outcomes.filter_map(|outcome: Result<NormalizedEntryView, DocumentErrorView>| entry_in(outcome))
}

/// The errors among the outcomes, in order.
pub open spec fn failures(outcomes: Seq<Result<NormalizedEntryView, DocumentErrorView>>) -> Seq<
    DocumentErrorView,
> {
    outcomes.filter_map(|outcome: Result<NormalizedEntryView, DocumentErrorView>| error_in(outcome))
}

/// Normalizes every configured file. The entries of those that succeed and the errors of
/// those that fail are gathered apart, each in the order of the configuration: the failure
/// of one document does not touch another.
pub fn fill_intermediate_entries(config: &Config, documents: &Vec<Document>) -> (r: (
    Vec<NormalizedEntry>,
    Vec<DocumentError>,
))
    ensures
        entries_view(r.0@) == successes(outcomes(*config, documents@)),
        errors_view(r.1@) == failures(outcomes(*config, documents@)),
{
    let ghost all = outcomes(*config, documents@);
    let ghost pick_entry = |outcome: Result<NormalizedEntryView, DocumentErrorView>|
        entry_in(outcome);
    let ghost pick_error = |outcome: Result<NormalizedEntryView, DocumentErrorView>|
        error_in(outcome);
    let mut entries: Vec<NormalizedEntry> = Vec::new();
    let mut errors: Vec<DocumentError> = Vec::new();
    let mut i: usize = 0;
    assert(all.take(0).filter_map(pick_entry) == Seq::<NormalizedEntryView>::empty());
    assert(all.take(0).filter_map(pick_error) == Seq::<DocumentErrorView>::empty());
    while i < config.input.files.len()
        invariant
            i <= config.input.files@.len(),
            all == outcomes(*config, documents@),
            pick_entry == |outcome: Result<NormalizedEntryView, DocumentErrorView>|
                entry_in(outcome),
            pick_error == |outcome: Result<NormalizedEntryView, DocumentErrorView>|
                error_in(outcome),
            entries_view(entries@) == all.take(i as int).filter_map(pick_entry),
            errors_view(errors@) == all.take(i as int).filter_map(pick_error),
        decreases config.input.files.len() - i,
    {
        let document = if i < documents.len() {
            Some(&documents[i])
        } else {
            None
        };
        let outcome = normalize(i, &config.input.files[i], &config.input.html_selector, document);
        proof {
            assert(outcome_view(outcome) == all[i as int]);
            all.lemma_filter_map_take_succ(pick_entry, i as int);
            all.lemma_filter_map_take_succ(pick_error, i as int);
        }
        match outcome {
            Ok(entry) => {
                assert(entries_view(entries@.push(entry)) == entries_view(entries@) + seq![entry@]);
                assert(errors_view(errors@) + Seq::<DocumentErrorView>::empty() == errors_view(
                    errors@,
                ));
                entries.push(entry);
            },
            Err(error) => {
                assert(errors_view(errors@.push(error)) == errors_view(errors@) + seq![error@]);
                assert(entries_view(entries@) + Seq::<NormalizedEntryView>::empty()
                    == entries_view(entries@));
                errors.push(error);
            },
        }
        i += 1;
    }
    assert(all.take(all.len() as int) == all);
    (entries, errors)
}

/// The entries that the index shows for the normalized documents.
pub open spec fn entries_of(normalized: Seq<NormalizedEntryView>) -> Seq<EntryView> {
    Seq::new(normalized.len(), |i: int| entry_of(normalized[i]))
}

fn index_entries(normalized: &Vec<NormalizedEntry>) -> (r: Vec<Entry>)
    ensures
        index_entries_view(r@) == entries_of(entries_view(normalized@)),
{
    let mut r: Vec<Entry> = Vec::new();
    let mut i: usize = 0;
    while i < normalized.len()
        invariant
            i <= normalized.len(),
            r@.len() == i,
            forall|k: int| 0 <= k < i ==> (#[trigger] r@[k])@ == entry_of(normalized@[k]@),
        decreases normalized.len() - i,
    {
        r.push(Entry::of(&normalized[i]));
        i += 1;
    }
    r
}

impl Index {
    /// Whether this is the index of the documents: it shows the documents that were
    /// normalized, in order, holds the containers of their words, the values of the
    /// configuration, and the error of every document that failed, in order.
    pub open spec fn is_index_of(&self, config: Config, documents: Seq<Document>) -> bool {
        let all = outcomes(config, documents);
        &&& index_entries_view(self.entries@) == entries_of(successes(all))
        &&& errors_view(self.errors@) == failures(all)
        &&& are_containers_of(self.containers@, successes(all))
        &&& total_occurrences(self.containers@) == total_words(successes(all))
        &&& self.config.copies(config)
    }
}

/// What a build returns for a configuration and what came in for its files.
///
/// Without any entry the build fails, and no index is made. With entries the index is made.
/// It is handed over inside an error where a document failed and the configuration asks to
/// break on that, and as the result of the build otherwise.
pub open spec fn builds(
    config: Config,
    documents: Seq<Document>,
    r: Result<Index, IndexGenerationError>,
) -> bool {
    let all = outcomes(config, documents);
    if successes(all).len() == 0 {
        r == Err::<Index, IndexGenerationError>(IndexGenerationError::NoValidFiles)
    } else if config.input.break_on_file_error && failures(all).len() > 0 {
        r matches Err(IndexGenerationError::DocumentErrors(index)) && index.is_index_of(
            config,
            documents,
        )
    } else {
        r matches Ok(index) && index.is_index_of(config, documents)
    }
}

/// Builds the index of the configured files.
///
/// `documents` holds what came in for the files, in the order of the configuration. A file
/// beyond the end of `documents` counts as one that no reader could read.
pub fn build(config: &Config, documents: &Vec<Document>) -> (r: Result<
    Index,
    IndexGenerationError,
>)
    ensures
        builds(*config, documents@, r),
{
    let (normalized, errors) = fill_intermediate_entries(config, documents);
    if normalized.len() == 0 {
        return Err(IndexGenerationError::NoValidFiles);
    }
    let stems = fill_stems(&normalized);
    let containers = fill_containers(&normalized, &stems);
    proof {
        lemma_containers_follow_the_table(containers@, stems, entries_view(normalized@));
    }
    let entries = index_entries(&normalized);
    let index = Index { entries, containers, config: PassthroughConfig::of(config), errors };
    if config.input.break_on_file_error && index.errors.len() > 0 {
        Err(IndexGenerationError::DocumentErrors(index))
    } else {
        Ok(index)
    }
}

} // verus!
