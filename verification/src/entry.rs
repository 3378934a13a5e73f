//! Normalization: from the raw content of one document to its words.

use vstd::prelude::*;
use vstd::string::*;
use crate::config::{File, Filetype};
use crate::errors::{
    DocumentError,
    DocumentErrorView,
    WordListGenerationError,
    WordListGenerationErrorView,
};
use crate::reader::ReadResult;
use crate::text::{
    chars_of,
    string_of,
    surrounding_punctuation_bounds,
    token_bounds,
    tokens,
    without_surrounding_punctuation,
};

verus! {

/// One word of a document, as it stands in the text but for the punctuation around it.
#[derive(Clone, Debug, PartialEq, Eq)]
pub struct AnnotatedWord {
    pub word: String,
    /// Where the token of this word begins in the text, counted in characters.
    pub character_offset: usize,
    /// The place of the document among the configured files.
    pub document: usize,
}

pub struct AnnotatedWordView {
    pub word: Seq<char>,
    pub character_offset: int,
    pub document: int,
}

impl View for AnnotatedWord {
    type V = AnnotatedWordView;

    open spec fn view(&self) -> AnnotatedWordView {
        AnnotatedWordView {
            word: self.word@,
            character_offset: self.character_offset as int,
            document: self.document as int,
        }
    }
}

/// A document that was normalized: its words, in the order of the text.
#[derive(Clone, Debug, PartialEq, Eq)]
pub struct NormalizedEntry {
    pub title: String,
    pub url: String,
    pub words: Vec<AnnotatedWord>,
    pub fields: Vec<(String, String)>,
}

pub struct NormalizedEntryView {
    pub title: Seq<char>,
    pub url: Seq<char>,
    pub words: Seq<AnnotatedWordView>,
    pub fields: Seq<(Seq<char>, Seq<char>)>,
}

pub open spec fn words_view(words: Seq<AnnotatedWord>) -> Seq<AnnotatedWordView> {
    Seq::new(words.len(), |i: int| words[i]@)
}

pub open spec fn fields_view(fields: Seq<(String, String)>) -> Seq<(Seq<char>, Seq<char>)> {
    Seq::new(fields.len(), |i: int| (fields[i].0@, fields[i].1@))
}

impl View for NormalizedEntry {
    type V = NormalizedEntryView;

    open spec fn view(&self) -> NormalizedEntryView {
        NormalizedEntryView {
            title: self.title@,
            url: self.url@,
            words: words_view(self.words@),
            fields: fields_view(self.fields@),
        }
    }
}

/// What came in for one configured file from outside this library.
#[derive(Debug, PartialEq, Eq)]
pub struct Document {
    /// What the reader of the file's source made of it.
    pub read: Result<ReadResult, WordListGenerationError>,
    /// For a file with markup: the text that stands under the file's selector, or `None`
    /// where the selector matches nothing. Not looked at for plain text.
    pub selected_text: Option<String>,
}

/// The word that a token holds, if it holds one: the token without the punctuation around
/// it, unless nothing is left.
pub open spec fn word_of_token(text: Seq<char>, document: int, token: (int, int)) -> Option<
    AnnotatedWordView,
> {
    let word = without_surrounding_punctuation(text.subrange(token.0, token.1));
    if word.len() > 0 {
        Some(AnnotatedWordView { word, character_offset: token.0, document })
    } else {
        None
    }
}

/// The words of a text, in order.
pub open spec fn words_of(text: Seq<char>, document: int) -> Seq<AnnotatedWordView> {
    tokens(text).filter_map(|token: (int, int)| word_of_token(text, document, token))
}

/// Splits a text into its words.
pub fn annotated_words(text: &str, document: usize) -> (r: Vec<AnnotatedWord>)
    ensures
        words_view(r@) == words_of(text@, document as int),
{
    let chars = chars_of(text);
    let bounds = token_bounds(&chars);
    let ghost all = tokens(text@);
    let ghost pick = |token: (int, int)| word_of_token(text@, document as int, token);
    let mut r: Vec<AnnotatedWord> = Vec::new();
    let mut k: usize = 0;
    proof {
        crate::text::lemma_tokens(text@);
        assert(all.take(0).filter_map(pick) == Seq::<AnnotatedWordView>::empty());
    }
    while k < bounds.len()
        invariant
            k <= bounds.len(),
            chars@ == text@,
            all == tokens(text@),
            pick == |token: (int, int)| word_of_token(text@, document as int, token),
            bounds@.len() == all.len(),
            forall|j: int|
                0 <= j < all.len() ==> (#[trigger] bounds@[j]).0 == all[j].0 && bounds@[j].1
                    == all[j].1,
            forall|j: int|
                0 <= j < all.len() ==> crate::text::is_token(text@, (#[trigger] all[j]).0, all[j].1),
            words_view(r@) == all.take(k as int).filter_map(pick),
        decreases bounds.len() - k,
    {
        let (from, to) = bounds[k];
        assert(crate::text::is_token(text@, all[k as int].0, all[k as int].1));
        let (a, b) = surrounding_punctuation_bounds(&chars, from, to);
        proof {
            all.lemma_filter_map_take_succ(pick, k as int);
        }
        if a < b {
            let word = AnnotatedWord { word: string_of(&chars, a, b), character_offset: from, document };
            assert(pick(all[k as int]) == Some(word@));
            assert(words_view(r@.push(word)) == words_view(r@) + seq![word@]);
            r.push(word);
        }
        k += 1;
    }
    assert(all.take(all.len() as int) == all);
    r
}

/// A copy of a list of fields.
pub fn copy_fields(fields: &Vec<(String, String)>) -> (r: Vec<(String, String)>)
    ensures
        fields_view(r@) == fields_view(fields@),
{
    let mut r: Vec<(String, String)> = Vec::new();
    let mut i: usize = 0;
    while i < fields.len()
        invariant
            i <= fields.len(),
            fields_view(r@) == fields_view(fields@).take(i as int),
        decreases fields.len() - i,
    {
        let pair = (fields[i].0.clone(), fields[i].1.clone());
        assert(fields_view(r@.push(pair)) == fields_view(r@).push((pair.0@, pair.1@)));
        r.push(pair);
        i += 1;
    }
    r
}

/// The selector that holds for a file: its own, else the one of the whole input, else `main`.
pub open spec fn selector_of(file: File, global: Option<String>) -> Seq<char> {
    match file.html_selector_override {
        Some(selector) => selector@,
        None => match global {
            Some(selector) => selector@,
            None => "main"@,
        },
    }
}

pub fn selector_for(file: &File, global: &Option<String>) -> (r: String)
    ensures
        r@ == selector_of(*file, *global),
{
    match &file.html_selector_override {
        Some(selector) => selector.clone(),
        None => match global {
            Some(selector) => selector.clone(),
            None => "main".to_owned(),
        },
    }
}

/// A word list, unless it is empty.
pub open spec fn some_words(words: Seq<AnnotatedWordView>) -> Result<
    Seq<AnnotatedWordView>,
    WordListGenerationErrorView,
> {
    if words.len() == 0 {
        Err(WordListGenerationErrorView::EmptyWordList)
    } else {
        Ok(words)
    }
}

/// The word list of one document, or the reason why it has none.
///
/// A file for which nothing came in has no reader; an error of the reader is the error of the
/// document. Plain text is split into words as it is. Markup gives the words of the text under its selector, and an error where the selector
/// matches nothing. A document without any word is an error too.
pub open spec fn word_list_of(
    index: int,
    file: File,
    global_selector: Option<String>,
    document: Option<Document>,
) -> Result<Seq<AnnotatedWordView>, WordListGenerationErrorView> {
    match document {
        None => Err(WordListGenerationErrorView::FeatureNotAvailable),
        Some(document) => match document.read {
            Err(e) => Err(e@),
            Ok(read) => match read.filetype {
                Filetype::PlainText => some_words(words_of(read.buffer@, index)),
                Filetype::HTML => match document.selected_text {
                    None => Err(
                        WordListGenerationErrorView::SelectorNotPresent(
                            selector_of(file, global_selector),
                        ),
                    ),
                    Some(text) => some_words(words_of(text@, index)),
                },
            },
        },
    }
}

/// The fields that a document brings along.
pub open spec fn fields_of(document: Option<Document>) -> Seq<(Seq<char>, Seq<char>)> {
    match document {
        Some(Document { read: Ok(ReadResult { frontmatter_fields: Some(fields), .. }), .. }) => {
            fields_view(fields@)
        },
        _ => Seq::empty(),
    }
}

/// What normalization makes of one document: an entry, or the error of that document.
pub open spec fn normalized(
    index: int,
    file: File,
    global_selector: Option<String>,
    document: Option<Document>,
) -> Result<NormalizedEntryView, DocumentErrorView> {
    match word_list_of(index, file, global_selector, document) {
        Ok(words) => Ok(
            NormalizedEntryView {
                title: file.title@,
                url: file.url@,
                words,
                fields: fields_of(document),
            },
        ),
        Err(cause) => Err(DocumentErrorView { file_index: index, title: file.title@, cause }),
    }
}

pub open spec fn outcome_view(r: Result<NormalizedEntry, DocumentError>) -> Result<
    NormalizedEntryView,
    DocumentErrorView,
> {
    match r {
        Ok(entry) => Ok(entry@),
        Err(error) => Err(error@),
    }
}

/// The document behind a reference, if there is one.
pub open spec fn given(document: Option<&Document>) -> Option<Document> {
    match document {
        Some(document) => Some(*document),
        None => None,
    }
}

pub open spec fn word_list_view(r: Result<Vec<AnnotatedWord>, WordListGenerationError>) -> Result<
    Seq<AnnotatedWordView>,
    WordListGenerationErrorView,
> {
    match r {
        Ok(words) => Ok(words_view(words@)),
        Err(error) => Err(error@),
    }
}

/// Makes the word list of one document, or says why it has none.
pub fn word_list(
    index: usize,
    file: &File,
    global_selector: &Option<String>,
    document: Option<&Document>,
) -> (r: Result<Vec<AnnotatedWord>, WordListGenerationError>)
    ensures
        word_list_view(r) == word_list_of(index as int, *file, *global_selector, given(document)),
{
    let document = match document {
        None => { return Err(WordListGenerationError::FeatureNotAvailable); },
        Some(document) => document,
    };
    let read = match &document.read {
        Err(e) => { return Err(e.duplicate()); },
        Ok(read) => read,
    };
    let words = match read.filetype {
        Filetype::PlainText => annotated_words(read.buffer.as_str(), index),
        Filetype::HTML => match &document.selected_text {
            None => {
                return Err(
                    WordListGenerationError::SelectorNotPresent(
                        selector_for(file, global_selector),
                    ),
                );
            },
            Some(text) => annotated_words(text.as_str(), index),
        },
    };
    if words.len() == 0 {
        Err(WordListGenerationError::EmptyWordList)
    } else {
        Ok(words)
    }
}

/// Normalizes one document: gives its entry, or the error that is recorded for it.
pub fn normalize(
    index: usize,
    file: &File,
    global_selector: &Option<String>,
    document: Option<&Document>,
) -> (r: Result<NormalizedEntry, DocumentError>)
    ensures
        outcome_view(r) == normalized(index as int, *file, *global_selector, given(document)),
{
    match word_list(index, file, global_selector, document) {
        Err(cause) => Err(DocumentError { file_index: index, title: file.title.clone(), cause }),
        Ok(words) => {
            let fields = match document {
                Some(Document { read: Ok(ReadResult { frontmatter_fields: Some(fields), .. }), .. }) => {
                    copy_fields(fields)
                },
                _ => Vec::new(),
            };
            assert(fields_view(Seq::<(String, String)>::empty()) == Seq::<
                (Seq<char>, Seq<char>),
            >::empty());
            Ok(NormalizedEntry { title: file.title.clone(), url: file.url.clone(), words, fields })
        },
    }
}

} // verus!
