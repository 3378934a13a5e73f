//! What can go wrong: for one document, and for the build as a whole.

use vstd::prelude::*;
use vstd::string::*;
use crate::text::push_char;

verus! {

/// Why no word list could be made of one document.
#[derive(Clone, Debug, PartialEq, Eq)]
pub enum WordListGenerationError {
    /// The selector matched nothing in the document.
    SelectorNotPresent(String),
    /// The web page could not be fetched at all.
    WebPageNotFetched,
    /// The web page was fetched, with a status that reports an error.
    WebPageErrorfulStatusCode(u16),
    /// The content type is missing, cannot be read, or is none that can be indexed.
    UnknownContentType,
    /// The file at this path could not be read.
    FileNotRead(String),
    /// Normalization left no word.
    EmptyWordList,
    /// No reader for this kind of source is at hand.
    FeatureNotAvailable,
}

pub enum WordListGenerationErrorView {
    SelectorNotPresent(Seq<char>),
    WebPageNotFetched,
    WebPageErrorfulStatusCode(u16),
    UnknownContentType,
    FileNotRead(Seq<char>),
    EmptyWordList,
    FeatureNotAvailable,
}

impl View for WordListGenerationError {
    type V = WordListGenerationErrorView;

    open spec fn view(&self) -> WordListGenerationErrorView {
        match self {
            WordListGenerationError::SelectorNotPresent(s) => {
                WordListGenerationErrorView::SelectorNotPresent(s@)
            },
            WordListGenerationError::WebPageNotFetched => {
                WordListGenerationErrorView::WebPageNotFetched
            },
            WordListGenerationError::WebPageErrorfulStatusCode(c) => {
                WordListGenerationErrorView::WebPageErrorfulStatusCode(*c)
            },
            WordListGenerationError::UnknownContentType => {
                WordListGenerationErrorView::UnknownContentType
            },
            WordListGenerationError::FileNotRead(path) => {
                WordListGenerationErrorView::FileNotRead(path@)
            },
            WordListGenerationError::EmptyWordList => WordListGenerationErrorView::EmptyWordList,
            WordListGenerationError::FeatureNotAvailable => {
                WordListGenerationErrorView::FeatureNotAvailable
            },
        }
    }
}

/// The decimal digit `d`, for `d` below ten.
pub open spec fn digit_char(d: int) -> char {
    if d == 0 {
        '0'
    } else if d == 1 {
        '1'
    } else if d == 2 {
        '2'
    } else if d == 3 {
        '3'
    } else if d == 4 {
        '4'
    } else if d == 5 {
        '5'
    } else if d == 6 {
        '6'
    } else if d == 7 {
        '7'
    } else if d == 8 {
        '8'
    } else {
        '9'
    }
}

/// `n` in decimal, without leading zeros.
pub open spec fn decimal(n: nat) -> Seq<char>
    decreases n,
{
    if n < 10 {
        seq![digit_char(n as int)]
    } else {
        decimal(n / 10).push(digit_char((n % 10) as int))
    }
}

fn digit(d: u16) -> (c: char)
    requires
        d < 10,
    ensures
        c == digit_char(d as int),
{
    if d == 0 {
        '0'
    } else if d == 1 {
        '1'
    } else if d == 2 {
        '2'
    } else if d == 3 {
        '3'
    } else if d == 4 {
        '4'
    } else if d == 5 {
        '5'
    } else if d == 6 {
        '6'
    } else if d == 7 {
        '7'
    } else if d == 8 {
        '8'
    } else {
        '9'
    }
}

/// Appends `n` in decimal to `s`.
fn push_decimal(s: &mut String, n: u16)
    ensures
        final(s)@ == old(s)@ + decimal(n as nat),
    decreases n,
{
    if n >= 10 {
        push_decimal(s, n / 10);
    }
    push_char(s, digit(n % 10));
}

impl WordListGenerationErrorView {
    /// The sentence that tells a reader what went wrong.
    pub open spec fn message(self) -> Seq<char> {
        match self {
            WordListGenerationErrorView::SelectorNotPresent(s) => {
                "HTML selector `"@ + s + "` is not present in the file"@
            },
            WordListGenerationErrorView::WebPageNotFetched => {
                "The web page could not be fetched"@
            },
            WordListGenerationErrorView::WebPageErrorfulStatusCode(c) => {
                "The web page returned a "@ + decimal(c as nat) + " status code"@
            },
            WordListGenerationErrorView::UnknownContentType => {
                "Content-Type is not present or invalid"@
            },
            WordListGenerationErrorView::FileNotRead(path) => {
                "The file `"@ + path + "` could not be read"@
            },
            WordListGenerationErrorView::EmptyWordList => "No words in word list"@,
            WordListGenerationErrorView::FeatureNotAvailable => {
                "No reader is available for this kind of source"@
            },
        }
    }
}

impl WordListGenerationError {
    /// The sentence that tells a reader what went wrong.
    pub fn message(&self) -> (r: String)
        ensures
            r@ == self@.message(),
    {
        match self {
            WordListGenerationError::SelectorNotPresent(s) => {
                let mut r = "HTML selector `".to_owned();
                r.append(s.as_str());
                r.append("` is not present in the file");
                r
            },
            WordListGenerationError::WebPageNotFetched => {
                "The web page could not be fetched".to_owned()
            },
            WordListGenerationError::WebPageErrorfulStatusCode(c) => {
                let mut r = "The web page returned a ".to_owned();
                push_decimal(&mut r, *c);
                r.append(" status code");
                r
            },
            WordListGenerationError::UnknownContentType => {
                "Content-Type is not present or invalid".to_owned()
            },
            WordListGenerationError::FileNotRead(path) => {
                let mut r = "The file `".to_owned();
                r.append(path.as_str());
                r.append("` could not be read");
                r
            },
            WordListGenerationError::EmptyWordList => "No words in word list".to_owned(),
            WordListGenerationError::FeatureNotAvailable => {
                "No reader is available for this kind of source".to_owned()
            },
        }
    }

    /// A copy of this error.
    pub fn duplicate(&self) -> (r: WordListGenerationError)
        ensures
            r@ == self@,
    {
        match self {
            WordListGenerationError::SelectorNotPresent(s) => {
                WordListGenerationError::SelectorNotPresent(s.clone())
            },
            WordListGenerationError::WebPageNotFetched => WordListGenerationError::WebPageNotFetched,
            WordListGenerationError::WebPageErrorfulStatusCode(c) => {
                WordListGenerationError::WebPageErrorfulStatusCode(*c)
            },
            WordListGenerationError::UnknownContentType => {
                WordListGenerationError::UnknownContentType
            },
            WordListGenerationError::FileNotRead(path) => {
                WordListGenerationError::FileNotRead(path.clone())
            },
            WordListGenerationError::EmptyWordList => WordListGenerationError::EmptyWordList,
            WordListGenerationError::FeatureNotAvailable => {
                WordListGenerationError::FeatureNotAvailable
            },
        }
    }
}

/// The failure of one document. It does not end the build.
#[derive(Clone, Debug, PartialEq, Eq)]
pub struct DocumentError {
    /// The place of the document among the configured files.
    pub file_index: usize,
    /// The title of the document.
    pub title: String,
    pub cause: WordListGenerationError,
}

pub struct DocumentErrorView {
    pub file_index: int,
    pub title: Seq<char>,
    pub cause: WordListGenerationErrorView,
}

impl DocumentErrorView {
    pub open spec fn message(self) -> Seq<char> {
        "In file `"@ + self.title + "`: "@ + self.cause.message()
    }
}

impl View for DocumentError {
    type V = DocumentErrorView;

    open spec fn view(&self) -> DocumentErrorView {
        DocumentErrorView {
            file_index: self.file_index as int,
            title: self.title@,
            cause: self.cause@,
        }
    }
}

impl DocumentError {
    /// Names the document, then says what went wrong with it.
    pub fn message(&self) -> (r: String)
        ensures
            r@ == self@.message(),
    {
        let mut r = "In file `".to_owned();
        r.append(self.title.as_str());
        r.append("`: ");
        let cause = self.cause.message();
        r.append(cause.as_str());
        r
    }
}

} // verus!
