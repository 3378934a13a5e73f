//! What a reader hands over for one document, and the reading of a fetched web page.

use vstd::prelude::*;
use vstd::string::*;
use crate::config::{File, Filetype};
use crate::errors::{WordListGenerationError, WordListGenerationErrorView};
use crate::text::same_text;

verus! {

/// What a reader is told about the document it reads.
#[derive(Clone, Debug, PartialEq, Eq)]
pub struct ReaderConfig {
    pub file: File,
}

/// The raw content of one document.
#[derive(Clone, Debug, PartialEq, Eq)]
pub struct ReadResult {
    pub buffer: String,
    /// The declared filetype or, where none is declared, the detected one.
    pub filetype: Filetype,
    pub frontmatter_fields: Option<Vec<(String, String)>>,
}

/// The two names of a media type, as in `text/html`.
#[derive(Clone, Debug, PartialEq, Eq)]
pub struct MediaType {
    pub type_: String,
    pub subtype: String,
}

/// The answer of a web server, as far as reading a document needs it.
#[derive(Clone, Debug, PartialEq, Eq)]
pub struct WebResponse {
    pub status: u16,
    /// The `Content-Type` header, where the answer has one that is text.
    pub content_type: Option<String>,
    pub body: String,
}

/// How an attempt to fetch a web page ended.
#[derive(Clone, Debug, PartialEq, Eq)]
pub enum FetchOutcome {
    /// Nothing was tried: fetching web pages is not available.
    Unavailable,
    /// No answer came back.
    NotFetched,
    Fetched(WebResponse),
}

/// The error of `mime` for a value that it cannot parse. Nothing is known of what it holds.
#[verifier::external_type_specification]
#[verifier::external_body]
pub struct ExFromStrError(mime::FromStrError);

/// The type and subtype that `mime` reads in a `Content-Type` value, or `None` where it
/// rejects the value.
pub uninterp spec fn parsed_media_type(header: Seq<char>) -> Option<(Seq<char>, Seq<char>)>;

/// Parses a `Content-Type` value with `mime::Mime::from_str` and takes the two names out of
/// the result with `Mime::type_` and `Mime::subtype`. Trusted: the names that come back are
/// those that `parsed_media_type` stands for, and an error comes back exactly where it is
/// `None`.
#[verifier::external_body]
fn parse_media_type(header: &str) -> (r: Result<MediaType, mime::FromStrError>)
    ensures
        match r {
            Ok(media) => parsed_media_type(header@) == Some((media.type_@, media.subtype@)),
            Err(_) => parsed_media_type(header@) is None,
        },
{
    let parsed: mime::Mime = header.parse()?;
    Ok(
        MediaType {
            type_: parsed.type_().as_str().to_string(),
            subtype: parsed.subtype().as_str().to_string(),
        },
    )
}

/// The filetype that a media type stands for: `text/plain` and `text/html` are known.
pub open spec fn filetype_of_media_type(type_: Seq<char>, subtype: Seq<char>) -> Option<Filetype> {
    if type_ == "text"@ && subtype == "plain"@ {
        Some(Filetype::PlainText)
    } else if type_ == "text"@ && subtype == "html"@ {
        Some(Filetype::HTML)
    } else {
        None
    }
}

pub fn filetype_from_mime(media: &MediaType) -> (r: Option<Filetype>)
    ensures
        r == filetype_of_media_type(media.type_@, media.subtype@),
{
    if same_text(media.type_.as_str(), "text") {
        if same_text(media.subtype.as_str(), "plain") {
            Some(Filetype::PlainText)
        } else if same_text(media.subtype.as_str(), "html") {
            Some(Filetype::HTML)
        } else {
            None
        }
    } else {
        None
    }
}

/// What is made of content that is at hand: with a filetype it is the buffer of a result, and
/// without one it cannot be read.
pub open spec fn holds_content(
    contents: Seq<char>,
    filetype: Option<Filetype>,
    r: Result<ReadResult, WordListGenerationError>,
) -> bool {
    match filetype {
        None => r matches Err(e) && e@ == WordListGenerationErrorView::UnknownContentType,
        Some(filetype) => {
            &&& r matches Ok(read)
            &&& read.buffer@ == contents
            &&& read.filetype == filetype
            &&& read.frontmatter_fields is None
        },
    }
}

/// Reads a document whose content stands in the configuration itself: the content is the
/// buffer, and the filetype is the declared one. Content without a declared filetype cannot
/// be read.
pub fn read_contents(contents: &str, config: &ReaderConfig) -> (r: Result<
    ReadResult,
    WordListGenerationError,
>)
    ensures
        holds_content(contents@, config.file.filetype, r),
{
    match config.file.filetype {
        None => Err(WordListGenerationError::UnknownContentType),
        Some(filetype) => Ok(
            ReadResult { buffer: contents.to_owned(), filetype, frontmatter_fields: None },
        ),
    }
}

/// What reading makes of a file on disk: the one result that `read_file` may return.
pub open spec fn reads_file_as(
    path: Seq<char>,
    contents: Option<&str>,
    declared: Option<Filetype>,
    r: Result<ReadResult, WordListGenerationError>,
) -> bool {
    match contents {
        None => r matches Err(e) && e@ == WordListGenerationErrorView::FileNotRead(path),
        Some(contents) => holds_content(contents@, declared, r),
    }
}

/// Reads a document from what opening its file gave: the contents, or `None` where the file
/// could not be read. A file that could not be read is an error of the document that names
/// the path; contents are read as those that stand in the configuration are.
pub fn read_file(path: &str, contents: Option<&str>, config: &ReaderConfig) -> (r: Result<
    ReadResult,
    WordListGenerationError,
>)
    ensures
        reads_file_as(path@, contents, config.file.filetype, r),
{
    match contents {
        None => Err(WordListGenerationError::FileNotRead(path.to_owned())),
        Some(contents) => read_contents(contents, config),
    }
}

/// The statuses with which a server reports an error: 400 to 599.
pub open spec fn is_error_status(status: u16) -> bool {
    400 <= status < 600
}

/// The declared filetype where there is one, else the detected one.
pub open spec fn declared_or(declared: Option<Filetype>, detected: Option<Filetype>) -> Option<
    Filetype,
> {
    if declared is Some {
        declared
    } else {
        detected
    }
}

/// What reading makes of a fetch: the one result that `read` may return.
pub open spec fn reads_as(
    fetched: FetchOutcome,
    declared: Option<Filetype>,
    r: Result<ReadResult, WordListGenerationError>,
) -> bool {
    match fetched {
        FetchOutcome::Unavailable => r matches Err(e) && e@
            == WordListGenerationErrorView::FeatureNotAvailable,
        FetchOutcome::NotFetched => r matches Err(e) && e@
            == WordListGenerationErrorView::WebPageNotFetched,
        FetchOutcome::Fetched(response) => if is_error_status(response.status) {
            r matches Err(e) && e@ == WordListGenerationErrorView::WebPageErrorfulStatusCode(
                response.status,
            )
        } else {
            match response.content_type {
                None => r matches Err(e) && e@ == WordListGenerationErrorView::UnknownContentType,
                Some(header) => match parsed_media_type(header@) {
                    None => r matches Err(e) && e@
                        == WordListGenerationErrorView::UnknownContentType,
                    Some((type_, subtype)) => holds_content(
                        response.body@,
                        declared_or(declared, filetype_of_media_type(type_, subtype)),
                        r,
                    ),
                },
            }
        },
    }
}

/// Reads a document from what fetching its URL gave.
///
/// A fetch that was not available, that failed, or that a server answered with an error status
/// is an error of the document, and so is a `Content-Type` that is missing or that cannot be
/// parsed. Otherwise the filetype is the one that the configuration declares or, where it
/// declares none, the one that the `Content-Type` stands for. Where neither gives a filetype
/// the content type is unknown, which is an error of the document too; else the body is the
/// content.
pub fn read(fetched: &FetchOutcome, config: &ReaderConfig) -> (r: Result<
    ReadResult,
    WordListGenerationError,
>)
    ensures
        reads_as(*fetched, config.file.filetype, r),
{
    match fetched {
        FetchOutcome::Unavailable => Err(WordListGenerationError::FeatureNotAvailable),
        FetchOutcome::NotFetched => Err(WordListGenerationError::WebPageNotFetched),
        FetchOutcome::Fetched(response) => {
            if 400 <= response.status && response.status < 600 {
                return Err(WordListGenerationError::WebPageErrorfulStatusCode(response.status));
            }
            match &response.content_type {
                None => Err(WordListGenerationError::UnknownContentType),
                Some(header) => match parse_media_type(header.as_str()) {
                    Err(_) => Err(WordListGenerationError::UnknownContentType),
                    Ok(media) => {
                        let filetype = match config.file.filetype {
                            Some(declared) => Some(declared),
                            None => filetype_from_mime(&media),
                        };
                        match filetype {
                            None => Err(WordListGenerationError::UnknownContentType),
                            Some(filetype) => Ok(
                                ReadResult {
                                    buffer: response.body.clone(),
                                    filetype,
                                    frontmatter_fields: None,
                                },
                            ),
                        }
                    },
                },
            }
        },
    }
}

} // verus!
