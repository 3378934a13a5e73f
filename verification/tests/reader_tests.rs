use stork_index::config::{File, Filetype};
use stork_index::errors::{DocumentError, WordListGenerationError};
use stork_index::reader::{
    filetype_from_mime, read, read_contents, read_file, FetchOutcome, MediaType, ReadResult,
    ReaderConfig, WebResponse,
};

fn reader_config(filetype: Option<Filetype>) -> ReaderConfig {
    ReaderConfig { file: File { filetype, ..Default::default() } }
}

fn response(status: u16, content_type: Option<&str>, body: &str) -> FetchOutcome {
    FetchOutcome::Fetched(WebResponse {
        status,
        content_type: content_type.map(|s| s.to_string()),
        body: body.to_string(),
    })
}

fn media(type_: &str, subtype: &str) -> MediaType {
    MediaType { type_: type_.to_string(), subtype: subtype.to_string() }
}

#[test]
fn unavailable_fetch_is_feature_not_available() {
    assert_eq!(
        read(&FetchOutcome::Unavailable, &reader_config(Some(Filetype::HTML))),
        Err(WordListGenerationError::FeatureNotAvailable)
    );
}

#[test]
fn failed_fetch_is_web_page_not_fetched() {
    assert_eq!(
        read(&FetchOutcome::NotFetched, &reader_config(None)),
        Err(WordListGenerationError::WebPageNotFetched)
    );
}

#[test]
fn error_status_keeps_its_number() {
    for status in [400u16, 404, 499, 500, 503, 599] {
        assert_eq!(
            read(&response(status, Some("text/html"), "<p>no</p>"), &reader_config(None)),
            Err(WordListGenerationError::WebPageErrorfulStatusCode(status))
        );
    }
}

#[test]
fn other_statuses_are_read() {
    for status in [100u16, 200, 204, 301, 399, 600, 999] {
        assert_eq!(
            read(&response(status, Some("text/plain"), "body"), &reader_config(None)),
            Ok(ReadResult {
                buffer: "body".to_string(),
                filetype: Filetype::PlainText,
                frontmatter_fields: None,
            })
        );
    }
}

#[test]
fn missing_content_type_is_unknown() {
    assert_eq!(
        read(&response(200, None, "body"), &reader_config(Some(Filetype::PlainText))),
        Err(WordListGenerationError::UnknownContentType)
    );
}

#[test]
fn unparseable_content_type_is_unknown() {
    for header in ["", "text", "/plain", "text plain", "te xt/plain", "text/plain; charset"] {
        assert_eq!(
            read(&response(200, Some(header), "body"), &reader_config(Some(Filetype::PlainText))),
            Err(WordListGenerationError::UnknownContentType),
            "{:?}",
            header
        );
    }
}

#[test]
fn content_type_gives_the_filetype() {
    let cases = [
        ("text/plain", Filetype::PlainText),
        ("text/html", Filetype::HTML),
        ("text/html; charset=utf-8", Filetype::HTML),
        ("TEXT/HTML; charset=UTF-8", Filetype::HTML),
        ("Text/Plain", Filetype::PlainText),
        ("text/html+xml", Filetype::HTML),
    ];
    for (header, filetype) in cases {
        assert_eq!(
            read(&response(200, Some(header), "the body"), &reader_config(None)),
            Ok(ReadResult {
                buffer: "the body".to_string(),
                filetype,
                frontmatter_fields: None,
            }),
            "{:?}",
            header
        );
    }
}

#[test]
fn undeclared_and_unresolvable_content_type_is_unknown() {
    for header in ["text/css", "application/json", "image/svg+xml", "*/*", "text/", "text/x-plain"] {
        assert_eq!(
            read(&response(200, Some(header), "the body"), &reader_config(None)),
            Err(WordListGenerationError::UnknownContentType),
            "{:?}",
            header
        );
    }
}

#[test]
fn declared_filetype_resolves_any_content_type_that_parses() {
    for header in ["text/css", "application/json", "image/svg+xml", "*/*", "text/html"] {
        assert_eq!(
            read(&response(200, Some(header), "the body"), &reader_config(Some(Filetype::PlainText))),
            Ok(ReadResult {
                buffer: "the body".to_string(),
                filetype: Filetype::PlainText,
                frontmatter_fields: None,
            }),
            "{:?}",
            header
        );
    }
}

#[test]
fn declared_filetype_wins_over_the_content_type() {
    assert_eq!(
        read(&response(200, Some("text/html"), "body"), &reader_config(Some(Filetype::PlainText)))
            .unwrap()
            .filetype,
        Filetype::PlainText
    );
    assert_eq!(
        read(&response(200, Some("application/pdf"), "body"), &reader_config(Some(Filetype::HTML)))
            .unwrap()
            .filetype,
        Filetype::HTML
    );
}

#[test]
fn error_status_comes_before_the_content_type() {
    assert_eq!(
        read(&response(404, None, ""), &reader_config(None)),
        Err(WordListGenerationError::WebPageErrorfulStatusCode(404))
    );
}

#[test]
fn filetype_of_media_types() {
    assert_eq!(filetype_from_mime(&media("text", "plain")), Some(Filetype::PlainText));
    assert_eq!(filetype_from_mime(&media("text", "html")), Some(Filetype::HTML));
    assert_eq!(filetype_from_mime(&media("text", "xml")), None);
    assert_eq!(filetype_from_mime(&media("application", "html")), None);
    assert_eq!(filetype_from_mime(&media("text", "")), None);
    assert_eq!(filetype_from_mime(&media("", "plain")), None);
    assert_eq!(filetype_from_mime(&media("TEXT", "plain")), None);
}

#[test]
fn inline_contents_are_read_as_they_are() {
    assert_eq!(
        read_contents("Some words.", &reader_config(Some(Filetype::PlainText))),
        Ok(ReadResult {
            buffer: "Some words.".to_string(),
            filetype: Filetype::PlainText,
            frontmatter_fields: None,
        })
    );
    assert_eq!(
        read_contents("", &reader_config(Some(Filetype::HTML))),
        Ok(ReadResult { buffer: String::new(), filetype: Filetype::HTML, frontmatter_fields: None })
    );
}

#[test]
fn inline_contents_without_a_filetype_are_unknown() {
    assert_eq!(
        read_contents("Some words.", &reader_config(None)),
        Err(WordListGenerationError::UnknownContentType)
    );
    assert_eq!(
        read_contents("", &reader_config(None)),
        Err(WordListGenerationError::UnknownContentType)
    );
}

#[test]
fn file_contents_are_read_as_inline_contents_are() {
    assert_eq!(
        read_file("docs/a.txt", Some("In a file."), &reader_config(Some(Filetype::PlainText))),
        Ok(ReadResult {
            buffer: "In a file.".to_string(),
            filetype: Filetype::PlainText,
            frontmatter_fields: None,
        })
    );
    assert_eq!(
        read_file("docs/a.txt", Some("In a file."), &reader_config(None)),
        Err(WordListGenerationError::UnknownContentType)
    );
}

#[test]
fn file_that_could_not_be_read_names_its_path() {
    for declared in [None, Some(Filetype::PlainText), Some(Filetype::HTML)] {
        assert_eq!(
            read_file("docs/missing.txt", None, &reader_config(declared)),
            Err(WordListGenerationError::FileNotRead("docs/missing.txt".to_string()))
        );
    }
}

#[test]
fn messages_of_the_errors() {
    assert_eq!(
        WordListGenerationError::SelectorNotPresent("main".to_string()).message(),
        "HTML selector `main` is not present in the file"
    );
    assert_eq!(
        WordListGenerationError::WebPageNotFetched.message(),
        "The web page could not be fetched"
    );
    assert_eq!(
        WordListGenerationError::UnknownContentType.message(),
        "Content-Type is not present or invalid"
    );
    assert_eq!(WordListGenerationError::EmptyWordList.message(), "No words in word list");
    assert_eq!(
        WordListGenerationError::FileNotRead("a/b.txt".to_string()).message(),
        "The file `a/b.txt` could not be read"
    );
    assert_eq!(
        WordListGenerationError::FeatureNotAvailable.message(),
        "No reader is available for this kind of source"
    );
}

#[test]
fn status_codes_are_written_in_decimal() {
    for status in [0u16, 7, 10, 99, 100, 404, 1000, 9999, 10000, 65535] {
        assert_eq!(
            WordListGenerationError::WebPageErrorfulStatusCode(status).message(),
            format!("The web page returned a {} status code", status)
        );
    }
}

#[test]
fn document_error_message() {
    let error = DocumentError {
        file_index: 4,
        title: "A title".to_string(),
        cause: WordListGenerationError::EmptyWordList,
    };
    assert_eq!(error.message(), "In file `A title`: No words in word list");
}

#[test]
fn duplicate_is_equal() {
    for error in [
        WordListGenerationError::SelectorNotPresent(".x".to_string()),
        WordListGenerationError::WebPageNotFetched,
        WordListGenerationError::WebPageErrorfulStatusCode(418),
        WordListGenerationError::UnknownContentType,
        WordListGenerationError::FileNotRead("x.html".to_string()),
        WordListGenerationError::EmptyWordList,
        WordListGenerationError::FeatureNotAvailable,
    ] {
        assert_eq!(error.duplicate(), error);
    }
}
