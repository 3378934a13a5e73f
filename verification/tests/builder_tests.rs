use stork_index::config::{Config, DataSource, File, Filetype, InputConfig, OutputConfig, TitleBoost};
use stork_index::containers::Occurrence;
use stork_index::entry::Document;
use stork_index::errors::WordListGenerationError;
use stork_index::index::{build, IndexGenerationError};
use stork_index::reader::{read_contents, ReaderConfig};

fn generate_invalid_file_missing_selector() -> File {
    File {
        explicit_source: Some(DataSource::Contents("".to_string())),
        title: "Missing Selector".to_string(),
        filetype: Some(Filetype::HTML),
        html_selector_override: Some(".article".to_string()),
        ..Default::default()
    }
}

fn generate_invalid_file_empty_contents() -> File {
    File {
        explicit_source: Some(DataSource::Contents("".to_string())),
        title: "Empty Contents".to_string(),
        filetype: Some(Filetype::PlainText),
        ..Default::default()
    }
}

fn generate_valid_file() -> File {
    File {
        explicit_source: Some(DataSource::Contents("This is contents".to_string())),
        title: "Successful File".to_string(),
        filetype: Some(Filetype::PlainText),
        ..Default::default()
    }
}

fn file_with_contents(title: &str, contents: &str) -> File {
    File {
        explicit_source: Some(DataSource::Contents(contents.to_string())),
        title: title.to_string(),
        url: format!("/{}", title),
        filetype: Some(Filetype::PlainText),
        ..Default::default()
    }
}

/// What comes in for a file whose contents stand in the configuration. No text is handed
/// over as standing under a selector.
fn inline_document(file: &File) -> Document {
    let contents = match &file.explicit_source {
        Some(DataSource::Contents(contents)) => contents.clone(),
        _ => panic!("not an inline source"),
    };
    Document {
        read: read_contents(&contents, &ReaderConfig { file: file.clone() }),
        selected_text: None,
    }
}

fn inline_documents(config: &Config) -> Vec<Document> {
    config.input.files.iter().map(inline_document).collect()
}

fn config_of(files: Vec<File>) -> Config {
    Config { input: InputConfig { files, ..Default::default() }, ..Default::default() }
}

#[test]
fn missing_html_selector_fails_gracefully() {
    let config = Config {
        input: InputConfig {
            files: vec![generate_invalid_file_missing_selector(), generate_valid_file()],
            ..Default::default()
        },
        ..Default::default()
    };

    let build_results = build(&config, &inline_documents(&config)).unwrap();

    assert_eq!(build_results.errors.len(), 1);

    let error_msg = build_results.errors.first().unwrap().message();

    assert!(
        error_msg.contains("HTML selector `.article` is not present in the file"),
        "{}",
        error_msg
    );
}

#[test]
fn empty_contents_fails_gracefully() {
    let config = Config {
        input: InputConfig {
            files: vec![generate_invalid_file_empty_contents(), generate_valid_file()],
            ..Default::default()
        },
        ..Default::default()
    };

    let build_results = build(&config, &inline_documents(&config)).unwrap();
    assert_eq!(build_results.errors.len(), 1);

    let error_msg = build_results.errors.first().unwrap().message();
    assert!(error_msg.contains("No words in word list"));
}

#[test]
fn test_all_invalid_files_return_error() {
    let config = Config {
        input: InputConfig {
            files: vec![
                generate_invalid_file_empty_contents(),
                generate_invalid_file_missing_selector(),
            ],
            ..Default::default()
        },
        ..Default::default()
    };

    let build_error = build(&config, &inline_documents(&config)).unwrap_err();

    assert_eq!(build_error, IndexGenerationError::NoValidFiles);
}

#[test]
fn test_failing_file_does_not_halt_indexing() {
    let config = Config {
        input: InputConfig {
            files: vec![generate_invalid_file_missing_selector(), generate_valid_file()],
            ..Default::default()
        },
        ..Default::default()
    };

    assert_eq!(build(&config, &inline_documents(&config)).unwrap().errors.len(), 1);
    assert_eq!(build(&config, &inline_documents(&config)).unwrap().entries.len(), 1);
}

#[test]
fn error_names_the_document_and_the_cause() {
    let config = config_of(vec![generate_invalid_file_missing_selector(), generate_valid_file()]);
    let index = build(&config, &inline_documents(&config)).unwrap();
    let error = &index.errors[0];
    assert_eq!(error.file_index, 0);
    assert_eq!(error.title, "Missing Selector");
    assert_eq!(error.cause, WordListGenerationError::SelectorNotPresent(".article".to_string()));
    assert_eq!(
        error.message(),
        "In file `Missing Selector`: HTML selector `.article` is not present in the file"
    );
}

#[test]
fn index_of_one_document_lists_its_words_by_stem() {
    let config = config_of(vec![generate_valid_file()]);
    let index = build(&config, &inline_documents(&config)).unwrap();
    assert!(index.errors.is_empty());
    assert_eq!(index.entries.len(), 1);
    assert_eq!(index.entries[0].title, "Successful File");
    assert_eq!(index.entries[0].url, "");
    assert!(index.entries[0].fields.is_empty());
    let stems: Vec<&str> = index.containers.iter().map(|c| c.stem.as_str()).collect();
    assert_eq!(stems, vec!["thi", "is", "content"]);
    assert_eq!(
        index.containers[0].occurrences,
        vec![Occurrence { entry: 0, position: 0, character_offset: 0 }]
    );
    assert_eq!(
        index.containers[1].occurrences,
        vec![Occurrence { entry: 0, position: 1, character_offset: 5 }]
    );
    assert_eq!(
        index.containers[2].occurrences,
        vec![Occurrence { entry: 0, position: 2, character_offset: 8 }]
    );
}

#[test]
fn occurrences_come_in_corpus_order() {
    let config = config_of(vec![
        file_with_contents("a", "Runs, running: RUN!"),
        file_with_contents("bad", "... !!!"),
        file_with_contents("b", "walk run"),
    ]);
    let index = build(&config, &inline_documents(&config)).unwrap();
    assert_eq!(index.entries.len(), 2);
    assert_eq!(index.entries[1].title, "b");
    assert_eq!(index.entries[1].url, "/b");
    assert_eq!(index.errors.len(), 1);
    assert_eq!(index.errors[0].file_index, 1);
    assert_eq!(index.errors[0].cause, WordListGenerationError::EmptyWordList);
    assert_eq!(index.containers.len(), 2);
    assert_eq!(index.containers[0].stem, "run");
    assert_eq!(
        index.containers[0].occurrences,
        vec![
            Occurrence { entry: 0, position: 0, character_offset: 0 },
            Occurrence { entry: 0, position: 1, character_offset: 6 },
            Occurrence { entry: 0, position: 2, character_offset: 15 },
            Occurrence { entry: 1, position: 1, character_offset: 5 },
        ]
    );
    assert_eq!(index.containers[1].stem, "walk");
    assert_eq!(
        index.containers[1].occurrences,
        vec![Occurrence { entry: 1, position: 0, character_offset: 0 }]
    );
}

#[test]
fn every_word_stands_in_exactly_one_container() {
    let texts = ["the cats sat; the cat sits", "Sitting cats, sitting dogs!", "a b c a b c"];
    let files: Vec<File> =
        texts.iter().enumerate().map(|(i, t)| file_with_contents(&i.to_string(), t)).collect();
    let config = config_of(files);
    let index = build(&config, &inline_documents(&config)).unwrap();
    let words: usize = texts.iter().map(|t| t.split_whitespace().count()).sum();
    let occurrences: usize = index.containers.iter().map(|c| c.occurrences.len()).sum();
    assert_eq!(occurrences, words);
    assert_eq!(occurrences, 16);
    for (entry, text) in texts.iter().enumerate() {
        for position in 0..text.split_whitespace().count() {
            let holders = index
                .containers
                .iter()
                .filter(|c| {
                    c.occurrences.iter().any(|o| o.entry == entry && o.position == position)
                })
                .count();
            assert_eq!(holders, 1);
        }
    }
    let mut stems: Vec<&str> = index.containers.iter().map(|c| c.stem.as_str()).collect();
    let count = stems.len();
    stems.sort();
    stems.dedup();
    assert_eq!(stems.len(), count);
    assert!(index.containers.iter().all(|c| !c.occurrences.is_empty()));
}

#[test]
fn break_on_file_error_hands_the_index_over_in_the_error() {
    let mut config =
        config_of(vec![generate_invalid_file_empty_contents(), generate_valid_file()]);
    config.input.break_on_file_error = true;
    match build(&config, &inline_documents(&config)) {
        Err(IndexGenerationError::DocumentErrors(index)) => {
            assert_eq!(index.entries.len(), 1);
            assert_eq!(index.entries[0].title, "Successful File");
            assert_eq!(index.errors.len(), 1);
            assert_eq!(index.containers.len(), 3);
        },
        other => panic!("unexpected result: {:?}", other),
    }
}

#[test]
fn break_on_file_error_without_errors_succeeds() {
    let mut config = config_of(vec![generate_valid_file()]);
    config.input.break_on_file_error = true;
    let index = build(&config, &inline_documents(&config)).unwrap();
    assert_eq!(index.entries.len(), 1);
    assert!(index.errors.is_empty());
}

#[test]
fn break_on_file_error_with_only_failures_is_no_valid_files() {
    let mut config = config_of(vec![generate_invalid_file_empty_contents()]);
    config.input.break_on_file_error = true;
    assert_eq!(
        build(&config, &inline_documents(&config)).unwrap_err(),
        IndexGenerationError::NoValidFiles
    );
}

#[test]
fn no_files_is_no_valid_files() {
    let config = Config::default();
    assert_eq!(build(&config, &Vec::new()).unwrap_err(), IndexGenerationError::NoValidFiles);
}

#[test]
fn file_without_document_is_reported_as_unavailable() {
    let config = config_of(vec![generate_valid_file(), file_with_contents("late", "more words")]);
    let documents = vec![inline_document(&config.input.files[0])];
    let index = build(&config, &documents).unwrap();
    assert_eq!(index.entries.len(), 1);
    assert_eq!(index.errors.len(), 1);
    assert_eq!(index.errors[0].file_index, 1);
    assert_eq!(index.errors[0].title, "late");
    assert_eq!(index.errors[0].cause, WordListGenerationError::FeatureNotAvailable);
}

#[test]
fn reader_error_becomes_the_error_of_the_document() {
    let config = config_of(vec![generate_valid_file(), file_with_contents("page", "")]);
    let documents = vec![
        inline_document(&config.input.files[0]),
        Document {
            read: Err(WordListGenerationError::WebPageErrorfulStatusCode(503)),
            selected_text: None,
        },
    ];
    let index = build(&config, &documents).unwrap();
    assert_eq!(index.errors.len(), 1);
    assert_eq!(index.errors[0].cause, WordListGenerationError::WebPageErrorfulStatusCode(503));
    assert_eq!(
        index.errors[0].message(),
        "In file `page`: The web page returned a 503 status code"
    );
}

#[test]
fn inline_contents_without_a_filetype_fail_gracefully() {
    let undeclared = File {
        explicit_source: Some(DataSource::Contents("Some words".to_string())),
        title: "Undeclared".to_string(),
        ..Default::default()
    };
    let config = config_of(vec![undeclared, generate_valid_file()]);
    let index = build(&config, &inline_documents(&config)).unwrap();
    assert_eq!(index.entries.len(), 1);
    assert_eq!(index.errors.len(), 1);
    assert_eq!(index.errors[0].cause, WordListGenerationError::UnknownContentType);
    assert_eq!(
        index.errors[0].message(),
        "In file `Undeclared`: Content-Type is not present or invalid"
    );
}

#[test]
fn output_tuning_is_copied_as_it_is() {
    let config = Config {
        input: InputConfig {
            url_prefix: "https://example.com/".to_string(),
            title_boost: TitleBoost::Large,
            files: vec![generate_valid_file()],
            ..Default::default()
        },
        output: OutputConfig { excerpt_buffer: 3, excerpts_per_result: 7, displayed_results_count: 11 },
    };
    let index = build(&config, &inline_documents(&config)).unwrap();
    assert_eq!(index.config.url_prefix, "https://example.com/");
    assert_eq!(index.config.title_boost, TitleBoost::Large);
    assert_eq!(index.config.excerpt_buffer, 3);
    assert_eq!(index.config.excerpts_per_result, 7);
    assert_eq!(index.config.displayed_results_count, 11);
}

#[test]
fn defaults_of_the_configuration() {
    let config = Config::default();
    assert_eq!(config.input.url_prefix, "");
    assert_eq!(config.input.title_boost, TitleBoost::Moderate);
    assert_eq!(config.input.html_selector, None);
    assert!(!config.input.break_on_file_error);
    assert!(config.input.files.is_empty());
    assert_eq!(
        config.output,
        OutputConfig { excerpt_buffer: 8, excerpts_per_result: 5, displayed_results_count: 10 }
    );
    let file = File::default();
    assert_eq!(file.title, "");
    assert_eq!(file.url, "");
    assert_eq!(file.explicit_source, None);
    assert_eq!(file.filetype, None);
    assert_eq!(file.html_selector_override, None);
}

#[test]
fn markup_gives_the_words_under_its_selector() {
    let file = File {
        title: "Page".to_string(),
        filetype: Some(Filetype::HTML),
        explicit_source: Some(DataSource::Contents("<main>Hello there</main>".to_string())),
        ..Default::default()
    };
    let config = config_of(vec![file]);
    let mut document = inline_document(&config.input.files[0]);
    document.selected_text = Some("Hello there".to_string());
    let index = build(&config, &vec![document]).unwrap();
    assert_eq!(index.entries.len(), 1);
    let stems: Vec<&str> = index.containers.iter().map(|c| c.stem.as_str()).collect();
    assert_eq!(stems, vec!["hello", "there"]);
}
