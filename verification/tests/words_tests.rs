use stork_index::config::{File, Filetype};
use stork_index::entry::{annotated_words, normalize, selector_for, AnnotatedWord, Document};
use stork_index::errors::WordListGenerationError;
use stork_index::nudger::{analyze, Nudge};
use stork_index::config::{Config, InputConfig, OutputConfig};
use stork_index::reader::ReadResult;
use stork_index::stem::stem;
use stork_index::stems::{fill_stems, find_stem, stem_string, StemTable};
use stork_index::containers::fill_containers;
use stork_index::entry::NormalizedEntry;
use stork_index::text::{chars_of, string_of, surrounding_punctuation_bounds, token_bounds};

fn word(word: &str, character_offset: usize, document: usize) -> AnnotatedWord {
    AnnotatedWord { word: word.to_string(), character_offset, document }
}

fn stem_of(word: &str) -> String {
    stem(&word.chars().collect()).into_iter().collect()
}

fn entry_of(document: usize, text: &str) -> NormalizedEntry {
    NormalizedEntry {
        title: format!("entry {}", document),
        url: String::new(),
        words: annotated_words(text, document),
        fields: Vec::new(),
    }
}

fn plain(text: &str) -> Document {
    Document {
        read: Ok(ReadResult {
            buffer: text.to_string(),
            filetype: Filetype::PlainText,
            frontmatter_fields: None,
        }),
        selected_text: None,
    }
}

fn sorted_table(table: &StemTable) -> Vec<(String, Vec<String>)> {
    let mut groups: Vec<(String, Vec<String>)> = table
        .groups
        .iter()
        .map(|g| {
            let mut forms = g.forms.clone();
            forms.sort();
            (g.stem.clone(), forms)
        })
        .collect();
    groups.sort();
    groups
}

#[test]
fn tokens_are_the_runs_between_whitespace() {
    let chars: Vec<char> = "  two  words\tand\u{a0}more\n".chars().collect();
    assert_eq!(token_bounds(&chars), vec![(2, 5), (7, 12), (13, 16), (17, 21)]);
    assert_eq!(token_bounds(&"".chars().collect()), vec![]);
    assert_eq!(token_bounds(&" \n\t ".chars().collect()), vec![]);
    assert_eq!(token_bounds(&"x".chars().collect()), vec![(0, 1)]);
    assert_eq!(token_bounds(&"ab cd".chars().collect()), vec![(0, 2), (3, 5)]);
}

#[test]
fn bounds_of_the_word_inside_a_range() {
    let chars: Vec<char> = "say (hello), you".chars().collect();
    assert_eq!(surrounding_punctuation_bounds(&chars, 4, 12), (5, 10));
    assert_eq!(surrounding_punctuation_bounds(&chars, 0, 3), (0, 3));
    assert_eq!(surrounding_punctuation_bounds(&chars, 10, 12), (12, 12));
    assert_eq!(surrounding_punctuation_bounds(&chars, 7, 7), (7, 7));
    assert_eq!(string_of(&chars, 5, 10), "hello");
    assert_eq!(string_of(&chars, 3, 3), "");
    assert_eq!(chars_of("h\u{e9}!"), vec!['h', '\u{e9}', '!']);
}

#[test]
fn words_keep_the_offset_of_their_token() {
    assert_eq!(
        annotated_words("  Hello, world!  ... (ok) don't", 3),
        vec![word("Hello", 2, 3), word("world", 9, 3), word("ok", 21, 3), word("don't", 26, 3)]
    );
    assert_eq!(annotated_words("", 0), vec![]);
    assert_eq!(annotated_words("... --- !?", 0), vec![]);
    assert_eq!(annotated_words("\u{e9}t\u{e9} \u{201c}x\u{201d}", 1), vec![
        word("\u{e9}t\u{e9}", 0, 1),
        word("\u{201c}x\u{201d}", 4, 1)
    ]);
}

#[test]
fn stems_of_words() {
    let cases = [
        ("running", "run"),
        ("runs", "run"),
        ("Running", "run"),
        ("RUN", "run"),
        ("run", "run"),
        ("sing", "sing"),
        ("bed", "bed"),
        ("classes", "class"),
        ("class", "class"),
        ("ponies", "poni"),
        ("hopped", "hop"),
        ("falling", "fall"),
        ("missed", "miss"),
        ("buzzing", "buzz"),
        ("meetings", "meet"),
        ("contents", "content"),
        ("this", "thi"),
        ("is", "is"),
        ("as", "as"),
        ("s", "s"),
        ("", ""),
        ("feed", "fe"),
        ("seeing", "see"),
        ("don't", "don't"),
        ("\u{c9}t\u{e9}s", "\u{c9}t\u{e9}"),
        ("walked", "walk"),
        ("added", "ad"),
        ("ies", "i"),
        ("sses", "ss"),
    ];
    for (word, stem) in cases {
        assert_eq!(stem_of(word), stem, "{:?}", word);
        assert_eq!(stem_string(&word.to_string()), stem, "{:?}", word);
    }
}

#[test]
fn stem_table_groups_the_forms_by_stem() {
    let entries = vec![entry_of(0, "Runs running run"), entry_of(1, "walk run Walked runs")];
    let table = fill_stems(&entries);
    let stems: Vec<&str> = table.groups.iter().map(|g| g.stem.as_str()).collect();
    assert_eq!(stems, vec!["run", "walk"]);
    assert_eq!(table.groups[0].forms, vec!["Runs", "running", "run", "runs"]);
    assert_eq!(table.groups[1].forms, vec!["walk", "Walked"]);
    assert_eq!(find_stem(&table, &"walk".to_string()), Some(1));
    assert_eq!(find_stem(&table, &"run".to_string()), Some(0));
    assert_eq!(find_stem(&table, &"runs".to_string()), None);
    assert!(fill_stems(&Vec::new()).groups.is_empty());
}

#[test]
fn stem_table_does_not_depend_on_the_order_of_the_entries() {
    let a = entry_of(0, "the cats sat on the mats");
    let b = entry_of(1, "a cat sits, sitting on a mat");
    let c = entry_of(2, "Dogs sat; dog sits");
    let one = fill_stems(&vec![a.clone(), b.clone(), c.clone()]);
    let two = fill_stems(&vec![c.clone(), a.clone(), b.clone()]);
    let three = fill_stems(&vec![b.clone(), c, a.clone(), b, a]);
    assert_eq!(sorted_table(&one), sorted_table(&two));
    assert_eq!(sorted_table(&one), sorted_table(&three));
    assert_eq!(sorted_table(&one), sorted_table(&fill_stems(&vec![
        entry_of(0, "the cats sat on the mats"),
        entry_of(1, "a cat sits, sitting on a mat"),
        entry_of(2, "Dogs sat; dog sits"),
    ])));
}

#[test]
fn containers_follow_the_stem_table() {
    let entries = vec![entry_of(0, "Runs running"), entry_of(1, "walk  run")];
    let table = fill_stems(&entries);
    let containers = fill_containers(&entries, &table);
    assert_eq!(containers.len(), 2);
    assert_eq!(containers[0].stem, "run");
    assert_eq!(containers[1].stem, "walk");
    let places: Vec<(usize, usize, usize)> = containers[0]
        .occurrences
        .iter()
        .map(|o| (o.entry, o.position, o.character_offset))
        .collect();
    assert_eq!(places, vec![(0, 0, 0), (0, 1, 5), (1, 1, 6)]);
    let places: Vec<(usize, usize, usize)> = containers[1]
        .occurrences
        .iter()
        .map(|o| (o.entry, o.position, o.character_offset))
        .collect();
    assert_eq!(places, vec![(1, 0, 0)]);
}

#[test]
fn normalize_gives_the_entry_of_a_document() {
    let file = File {
        title: "Title".to_string(),
        url: "/title".to_string(),
        filetype: Some(Filetype::PlainText),
        ..Default::default()
    };
    let mut document = plain("One, two.");
    if let Ok(read) = &mut document.read {
        read.frontmatter_fields = Some(vec![("author".to_string(), "someone".to_string())]);
    }
    let entry = normalize(5, &file, &None, Some(&document)).unwrap();
    assert_eq!(entry.title, "Title");
    assert_eq!(entry.url, "/title");
    assert_eq!(entry.words, vec![word("One", 0, 5), word("two", 5, 5)]);
    assert_eq!(entry.fields, vec![("author".to_string(), "someone".to_string())]);
}

#[test]
fn normalize_reports_each_failure() {
    let file = File { title: "T".to_string(), ..Default::default() };
    let cause = |document: Option<&Document>, global: &Option<String>| {
        let error = normalize(2, &file, global, document).unwrap_err();
        assert_eq!(error.file_index, 2);
        assert_eq!(error.title, "T");
        error.cause
    };
    assert_eq!(cause(None, &None), WordListGenerationError::FeatureNotAvailable);
    let failed =
        Document { read: Err(WordListGenerationError::WebPageNotFetched), selected_text: None };
    assert_eq!(cause(Some(&failed), &None), WordListGenerationError::WebPageNotFetched);
    let unknown = Document {
        read: Err(WordListGenerationError::UnknownContentType),
        selected_text: None,
    };
    assert_eq!(cause(Some(&unknown), &None), WordListGenerationError::UnknownContentType);
    let unread = Document {
        read: Err(WordListGenerationError::FileNotRead("a.txt".to_string())),
        selected_text: Some("text that is not looked at".to_string()),
    };
    assert_eq!(
        cause(Some(&unread), &None),
        WordListGenerationError::FileNotRead("a.txt".to_string())
    );
    assert_eq!(cause(Some(&plain(" ?! ")), &None), WordListGenerationError::EmptyWordList);
    let mut markup = plain("<p>words</p>");
    if let Ok(read) = &mut markup.read {
        read.filetype = Filetype::HTML;
    }
    assert_eq!(
        cause(Some(&markup), &None),
        WordListGenerationError::SelectorNotPresent("main".to_string())
    );
    assert_eq!(
        cause(Some(&markup), &Some("article".to_string())),
        WordListGenerationError::SelectorNotPresent("article".to_string())
    );
    markup.selected_text = Some("   ".to_string());
    assert_eq!(cause(Some(&markup), &None), WordListGenerationError::EmptyWordList);
}

#[test]
fn selector_of_a_file() {
    let own = File { html_selector_override: Some(".own".to_string()), ..Default::default() };
    let none = File::default();
    assert_eq!(selector_for(&own, &Some(".all".to_string())), ".own");
    assert_eq!(selector_for(&own, &None), ".own");
    assert_eq!(selector_for(&none, &Some(".all".to_string())), ".all");
    assert_eq!(selector_for(&none, &None), "main");
}

#[test]
fn advice_on_a_configuration() {
    assert_eq!(analyze(&Config::default()), vec![Nudge::NoFiles]);
    let config = Config {
        input: InputConfig {
            url_prefix: "https://example.com".to_string(),
            files: vec![File::default()],
            ..Default::default()
        },
        output: OutputConfig { displayed_results_count: 0, ..Default::default() },
    };
    assert_eq!(
        analyze(&config),
        vec![Nudge::UrlPrefixWithoutTrailingSlash, Nudge::NoDisplayedResults]
    );
    let config = Config {
        input: InputConfig {
            url_prefix: "https://example.com/".to_string(),
            files: vec![File::default()],
            ..Default::default()
        },
        ..Default::default()
    };
    assert_eq!(analyze(&config), vec![]);
    assert_eq!(Nudge::NoFiles.message(), "No files are configured, so there is nothing to index");
    assert_eq!(
        Nudge::UrlPrefixWithoutTrailingSlash.message(),
        "The URL prefix does not end in a slash"
    );
    assert_eq!(
        Nudge::NoDisplayedResults.message(),
        "The displayed results count is zero, so no result will be shown"
    );
}
