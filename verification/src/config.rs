//! The configuration of a build: the documents to index and the values that tune the output.

use vstd::prelude::*;

verus! {

/// The kind of content that a document holds.
#[derive(Clone, Copy, Debug, PartialEq, Eq, Structural)]
pub enum Filetype {
    PlainText,
    HTML,
}

/// Where the raw content of a document comes from.
#[derive(Clone, Debug, PartialEq, Eq)]
pub enum DataSource {
    Contents(String),
    URL(String),
    FilePath(String),
}

/// How much a match in a title counts for.
#[derive(Clone, Copy, Debug, PartialEq, Eq, Structural)]
pub enum TitleBoost {
    Minimal,
    Moderate,
    Large,
    Ridiculous,
}

/// One document to index.
#[derive(Clone, Debug, PartialEq, Eq)]
pub struct File {
    pub title: String,
    pub url: String,
    pub explicit_source: Option<DataSource>,
    pub filetype: Option<Filetype>,
    pub html_selector_override: Option<String>,
}

#[derive(Clone, Debug, PartialEq, Eq)]
pub struct InputConfig {
    pub url_prefix: String,
    pub title_boost: TitleBoost,
    pub html_selector: Option<String>,
    pub break_on_file_error: bool,
    pub files: Vec<File>,
}

#[derive(Clone, Copy, Debug, PartialEq, Eq, Structural)]
pub struct OutputConfig {
    pub excerpt_buffer: u8,
    pub excerpts_per_result: u8,
    pub displayed_results_count: u8,
}

#[derive(Clone, Debug, PartialEq, Eq)]
pub struct Config {
    pub input: InputConfig,
    pub output: OutputConfig,
}

impl Default for File {
    fn default() -> (r: File)
        ensures
            r.title@.len() == 0,
            r.url@.len() == 0,
            r.explicit_source is None,
            r.filetype is None,
            r.html_selector_override is None,
    {
        File {
            title: String::new(),
            url: String::new(),
            explicit_source: None,
            filetype: None,
            html_selector_override: None,
        }
    }
}

impl Default for InputConfig {
    fn default() -> (r: InputConfig)
        ensures
            r.url_prefix@.len() == 0,
            r.title_boost == TitleBoost::Moderate,
            r.html_selector is None,
            !r.break_on_file_error,
            r.files@.len() == 0,
    {
        InputConfig {
            url_prefix: String::new(),
            title_boost: TitleBoost::Moderate,
            html_selector: None,
            break_on_file_error: false,
            files: Vec::new(),
        }
    }
}

impl Default for OutputConfig {
    fn default() -> (r: OutputConfig)
        ensures
            r == (OutputConfig {
                excerpt_buffer: 8,
                excerpts_per_result: 5,
                displayed_results_count: 10,
            }),
    {
        OutputConfig { excerpt_buffer: 8, excerpts_per_result: 5, displayed_results_count: 10 }
    }
}

impl Default for Config {
    fn default() -> (r: Config)
        ensures
            r.input.url_prefix@.len() == 0,
            r.input.title_boost == TitleBoost::Moderate,
            r.input.html_selector is None,
            !r.input.break_on_file_error,
            r.input.files@.len() == 0,
            r.output == (OutputConfig {
                excerpt_buffer: 8,
                excerpts_per_result: 5,
                displayed_results_count: 10,
            }),
    {
        Config { input: InputConfig::default(), output: OutputConfig::default() }
    }
}

} // verus!
