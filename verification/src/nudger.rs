//! Advice on a configuration that looks like a mistake. It never changes what a build does.

use vstd::prelude::*;
use vstd::string::*;
use crate::config::Config;
use crate::text::chars_of;

verus! {

/// One piece of advice.
#[derive(Clone, Copy, Debug, PartialEq, Eq, Structural)]
pub enum Nudge {
    /// No file is configured, so no build can succeed.
    NoFiles,
    /// The URL prefix does not end in a slash, so it runs into the URL of each document.
    UrlPrefixWithoutTrailingSlash,
    /// The output is tuned to show no result at all.
    NoDisplayedResults,
}

pub open spec fn lacks_trailing_slash(prefix: Seq<char>) -> bool {
    prefix.len() > 0 && prefix.last() != '/'
}

/// The advice that a configuration calls for.
pub open spec fn advice(config: Config) -> Seq<Nudge> {
    (if config.input.files@.len() == 0 {
        seq![Nudge::NoFiles]
    } else {
        Seq::empty()
    }) + (if lacks_trailing_slash(config.input.url_prefix@) {
        seq![Nudge::UrlPrefixWithoutTrailingSlash]
    } else {
        Seq::empty()
    }) + (if config.output.displayed_results_count == 0 {
        seq![Nudge::NoDisplayedResults]
    } else {
        Seq::empty()
    })
}

/// Looks a configuration over and gives the advice that it calls for.
pub fn analyze(config: &Config) -> (r: Vec<Nudge>)
    ensures
        r@ == advice(*config),
{
    let mut r: Vec<Nudge> = Vec::new();
    if config.input.files.len() == 0 {
        r.push(Nudge::NoFiles);
    }
    let prefix = chars_of(config.input.url_prefix.as_str());
    if prefix.len() > 0 && prefix[prefix.len() - 1] != '/' {
        r.push(Nudge::UrlPrefixWithoutTrailingSlash);
    }
    if config.output.displayed_results_count == 0 {
        r.push(Nudge::NoDisplayedResults);
    }
    r
}

impl Nudge {
    pub open spec fn message_of(self) -> Seq<char> {
        match self {
            Nudge::NoFiles => "No files are configured, so there is nothing to index"@,
            Nudge::UrlPrefixWithoutTrailingSlash => "The URL prefix does not end in a slash"@,
            Nudge::NoDisplayedResults => "The displayed results count is zero, so no result will be shown"@,
        }
    }

    /// The sentence to show for this piece of advice.
    pub fn message(&self) -> (r: String)
        ensures
            r@ == self.message_of(),
    {
        match self {
            Nudge::NoFiles => "No files are configured, so there is nothing to index".to_owned(),
            Nudge::UrlPrefixWithoutTrailingSlash => {
                "The URL prefix does not end in a slash".to_owned()
            },
            Nudge::NoDisplayedResults => {
                "The displayed results count is zero, so no result will be shown".to_owned()
            },
        }
    }
}

} // verus!
