//! The service's settings and the reader of its settings text.
//!
//! The text is read line by line. Three directives are known, each a keyword,
//! a space and a value:
//!
//! ```text
//! Listen 0.0.0.0:8667
//! MaxHandleName 32
//! MaxMessageLength 256
//! ```
//!
//! Any other line is skipped. Where a directive occurs more than once, the
//! last usable occurrence counts.

use crate::text::{
    chars_of, contains_char, number_of, parse_number, strip_prefix, trim, trimmed, without_prefix,
};
use vstd::prelude::*;

verus! {

/// A snapshot of the service's settings.
#[derive(Debug, Clone)]
pub struct Config {
    /// Where the listener binds, as `host:port`.
    pub address: String,
    /// The largest handle name accepted, in bytes.
    pub max_handle_name: usize,
    /// The number of buffered bytes at which a line counts as too long.
    pub max_message_length: usize,
}

/// The mathematical content of a [`Config`].
pub struct ConfigView {
    pub address: Seq<char>,
    pub max_handle_name: nat,
    pub max_message_length: nat,
}

impl View for Config {
    type V = ConfigView;

    open spec fn view(&self) -> ConfigView {
        ConfigView {
            address: self.address@,
            max_handle_name: self.max_handle_name as nat,
            max_message_length: self.max_message_length as nat,
        }
    }
}

impl ConfigView {
    /// Both limits are positive.
    pub open spec fn wf(self) -> bool {
        self.max_handle_name > 0 && self.max_message_length > 0
    }
}

/// The settings in force where the text gives none.
pub open spec fn default_config() -> ConfigView {
    ConfigView { address: "127.0.0.1:8667"@, max_handle_name: 32, max_message_length: 256 }
}

/// The bind address that a `Listen` value stands for: a value with a colon is
/// an address as it is, one without is a bare port on every interface.
pub open spec fn listen_address(value: Seq<char>) -> Seq<char> {
    if value.contains(':') {
        value
    } else {
        "[::]:"@ + value
    }
}

/// The limit that a directive's value sets: a positive decimal number that
/// fits in `usize`.
pub open spec fn limit_of(value: Seq<char>) -> Option<nat> {
    match number_of(trimmed(value), usize::MAX as nat) {
        Some(n) => if n > 0 {
            Some(n)
        } else {
            None
        },
        None => None,
    }
}

/// The settings after one line of the text has been read.
pub open spec fn directive_applied(config: ConfigView, line: Seq<char>) -> ConfigView {
    let line = trimmed(line);
    if let Some(value) = without_prefix(line, "Listen "@) {
        ConfigView { address: listen_address(trimmed(value)), ..config }
    } else if let Some(value) = without_prefix(line, "MaxHandleName "@) {
        match limit_of(value) {
            Some(n) => ConfigView { max_handle_name: n, ..config },
            None => config,
        }
    } else if let Some(value) = without_prefix(line, "MaxMessageLength "@) {
        match limit_of(value) {
            Some(n) => ConfigView { max_message_length: n, ..config },
            None => config,
        }
    } else {
        config
    }
}

/// The number of characters in front of the first line feed of `text`, or
/// of all of `text` where it holds none.
pub open spec fn line_length(text: Seq<char>) -> nat
    decreases text.len(),
{
    if text.len() == 0 || text[0] == '\n' {
        0
    } else {
        1 + line_length(text.drop_first())
    }
}

/// The settings after every line of `text` has been read, first to last.
pub open spec fn directives_applied(config: ConfigView, text: Seq<char>) -> ConfigView
    decreases text.len(),
{
    if text.len() == 0 {
        config
    } else {
        let n = line_length(text) as int;
        let next = directive_applied(config, text.take(n));
        if n >= text.len() {
            next
        } else {
            directives_applied(next, text.skip(n + 1))
        }
    }
}

/// The settings that `text` describes.
pub open spec fn config_of(text: Seq<char>) -> ConfigView {
    directives_applied(default_config(), text)
}

proof fn lemma_line_length_bound(text: Seq<char>)
    ensures
        line_length(text) <= text.len(),
        line_length(text) < text.len() ==> text[line_length(text) as int] == '\n',
        forall|i: int| 0 <= i < line_length(text) ==> text[i] != '\n',
    decreases text.len(),
{
    if text.len() == 0 || text[0] == '\n' {
    } else {
        let rest = text.drop_first();
        lemma_line_length_bound(rest);
        assert forall|i: int| 0 <= i < line_length(text) implies text[i] != '\n' by {
            if i > 0 {
                assert(rest[i - 1] == text[i]);
            }
        }
        if line_length(text) < text.len() {
            assert(rest[line_length(rest) as int] == text[line_length(text) as int]);
        }
    }
}

proof fn lemma_line_length_is(text: Seq<char>, n: int)
    requires
        0 <= n <= text.len(),
        forall|i: int| 0 <= i < n ==> text[i] != '\n',
        n < text.len() ==> text[n] == '\n',
    ensures
        line_length(text) == n,
{
    lemma_line_length_bound(text);
}

fn limit_value(value: &str) -> (limit: Option<usize>)
    ensures
        match limit {
            Some(n) => limit_of(value@) == Some(n as nat),
            None => limit_of(value@) is None,
        },
{
    match parse_number(trim(value)) {
        Some(n) => if n > 0 {
            Some(n)
        } else {
            None
        },
        None => None,
    }
}

impl Config {
    /// The settings in force where the text gives none.
    pub fn new() -> (config: Config)
        ensures
            config@ == default_config(),
    {
        Config {
            address: String::from_str("127.0.0.1:8667"),
            max_handle_name: 32,
            max_message_length: 256,
        }
    }

    /// Reads one line of settings text into `self`.
    pub fn apply_directive(&mut self, line: &str)
        ensures
            final(self)@ == directive_applied(old(self)@, line@),
    {
        let line = trim(line);
        if let Some(value) = strip_prefix(line, "Listen ") {
            let value = trim(value);
            if contains_char(value, ':') {
                self.address = String::from_str(value);
            } else {
                let mut address = String::from_str("[::]:");
                address.append(value);
                self.address = address;
            }
        } else if let Some(value) = strip_prefix(line, "MaxHandleName ") {
            if let Some(n) = limit_value(value) {
                self.max_handle_name = n;
            }
        } else if let Some(value) = strip_prefix(line, "MaxMessageLength ") {
            if let Some(n) = limit_value(value) {
                self.max_message_length = n;
            }
        }
    }
}

/// Reads the settings that `text` describes. Lines end at a line feed; white
/// space around a line and around a value is dropped. A `Listen` value
/// without a colon is taken as a port on every interface. A limit that is not
/// a positive number, or does not fit, leaves the limit as it was.
pub fn load_config(text: &str) -> (config: Config)
    ensures
        config@ == config_of(text@),
        config@.wf(),
{
    let chars = chars_of(text);
    let mut config = Config::new();
    let mut start: usize = 0;
    assert(text@.skip(0) == text@);
    while start < chars.len()
        invariant
            chars@ == text@,
            start <= chars.len(),
            config_of(text@) == directives_applied(config@, text@.skip(start as int)),
            config@.wf(),
        decreases chars.len() - start,
    {
        let ghost rest = text@.skip(start as int);
        let mut end: usize = start;
        while end < chars.len() && chars[end] != '\n'
            invariant
                chars@ == text@,
                start <= end <= chars.len(),
                forall|i: int| start <= i < end ==> text@[i] != '\n',
            decreases chars.len() - end,
        {
            end = end + 1;
        }
        proof {
            lemma_line_length_is(rest, end - start);
            assert(rest.take(end - start) == text@.subrange(start as int, end as int));
            if end < chars.len() {
                assert(rest.skip(end - start + 1) == text@.skip(end + 1));
            }
        }
        config.apply_directive(text.substring_char(start, end));
        if end == chars.len() {
            start = end;
            assert(text@.skip(start as int).len() == 0);
        } else {
            start = end + 1;
        }
    }
    config
}

} // verus!
