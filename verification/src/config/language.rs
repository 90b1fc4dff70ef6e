//! The parser of the configuration language.

use vstd::prelude::*;

use crate::config::syntax::{
    at, attribute_at, attributes_at, config_of, has_word, keyword, lemma_attribute_at,
    lemma_plugin_at, lemma_section_at, name_starts, number_end, plugin_at,
    plugins_at, prefixed, run_end, section_at, sections_at, stage_at, value_at, Class, Expected,
    Fault, Outcome,
};
use crate::config::{
    bind_all, bind_attribute, AttributeValue, Binding, Plugin, PluginSection, PluginSectionView,
    PluginType, PluginView,
};
use crate::text::{append_decimal, decimal};

verus! {

/// Where a text stops being a configuration: the position, counted in
/// characters from the start of the text, and what the language allows there.
#[derive(Debug, PartialEq, Eq, Clone, Copy)]
pub struct Diagnostic {
    pub position: usize,
    pub expected: Expected,
}

impl View for Diagnostic {
    type V = Fault;

    open spec fn view(&self) -> Fault {
        Fault { position: self.position as int, expected: self.expected }
    }
}

impl Diagnostic {
    /// The diagnostic as a sentence.
    pub open spec fn message(self) -> Seq<char> {
        "expected "@ + self.expected.description() + " at character "@ + decimal(
            self.position as nat,
        )
    }

    /// The diagnostic as a sentence.
    pub fn to_string(&self) -> (text: String)
        ensures
            text@ == self.message(),
    {
        let mut text = String::from_str("expected ");
        text.append(self.expected.describe());
        text.append(" at character ");
        append_decimal(&mut text, self.position as u64);
        text
    }
}

/// Why a text could not be read as a configuration.
#[derive(Debug, PartialEq, Eq)]
#[non_exhaustive]
pub enum ConfigParseError {
    /// The text is not in the language.
    PestError(Diagnostic),
    /// The text is in the language, but its structure is not one that a
    /// configuration can have. No text has this fault: see
    /// [`parse_logstash_config`].
    UnexpectedStructure,
}

impl ConfigParseError {
    /// The error as a sentence.
    pub open spec fn message(self) -> Seq<char> {
        match self {
            ConfigParseError::PestError(diagnostic) => "PEST parsing error: "@
                + diagnostic.message(),
            ConfigParseError::UnexpectedStructure => "Unexpected parsing structure encountered"@,
        }
    }

    /// The error as a sentence.
    pub fn to_string(&self) -> (text: String)
        ensures
            text@ == self.message(),
    {
        match self {
            ConfigParseError::PestError(diagnostic) => String::from_str(
                "PEST parsing error: ",
            ).concat(diagnostic.to_string().as_str()),
            ConfigParseError::UnexpectedStructure => String::from_str(
                "Unexpected parsing structure encountered",
            ),
        }
    }
}

/// Whether `result` is what `outcome` describes.
pub open spec fn reads<T: DeepView>(
    result: Result<(T, usize), Diagnostic>,
    outcome: Outcome<T::V>,
) -> bool {
    match (result, outcome) {
        (Ok((value, next)), Ok((v, n))) => value.deep_view() == v && next == n,
        (Err(diagnostic), Err(fault)) => diagnostic@ == fault,
        _ => false,
    }
}

fn in_class(class: Class, c: char) -> (b: bool)
    ensures
        b == class.has(c),
{
    match class {
        Class::Space => c == ' ' || c == '\t' || c == '\n' || c == '\r',
        Class::Digit => '0' <= c && c <= '9',
        Class::Word => ('a' <= c && c <= 'z') || ('A' <= c && c <= 'Z') || c == '_' || ('0' <= c
            && c <= '9'),
        Class::NotQuote => c != '"',
        Class::NotSlash => c != '/',
    }
}

/// The end of the run of `class` that starts at `from`.
fn scan(chars: &Vec<char>, from: usize, class: Class) -> (end: usize)
    requires
        from <= chars.len(),
    ensures
        end == run_end(chars@, from as int, class),
        from <= end <= chars.len(),
{
    let mut end = from;
    while end < chars.len() && in_class(class, chars[end])
        invariant
            from <= end <= chars.len(),
            run_end(chars@, from as int, class) == run_end(chars@, end as int, class),
        decreases chars.len() - end,
    {
        end = end + 1;
    }
    end
}

fn is_at(chars: &Vec<char>, i: usize, c: char) -> (b: bool)
    ensures
        b == at(chars@, i as int, c),
{
    i < chars.len() && chars[i] == c
}

fn starts_name(chars: &Vec<char>, i: usize) -> (b: bool)
    ensures
        b == name_starts(chars@, i as int),
{
    i < chars.len() && (('a' <= chars[i] && chars[i] <= 'z') || ('A' <= chars[i] && chars[i]
        <= 'Z') || chars[i] == '_')
}

/// The characters of `text` from `from` up to `to`.
fn slice(text: &str, from: usize, to: usize) -> (piece: String)
    requires
        from <= to <= text@.len(),
    ensures
        piece@ == text@.subrange(from as int, to as int),
{
    text.substring_char(from, to).to_owned()
}

/// The characters of `text`.
fn characters(text: &str) -> (chars: Vec<char>)
    ensures
        chars@ == text@,
{
    let mut chars: Vec<char> = Vec::new();
    for c in it: text.chars()
        invariant
            chars@ == it.seq().take(it.index() as int),
            it.seq() == text@,
    {
        chars.push(c);
    }
    chars
}

/// Whether `word` stands in `chars` at `from`.
fn word_at(chars: &Vec<char>, from: usize, word: &str) -> (b: bool)
    requires
        from <= chars.len(),
    ensures
        b == has_word(chars@, from as int, word@),
{
    let n = word.unicode_len();
    if chars.len() - from < n {
        return false;
    }
    let mut j: usize = 0;
    while j < n
        invariant
            n == word@.len(),
            from + n <= chars.len(),
            j <= n,
            forall|k: int| 0 <= k < j ==> chars@[from + k] == word@[k],
        decreases n - j,
    {
        if chars[from + j] != word.get_char(j) {
            return false;
        }
        j = j + 1;
    }
    assert(chars@.subrange(from as int, from + n) =~= word@);
    true
}

fn keyword_of(plugin_type: PluginType) -> (word: &'static str)
    ensures
        word@ == keyword(plugin_type),
{
    match plugin_type {
        PluginType::Input => "input",
        PluginType::Filter => "filter",
        PluginType::Output => "output",
    }
}

/// The stage whose keyword stands at `from`, and the position after it.
fn parse_stage(chars: &Vec<char>, from: usize) -> (stage: Option<(PluginType, usize)>)
    requires
        from <= chars.len(),
    ensures
        match stage {
            Some((plugin_type, end)) => stage_at(chars@, from as int) == Some(
                (plugin_type, end as int),
            ) && end <= chars.len(),
            None => stage_at(chars@, from as int) is None,
        },
{
    if word_at(chars, from, keyword_of(PluginType::Input)) {
        Some((PluginType::Input, from + keyword_of(PluginType::Input).unicode_len()))
    } else if word_at(chars, from, keyword_of(PluginType::Filter)) {
        Some((PluginType::Filter, from + keyword_of(PluginType::Filter).unicode_len()))
    } else if word_at(chars, from, keyword_of(PluginType::Output)) {
        Some((PluginType::Output, from + keyword_of(PluginType::Output).unicode_len()))
    } else {
        None
    }
}

/// The end of the number that starts at `from`.
fn parse_number(chars: &Vec<char>, from: usize) -> (result: Result<usize, Diagnostic>)
    requires
        from < chars.len(),
    ensures
        match (result, number_end(chars@, from as int)) {
            (Ok(end), Ok(e)) => end == e && from < end <= chars.len(),
            (Err(diagnostic), Err(fault)) => diagnostic@ == fault,
            _ => false,
        },
{
    let first = if is_at(chars, from, '+') || is_at(chars, from, '-') {
        from + 1
    } else {
        from
    };
    let whole = scan(chars, first, Class::Digit);
    if whole == first {
        Err(Diagnostic { position: first, expected: Expected::Digit })
    } else if is_at(chars, whole, '.') && whole + 1 < chars.len() && in_class(
        Class::Digit,
        chars[whole + 1],
    ) {
        Ok(scan(chars, whole + 1, Class::Digit))
    } else {
        Ok(whole)
    }
}

/// Reads the value that starts at `from`.
fn parse_value(text: &str, chars: &Vec<char>, from: usize) -> (result: Result<
    (AttributeValue, usize),
    Diagnostic,
>)
    requires
        chars@ == text@,
        from <= chars.len(),
    ensures
        reads(result, value_at(text@, from as int)),
{
    if is_at(chars, from, '"') {
        let close = scan(chars, from + 1, Class::NotQuote);
        if close < chars.len() {
            Ok((AttributeValue::String(slice(text, from + 1, close)), close + 1))
        } else {
            Err(Diagnostic { position: close, expected: Expected::ClosingQuote })
        }
    } else if is_at(chars, from, '/') {
        let close = scan(chars, from + 1, Class::NotSlash);
        if close < chars.len() {
            Ok((AttributeValue::Regexp(slice(text, from, close + 1)), close + 1))
        } else {
            Err(Diagnostic { position: close, expected: Expected::ClosingSlash })
        }
    } else if is_at(chars, from, '+') || is_at(chars, from, '-') || (from < chars.len()
        && in_class(Class::Digit, chars[from])) {
        match parse_number(chars, from) {
            Ok(end) => Ok((AttributeValue::Number(slice(text, from, end)), end)),
            Err(diagnostic) => Err(diagnostic),
        }
    } else if starts_name(chars, from) {
        let end = scan(chars, from, Class::Word);
        Ok((AttributeValue::String(slice(text, from, end)), end))
    } else {
        Err(Diagnostic { position: from, expected: Expected::Value })
    }
}

/// Reads the attribute whose name starts at `from`.
fn parse_attribute(text: &str, chars: &Vec<char>, from: usize) -> (result: Result<
    ((String, AttributeValue), usize),
    Diagnostic,
>)
    requires
        chars@ == text@,
        name_starts(text@, from as int),
    ensures
        reads(result, attribute_at(text@, from as int)),
{
    let name_end = scan(chars, from, Class::Word);
    let arrow = scan(chars, name_end, Class::Space);
    if is_at(chars, arrow, '=') && is_at(chars, arrow + 1, '>') {
        let value_start = scan(chars, arrow + 2, Class::Space);
        match parse_value(text, chars, value_start) {
            Ok((value, next)) => Ok(((slice(text, from, name_end), value), next)),
            Err(diagnostic) => Err(diagnostic),
        }
    } else {
        Err(Diagnostic { position: arrow, expected: Expected::Arrow })
    }
}

/// Reads the plugin whose name starts at `from`: the name, and between
/// braces the attributes, each name bound to the value written for it last.
#[verifier::loop_isolation(false)]
fn parse_plugin(text: &str, chars: &Vec<char>, from: usize) -> (result: Result<
    (Plugin, usize),
    Diagnostic,
>)
    requires
        chars@ == text@,
        name_starts(text@, from as int),
    ensures
        reads(result, plugin_at(text@, from as int)),
{
    let name_end = scan(chars, from, Class::Word);
    let brace = scan(chars, name_end, Class::Space);
    if !is_at(chars, brace, '{') {
        return Err(Diagnostic { position: brace, expected: Expected::OpenBrace });
    }
    let name = slice(text, from, name_end);
    let mut attributes: Vec<(String, AttributeValue)> = Vec::new();
    let mut next: usize = brace + 1;
    let ghost mut written: Seq<Binding> = Seq::empty();
    loop
        invariant
            chars@ == text@,
            next <= chars.len(),
            name@ == text@.subrange(from as int, name_end as int),
            attributes.deep_view() == bind_all(written),
            attributes_at(text@, brace + 1) == prefixed(written, attributes_at(text@, next as int)),
        decreases chars.len() - next,
    {
        let k = scan(chars, next, Class::Space);
        if is_at(chars, k, '}') {
            return Ok((Plugin { name, attributes }, k + 1));
        } else if starts_name(chars, k) {
            match parse_attribute(text, chars, k) {
                Ok(((attribute, value), after)) => {
                    proof {
                        lemma_attribute_at(text@, k as int);
                        let binding = (attribute@, value@);
                        if let Ok((rest, _)) = attributes_at(text@, after as int) {
                            assert(written + (seq![binding] + rest) =~= written.push(binding)
                                + rest);
                        }
                        assert(written.push(binding).drop_last() =~= written);
                        written = written.push(binding);
                    }
                    bind_attribute(&mut attributes, attribute, value);
                    next = after;
                },
                Err(diagnostic) => {
                    return Err(diagnostic);
                },
            }
        } else {
            return Err(Diagnostic { position: k, expected: Expected::AttributeOrClose });
        }
    }
}

/// Reads the section that starts at `from`: the stage keyword, and between
/// braces the plugins in the order of the text.
#[verifier::loop_isolation(false)]
fn parse_plugin_section(text: &str, chars: &Vec<char>, from: usize) -> (result: Result<
    (PluginSection, usize),
    Diagnostic,
>)
    requires
        chars@ == text@,
        from <= chars.len(),
    ensures
        reads(result, section_at(text@, from as int)),
{
    let (plugin_type, keyword_end) = match parse_stage(chars, from) {
        Some(stage) => stage,
        None => {
            return Err(Diagnostic { position: from, expected: Expected::Stage });
        },
    };
    let brace = scan(chars, keyword_end, Class::Space);
    if !is_at(chars, brace, '{') {
        return Err(Diagnostic { position: brace, expected: Expected::OpenBrace });
    }
    let mut plugins: Vec<Plugin> = Vec::new();
    let mut next: usize = brace + 1;
    loop
        invariant
            chars@ == text@,
            next <= chars.len(),
            plugins_at(text@, brace + 1) == prefixed(
                plugins.deep_view(),
                plugins_at(text@, next as int),
            ),
        decreases chars.len() - next,
    {
        let k = scan(chars, next, Class::Space);
        if is_at(chars, k, '}') {
            return Ok((PluginSection { plugin_type, plugins }, k + 1));
        } else if starts_name(chars, k) {
            match parse_plugin(text, chars, k) {
                Ok((plugin, after)) => {
                    let ghost taken = plugins.deep_view();
                    proof {
                        lemma_plugin_at(text@, k as int);
                        if let Ok((rest, _)) = plugins_at(text@, after as int) {
                            assert(taken + (seq![plugin@] + rest) =~= taken.push(plugin@) + rest);
                        }
                    }
                    plugins.push(plugin);
                    assert(plugins.deep_view() =~= taken.push(plugin@));
                    next = after;
                },
                Err(diagnostic) => {
                    return Err(diagnostic);
                },
            }
        } else {
            return Err(Diagnostic { position: k, expected: Expected::PluginOrClose });
        }
    }
}

/// Whether `result` is what reading `text` gives: the configuration that
/// the text stands for, or the fault at which it leaves the language.
pub open spec fn reads_as(
    text: Seq<char>,
    result: Result<Vec<PluginSection>, ConfigParseError>,
) -> bool {
    match config_of(text) {
        Ok(sections) => result matches Ok(parsed) && parsed.deep_view() == sections,
        Err(fault) => result matches Err(ConfigParseError::PestError(diagnostic)) && diagnostic@
            == fault,
    }
}

/// Reading is a function of the text: whatever is read from one text twice
/// is the same configuration, or the same fault.
pub proof fn lemma_reading_is_deterministic(
    text: Seq<char>,
    first: Result<Vec<PluginSection>, ConfigParseError>,
    second: Result<Vec<PluginSection>, ConfigParseError>,
)
    requires
        reads_as(text, first),
        reads_as(text, second),
    ensures
        match (first, second) {
            (Ok(a), Ok(b)) => a.deep_view() == b.deep_view(),
            (Err(a), Err(b)) => a == b,
            _ => false,
        },
{
}

/// Reads a configuration.
///
/// The result is the configuration that the text stands for. A text that is
/// not in the language gives [`ConfigParseError::PestError`] with the first
/// position at which it leaves the language; no text gives
/// [`ConfigParseError::UnexpectedStructure`]. The empty text, and one of
/// white space alone, is the configuration without sections.
pub fn parse_logstash_config(input: &str) -> (result: Result<
    Vec<PluginSection>,
    ConfigParseError,
>)
    ensures
        reads_as(input@, result),
        result matches Ok(parsed) ==> parsed.len() == config_of(input@)->Ok_0.len(),
        input@.len() == 0 ==> (result matches Ok(parsed) && parsed.len() == 0),
{
    let mut sections: Vec<PluginSection> = Vec::new();
    if input.is_empty() {
        return Ok(sections);
    }
    let chars = characters(input);
    let mut next: usize = 0;
    assert(prefixed(sections.deep_view(), sections_at(input@, 0)) == sections_at(input@, 0));
    loop
        invariant
            chars@ == input@,
            next <= chars.len(),
            sections_at(input@, 0) == prefixed(
                sections.deep_view(),
                sections_at(input@, next as int),
            ),
        decreases chars.len() - next,
    {
        let k = scan(&chars, next, Class::Space);
        if k >= chars.len() {
            return Ok(sections);
        }
        match parse_plugin_section(input, &chars, k) {
            Ok((section, after)) => {
                let ghost taken = sections.deep_view();
                proof {
                    lemma_section_at(input@, k as int);
                    if let Ok((rest, _)) = sections_at(input@, after as int) {
                        assert(taken + (seq![section@] + rest) =~= taken.push(section@) + rest);
                    }
                }
                sections.push(section);
                assert(sections.deep_view() =~= taken.push(section@));
                next = after;
            },
            Err(diagnostic) => {
                return Err(ConfigParseError::PestError(diagnostic));
            },
        }
    }
}

} // verus!
