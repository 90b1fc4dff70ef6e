//! The configuration language, stated as functions on the characters of a
//! text.
//!
//! A configuration is a sequence of sections. A section is a stage keyword
//! (`input`, `filter` or `output`) and, between braces, a sequence of plugins.
//! A plugin is a name and, between braces, a sequence of attributes. An
//! attribute is a name, `=>` and a value. Spaces, tabs and line ends may stand
//! between any two of these tokens and are never required.
//!
//! A name is a letter or `_` followed by letters, digits and `_`. A value is
//! one of
//! - a string: `"`, any characters but `"`, and `"`; no escape is known, and
//!   the value is what stands between the quotes;
//! - a regular expression: `/`, any characters but `/`, and `/`; the value
//!   keeps both delimiters;
//! - a number: an optional `+` or `-`, digits, and optionally `.` and digits;
//!   the value is the text of the number;
//! - a bare word: a name, which is a string value.
//!
//! Every token is the longest that its rule allows. Each rule is a function
//! from a text and a position to an [`Outcome`]: what was read and where the
//! next token starts, or the [`Fault`] at which the text leaves the language.

use vstd::prelude::*;

use crate::config::{
    bind_all, lemma_bind_all, names_distinct, AttributeValueView, Binding, PluginSectionView,
    PluginType, PluginView,
};

verus! {

/// The sets of characters that tokens are made of.
#[derive(Debug, PartialEq, Eq, Clone, Copy, Structural)]
pub enum Class {
    /// Space, tab, line feed and carriage return.
    Space,
    /// The ten decimal digits.
    Digit,
    /// ASCII letters, digits and `_`.
    Word,
    /// Every character but `"`.
    NotQuote,
    /// Every character but `/`.
    NotSlash,
}

pub open spec fn is_space(c: char) -> bool {
    c == ' ' || c == '\t' || c == '\n' || c == '\r'
}

pub open spec fn is_digit(c: char) -> bool {
    '0' <= c <= '9'
}

pub open spec fn is_letter(c: char) -> bool {
    'a' <= c <= 'z' || 'A' <= c <= 'Z' || c == '_'
}

impl Class {
    /// Whether `c` belongs to the class.
    pub open spec fn has(self, c: char) -> bool {
        match self {
            Class::Space => is_space(c),
            Class::Digit => is_digit(c),
            Class::Word => is_letter(c) || is_digit(c),
            Class::NotQuote => c != '"',
            Class::NotSlash => c != '/',
        }
    }
}

/// What the language allows at a position where the text has something else.
#[derive(Debug, PartialEq, Eq, Clone, Copy, Structural)]
pub enum Expected {
    /// A stage keyword, or the end of the text.
    Stage,
    /// `{`.
    OpenBrace,
    /// The name of a plugin, or `}`.
    PluginOrClose,
    /// The name of an attribute, or `}`.
    AttributeOrClose,
    /// `=>`.
    Arrow,
    /// A string, a regular expression, a number or a bare word.
    Value,
    /// The `"` that ends a string.
    ClosingQuote,
    /// The `/` that ends a regular expression.
    ClosingSlash,
    /// A digit.
    Digit,
}

impl Expected {
    /// What is expected, in words.
    pub open spec fn description(self) -> Seq<char> {
        match self {
            Expected::Stage => "a stage keyword or the end of the text"@,
            Expected::OpenBrace => "an opening brace"@,
            Expected::PluginOrClose => "a plugin name or a closing brace"@,
            Expected::AttributeOrClose => "an attribute name or a closing brace"@,
            Expected::Arrow => "an arrow"@,
            Expected::Value => "a value"@,
            Expected::ClosingQuote => "a closing quote"@,
            Expected::ClosingSlash => "a closing slash"@,
            Expected::Digit => "a digit"@,
        }
    }

    /// What is expected, in words.
    pub fn describe(&self) -> (text: &'static str)
        ensures
            text@ == self.description(),
    {
        match self {
            Expected::Stage => "a stage keyword or the end of the text",
            Expected::OpenBrace => "an opening brace",
            Expected::PluginOrClose => "a plugin name or a closing brace",
            Expected::AttributeOrClose => "an attribute name or a closing brace",
            Expected::Arrow => "an arrow",
            Expected::Value => "a value",
            Expected::ClosingQuote => "a closing quote",
            Expected::ClosingSlash => "a closing slash",
            Expected::Digit => "a digit",
        }
    }
}

/// The first position at which a text leaves the language, counted in
/// characters from the start, and what the language allows there.
pub struct Fault {
    pub position: int,
    pub expected: Expected,
}

/// What a rule reads at a position: a value and the position after it, or
/// the fault.
pub type Outcome<T> = Result<(T, int), Fault>;

/// The end of the longest run of characters of `class` that starts at `i`.
pub open spec fn run_end(s: Seq<char>, i: int, class: Class) -> int
    decreases s.len() - i,
{
    if 0 <= i < s.len() && class.has(s[i]) {
        run_end(s, i + 1, class)
    } else {
        i
    }
}

/// The position of the first token at or after `i`.
pub open spec fn skip_spaces(s: Seq<char>, i: int) -> int {
    run_end(s, i, Class::Space)
}

/// Whether the character at `i` exists and is `c`.
pub open spec fn at(s: Seq<char>, i: int, c: char) -> bool {
    0 <= i < s.len() && s[i] == c
}

/// Whether the character at `i` exists and can start a name.
pub open spec fn name_starts(s: Seq<char>, i: int) -> bool {
    0 <= i < s.len() && is_letter(s[i])
}

/// Whether `word` stands in the text at `i`.
pub open spec fn has_word(s: Seq<char>, i: int, word: Seq<char>) -> bool {
    0 <= i && i + word.len() <= s.len() && s.subrange(i, i + word.len()) == word
}

/// The end of the number that starts at `i`, where a sign or a digit stands.
pub open spec fn number_end(s: Seq<char>, i: int) -> Result<int, Fault> {
    let first = if at(s, i, '+') || at(s, i, '-') {
        i + 1
    } else {
        i
    };
    let whole = run_end(s, first, Class::Digit);
    if whole == first {
        Err(Fault { position: first, expected: Expected::Digit })
    } else if at(s, whole, '.') && 0 <= whole + 1 < s.len() && is_digit(s[whole + 1]) {
        Ok(run_end(s, whole + 1, Class::Digit))
    } else {
        Ok(whole)
    }
}

/// The value that starts at `i`.
pub open spec fn value_at(s: Seq<char>, i: int) -> Outcome<AttributeValueView> {
    if at(s, i, '"') {
        let close = run_end(s, i + 1, Class::NotQuote);
        if close < s.len() {
            Ok((AttributeValueView::String(s.subrange(i + 1, close)), close + 1))
        } else {
            Err(Fault { position: close, expected: Expected::ClosingQuote })
        }
    } else if at(s, i, '/') {
        let close = run_end(s, i + 1, Class::NotSlash);
        if close < s.len() {
            Ok((AttributeValueView::Regexp(s.subrange(i, close + 1)), close + 1))
        } else {
            Err(Fault { position: close, expected: Expected::ClosingSlash })
        }
    } else if at(s, i, '+') || at(s, i, '-') || (0 <= i < s.len() && is_digit(s[i])) {
        match number_end(s, i) {
            Ok(end) => Ok((AttributeValueView::Number(s.subrange(i, end)), end)),
            Err(fault) => Err(fault),
        }
    } else if name_starts(s, i) {
        let end = run_end(s, i, Class::Word);
        Ok((AttributeValueView::String(s.subrange(i, end)), end))
    } else {
        Err(Fault { position: i, expected: Expected::Value })
    }
}

/// The attribute whose name starts at `i`.
pub open spec fn attribute_at(s: Seq<char>, i: int) -> Outcome<Binding> {
    let name_end = run_end(s, i, Class::Word);
    let arrow = skip_spaces(s, name_end);
    if at(s, arrow, '=') && at(s, arrow + 1, '>') {
        match value_at(s, skip_spaces(s, arrow + 2)) {
            Ok((value, next)) => Ok(((s.subrange(i, name_end), value), next)),
            Err(fault) => Err(fault),
        }
    } else {
        Err(Fault { position: arrow, expected: Expected::Arrow })
    }
}

/// The attributes from `i` up to the `}` that ends them, as they are written.
pub open spec fn attributes_at(s: Seq<char>, i: int) -> Outcome<Seq<Binding>>
    decreases s.len() - i,
    via attributes_at_terminates
{
    let k = skip_spaces(s, i);
    if at(s, k, '}') {
        Ok((Seq::empty(), k + 1))
    } else if name_starts(s, k) {
        match attribute_at(s, k) {
            Ok((binding, next)) => {
                match attributes_at(s, next) {
                    Ok((rest, end)) => Ok((seq![binding] + rest, end)),
                    Err(fault) => Err(fault),
                }
            },
            Err(fault) => Err(fault),
        }
    } else {
        Err(Fault { position: k, expected: Expected::AttributeOrClose })
    }
}

/// The plugin whose name starts at `i`.
pub open spec fn plugin_at(s: Seq<char>, i: int) -> Outcome<PluginView> {
    let name_end = run_end(s, i, Class::Word);
    let brace = skip_spaces(s, name_end);
    if at(s, brace, '{') {
        match attributes_at(s, brace + 1) {
            Ok((written, next)) => Ok(
                (PluginView { name: s.subrange(i, name_end), attributes: bind_all(written) }, next),
            ),
            Err(fault) => Err(fault),
        }
    } else {
        Err(Fault { position: brace, expected: Expected::OpenBrace })
    }
}

/// The plugins from `i` up to the `}` that ends them.
pub open spec fn plugins_at(s: Seq<char>, i: int) -> Outcome<Seq<PluginView>>
    decreases s.len() - i,
    via plugins_at_terminates
{
    let k = skip_spaces(s, i);
    if at(s, k, '}') {
        Ok((Seq::empty(), k + 1))
    } else if name_starts(s, k) {
        match plugin_at(s, k) {
            Ok((plugin, next)) => {
                match plugins_at(s, next) {
                    Ok((rest, end)) => Ok((seq![plugin] + rest, end)),
                    Err(fault) => Err(fault),
                }
            },
            Err(fault) => Err(fault),
        }
    } else {
        Err(Fault { position: k, expected: Expected::PluginOrClose })
    }
}

/// The keyword that opens the sections of a stage.
pub open spec fn keyword(plugin_type: PluginType) -> Seq<char> {
    match plugin_type {
        PluginType::Input => "input"@,
        PluginType::Filter => "filter"@,
        PluginType::Output => "output"@,
    }
}

/// The stage whose keyword stands at `i`, and the position after the keyword.
pub open spec fn stage_at(s: Seq<char>, i: int) -> Option<(PluginType, int)> {
    if has_word(s, i, keyword(PluginType::Input)) {
        Some((PluginType::Input, i + keyword(PluginType::Input).len()))
    } else if has_word(s, i, keyword(PluginType::Filter)) {
        Some((PluginType::Filter, i + keyword(PluginType::Filter).len()))
    } else if has_word(s, i, keyword(PluginType::Output)) {
        Some((PluginType::Output, i + keyword(PluginType::Output).len()))
    } else {
        None
    }
}

/// `outcome` with `prefix` put before the list that it holds.
pub open spec fn prefixed<T>(prefix: Seq<T>, outcome: Outcome<Seq<T>>) -> Outcome<Seq<T>> {
    match outcome {
        Ok((rest, end)) => Ok((prefix + rest, end)),
        Err(fault) => Err(fault),
    }
}

/// The section that starts at `i`.
pub open spec fn section_at(s: Seq<char>, i: int) -> Outcome<PluginSectionView> {
    match stage_at(s, i) {
        Some((plugin_type, end)) => {
            let brace = skip_spaces(s, end);
            if at(s, brace, '{') {
                match plugins_at(s, brace + 1) {
                    Ok((plugins, next)) => Ok((PluginSectionView { plugin_type, plugins }, next)),
                    Err(fault) => Err(fault),
                }
            } else {
                Err(Fault { position: brace, expected: Expected::OpenBrace })
            }
        },
        None => Err(Fault { position: i, expected: Expected::Stage }),
    }
}

/// The sections from `i` up to the end of the text.
pub open spec fn sections_at(s: Seq<char>, i: int) -> Outcome<Seq<PluginSectionView>>
    decreases s.len() - i,
    via sections_at_terminates
{
    let k = skip_spaces(s, i);
    if k >= s.len() {
        Ok((Seq::empty(), k))
    } else {
        match section_at(s, k) {
            Ok((section, next)) => {
                match sections_at(s, next) {
                    Ok((rest, end)) => Ok((seq![section] + rest, end)),
                    Err(fault) => Err(fault),
                }
            },
            Err(fault) => Err(fault),
        }
    }
}

/// The configuration that a text stands for, or the fault in it.
pub open spec fn config_of(s: Seq<char>) -> Result<Seq<PluginSectionView>, Fault> {
    match sections_at(s, 0) {
        Ok((sections, _)) => Ok(sections),
        Err(fault) => Err(fault),
    }
}

/// A run ends at or after its start, inside the text, at the first character
/// outside the class.
pub proof fn lemma_run_end(s: Seq<char>, i: int, class: Class)
    requires
        0 <= i <= s.len(),
    ensures
        i <= run_end(s, i, class) <= s.len(),
        forall|k: int| i <= k < run_end(s, i, class) ==> class.has(#[trigger] s[k]),
        run_end(s, i, class) < s.len() ==> !class.has(s[run_end(s, i, class)]),
    decreases s.len() - i,
{
    if i < s.len() && class.has(s[i]) {
        lemma_run_end(s, i + 1, class);
    }
}

/// A value ends after its start and inside the text; a fault in it lies at
/// or after its start and inside the text or at its end.
pub proof fn lemma_value_at(s: Seq<char>, i: int)
    requires
        0 <= i <= s.len(),
    ensures
        value_at(s, i) matches Ok((_, next)) ==> i < next <= s.len(),
        value_at(s, i) matches Err(fault) ==> i <= fault.position <= s.len(),
{
    if i < s.len() {
        lemma_run_end(s, i + 1, Class::NotQuote);
        lemma_run_end(s, i + 1, Class::NotSlash);
        lemma_run_end(s, i + 1, Class::Digit);
        lemma_run_end(s, i, Class::Digit);
        lemma_run_end(s, i, Class::Word);
        let first = if at(s, i, '+') || at(s, i, '-') {
            i + 1
        } else {
            i
        };
        let whole = run_end(s, first, Class::Digit);
        if whole < s.len() {
            lemma_run_end(s, whole + 1, Class::Digit);
        }
    }
}

/// An attribute ends after its start and inside the text.
pub proof fn lemma_attribute_at(s: Seq<char>, i: int)
    requires
        name_starts(s, i),
    ensures
        attribute_at(s, i) matches Ok((_, next)) ==> i < next <= s.len(),
        attribute_at(s, i) matches Err(fault) ==> i <= fault.position <= s.len(),
{
    lemma_run_end(s, i, Class::Word);
    let name_end = run_end(s, i, Class::Word);
    lemma_run_end(s, name_end, Class::Space);
    let arrow = skip_spaces(s, name_end);
    if at(s, arrow, '=') && at(s, arrow + 1, '>') {
        lemma_run_end(s, arrow + 2, Class::Space);
        lemma_value_at(s, skip_spaces(s, arrow + 2));
    }
}

#[via_fn]
proof fn attributes_at_terminates(s: Seq<char>, i: int) {
    let k = skip_spaces(s, i);
    if name_starts(s, k) {
        if 0 <= i <= s.len() {
            lemma_run_end(s, i, Class::Space);
        }
        lemma_attribute_at(s, k);
    }
}

/// A list of attributes ends after its start and inside the text.
pub proof fn lemma_attributes_at(s: Seq<char>, i: int)
    requires
        0 <= i <= s.len(),
    ensures
        attributes_at(s, i) matches Ok((_, next)) ==> i < next <= s.len(),
        attributes_at(s, i) matches Err(fault) ==> i <= fault.position <= s.len(),
    decreases s.len() - i,
{
    lemma_run_end(s, i, Class::Space);
    let k = skip_spaces(s, i);
    if name_starts(s, k) {
        lemma_attribute_at(s, k);
        if let Ok((_, next)) = attribute_at(s, k) {
            lemma_attributes_at(s, next);
        }
    }
}

/// A plugin ends after its start and inside the text.
pub proof fn lemma_plugin_at(s: Seq<char>, i: int)
    requires
        name_starts(s, i),
    ensures
        plugin_at(s, i) matches Ok((_, next)) ==> i < next <= s.len(),
        plugin_at(s, i) matches Err(fault) ==> i <= fault.position <= s.len(),
{
    lemma_run_end(s, i, Class::Word);
    let name_end = run_end(s, i, Class::Word);
    lemma_run_end(s, name_end, Class::Space);
    let brace = skip_spaces(s, name_end);
    if at(s, brace, '{') {
        lemma_attributes_at(s, brace + 1);
    }
}

#[via_fn]
proof fn plugins_at_terminates(s: Seq<char>, i: int) {
    let k = skip_spaces(s, i);
    if name_starts(s, k) {
        if 0 <= i <= s.len() {
            lemma_run_end(s, i, Class::Space);
        }
        lemma_plugin_at(s, k);
    }
}

/// A list of plugins ends after its start and inside the text.
pub proof fn lemma_plugins_at(s: Seq<char>, i: int)
    requires
        0 <= i <= s.len(),
    ensures
        plugins_at(s, i) matches Ok((_, next)) ==> i < next <= s.len(),
        plugins_at(s, i) matches Err(fault) ==> i <= fault.position <= s.len(),
    decreases s.len() - i,
{
    lemma_run_end(s, i, Class::Space);
    let k = skip_spaces(s, i);
    if name_starts(s, k) {
        lemma_plugin_at(s, k);
        if let Ok((_, next)) = plugin_at(s, k) {
            lemma_plugins_at(s, next);
        }
    }
}

/// A section ends after its start and inside the text.
pub proof fn lemma_section_at(s: Seq<char>, i: int)
    requires
        0 <= i <= s.len(),
    ensures
        section_at(s, i) matches Ok((_, next)) ==> i < next <= s.len(),
        section_at(s, i) matches Err(fault) ==> i <= fault.position <= s.len(),
{
    reveal_strlit("input");
    reveal_strlit("filter");
    reveal_strlit("output");
    if let Some((_, end)) = stage_at(s, i) {
        lemma_run_end(s, end, Class::Space);
        let brace = skip_spaces(s, end);
        if at(s, brace, '{') {
            lemma_plugins_at(s, brace + 1);
        }
    }
}

#[via_fn]
proof fn sections_at_terminates(s: Seq<char>, i: int) {
    let k = skip_spaces(s, i);
    if k < s.len() {
        if 0 <= i <= s.len() {
            lemma_run_end(s, i, Class::Space);
            lemma_section_at(s, k);
        }
    }
}

/// A list of sections ends inside the text, and a fault in it lies inside
/// the text or at its end.
pub proof fn lemma_sections_at(s: Seq<char>, i: int)
    requires
        0 <= i <= s.len(),
    ensures
        sections_at(s, i) matches Ok((_, next)) ==> i <= next <= s.len(),
        sections_at(s, i) matches Err(fault) ==> i <= fault.position <= s.len(),
    decreases s.len() - i,
{
    lemma_run_end(s, i, Class::Space);
    let k = skip_spaces(s, i);
    if k < s.len() {
        lemma_section_at(s, k);
        if let Ok((_, next)) = section_at(s, k) {
            lemma_sections_at(s, next);
        }
    }
}

/// The fault of a text that is no configuration lies inside the text or at
/// its end.
pub proof fn lemma_fault_in_text(s: Seq<char>)
    ensures
        config_of(s) matches Err(fault) ==> 0 <= fault.position <= s.len(),
{
    lemma_sections_at(s, 0);
}

/// A run that stops at `j` ends at `j`.
pub proof fn lemma_run_end_is(s: Seq<char>, i: int, j: int, class: Class)
    requires
        0 <= i <= j <= s.len(),
        forall|k: int| i <= k < j ==> class.has(#[trigger] s[k]),
        j < s.len() ==> !class.has(s[j]),
    ensures
        run_end(s, i, class) == j,
    decreases j - i,
{
    if i < j {
        lemma_run_end_is(s, i + 1, j, class);
    }
}

/// The text without characters is the configuration without sections.
pub proof fn lemma_empty_text()
    ensures
        config_of(Seq::<char>::empty()) == Ok::<Seq<PluginSectionView>, Fault>(Seq::empty()),
{
}

/// A text of white space alone is the configuration without sections.
pub proof fn lemma_blank_text(s: Seq<char>)
    requires
        forall|k: int| 0 <= k < s.len() ==> is_space(#[trigger] s[k]),
    ensures
        config_of(s) == Ok::<Seq<PluginSectionView>, Fault>(Seq::empty()),
{
    lemma_run_end_is(s, 0, s.len() as int, Class::Space);
}

/// Whether `word` is a name: a letter or `_`, then letters, digits and `_`.
pub open spec fn is_name(word: Seq<char>) -> bool {
    &&& word.len() > 0
    &&& is_letter(word[0])
    &&& forall|k: int| 0 <= k < word.len() ==> Class::Word.has(#[trigger] word[k])
}

/// `content` between double quotes.
pub open spec fn quoted(content: Seq<char>) -> Seq<char> {
    seq!['"'] + content + seq!['"']
}

/// A quoted string is a string value that holds what stands between the
/// quotes.
pub proof fn lemma_quoted_value(content: Seq<char>)
    requires
        forall|k: int| 0 <= k < content.len() ==> #[trigger] content[k] != '"',
    ensures
        value_at(quoted(content), 0) == Ok::<(AttributeValueView, int), Fault>(
            (AttributeValueView::String(content), (content.len() + 2) as int),
        ),
{
    let s = quoted(content);
    lemma_run_end_is(s, 1, (content.len() + 1) as int, Class::NotQuote);
    assert(s.subrange(1, (content.len() + 1) as int) =~= content);
}

/// A bare word is a string value that holds the word.
pub proof fn lemma_bare_value(word: Seq<char>)
    requires
        is_name(word),
    ensures
        value_at(word, 0) == Ok::<(AttributeValueView, int), Fault>(
            (AttributeValueView::String(word), word.len() as int),
        ),
{
    lemma_run_end_is(word, 0, word.len() as int, Class::Word);
    assert(word.subrange(0, word.len() as int) =~= word);
}

/// Written between quotes or bare, a name is the same string value.
pub proof fn lemma_quoted_and_bare_agree(word: Seq<char>)
    requires
        is_name(word),
    ensures
        value_at(quoted(word), 0) matches Ok((quoted_value, _)) && value_at(word, 0) matches Ok(
            (bare_value, _),
        ) && quoted_value == bare_value && bare_value == AttributeValueView::String(word),
{
    lemma_quoted_value(word);
    lemma_bare_value(word);
}

/// Whether every plugin of every section binds each attribute name once.
pub open spec fn names_bound_once(sections: Seq<PluginSectionView>) -> bool {
    forall|i: int, j: int|
        0 <= i < sections.len() && 0 <= j < sections[i].plugins.len() ==> names_distinct(
            #[trigger] sections[i].plugins[j].attributes,
        )
}

proof fn lemma_plugins_bind_once(s: Seq<char>, i: int)
    requires
        0 <= i <= s.len(),
    ensures
        plugins_at(s, i) matches Ok((plugins, _)) ==> forall|j: int|
            0 <= j < plugins.len() ==> names_distinct(#[trigger] plugins[j].attributes),
    decreases s.len() - i,
{
    lemma_run_end(s, i, Class::Space);
    let k = skip_spaces(s, i);
    if name_starts(s, k) {
        lemma_plugin_at(s, k);
        if let Ok((plugin, next)) = plugin_at(s, k) {
            lemma_plugins_bind_once(s, next);
            lemma_run_end(s, k, Class::Word);
            let brace = skip_spaces(s, run_end(s, k, Class::Word));
            if let Ok((written, _)) = attributes_at(s, brace + 1) {
                lemma_bind_all(written);
            }
            if let Ok((rest, _)) = plugins_at(s, next) {
                let plugins = seq![plugin] + rest;
                assert forall|j: int| 1 <= j < plugins.len() implies plugins[j] == rest[j - 1] by {}
            }
        }
    }
}

proof fn lemma_sections_bind_once(s: Seq<char>, i: int)
    requires
        0 <= i <= s.len(),
    ensures
        sections_at(s, i) matches Ok((sections, _)) ==> names_bound_once(sections),
    decreases s.len() - i,
{
    lemma_run_end(s, i, Class::Space);
    let k = skip_spaces(s, i);
    if k < s.len() {
        lemma_section_at(s, k);
        if let Ok((section, next)) = section_at(s, k) {
            lemma_sections_bind_once(s, next);
            if let Some((_, end)) = stage_at(s, k) {
                reveal_strlit("input");
                reveal_strlit("filter");
                reveal_strlit("output");
                lemma_run_end(s, end, Class::Space);
                lemma_plugins_bind_once(s, skip_spaces(s, end) + 1);
            }
            if let Ok((rest, _)) = sections_at(s, next) {
                let sections = seq![section] + rest;
                assert forall|j: int| 1 <= j < sections.len() implies sections[j] == rest[j - 1] by {}
            }
        }
    }
}

/// In a configuration, every plugin binds each of its attribute names once.
pub proof fn lemma_names_bound_once(s: Seq<char>)
    ensures
        config_of(s) matches Ok(sections) ==> names_bound_once(sections),
{
    lemma_sections_bind_once(s, 0);
}

} // verus!
