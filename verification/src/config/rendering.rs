//! Every configuration can be written down, and reading what was written
//! gives the configuration back.
//!
//! The rendering chosen here puts one space between any two tokens and a
//! line end after each section. It writes every string value between quotes.

use vstd::prelude::*;

use crate::config::syntax::{
    at, attribute_at, attributes_at, config_of, has_word, is_name, is_space, keyword,
    lemma_run_end, lemma_run_end_is, name_starts, number_end, plugin_at, plugins_at, quoted,
    run_end, section_at, sections_at, skip_spaces, stage_at, value_at, Class, Fault,
};
use crate::config::{
    lemma_bind_all_distinct, names_distinct, AttributeValueView, Binding, PluginSectionView,
    PluginType, PluginView,
};

verus! {

/// Whether the text of a value can be written in its form: a string
/// without `"`, a regular expression between two `/` and with none between
/// them, a number that is one number as a whole.
pub open spec fn value_writable(value: AttributeValueView) -> bool {
    match value {
        AttributeValueView::String(t) => forall|k: int| 0 <= k < t.len() ==> #[trigger] t[k] != '"',
        AttributeValueView::Regexp(t) => {
            &&& t.len() >= 2
            &&& t[0] == '/'
            &&& t[t.len() - 1] == '/'
            &&& forall|k: int| 1 <= k < t.len() - 1 ==> #[trigger] t[k] != '/'
        },
        AttributeValueView::Number(t) => number_end(t, 0) == Ok::<int, Fault>(t.len() as int),
    }
}

/// Whether a plugin can be written: its name and the names of its
/// attributes are names, its values can be written, and no attribute name
/// occurs twice.
pub open spec fn plugin_writable(plugin: PluginView) -> bool {
    &&& is_name(plugin.name)
    &&& names_distinct(plugin.attributes)
    &&& forall|k: int|
        0 <= k < plugin.attributes.len() ==> is_name((#[trigger] plugin.attributes[k]).0)
            && value_writable(plugin.attributes[k].1)
}

/// Whether every plugin of every section can be written.
pub open spec fn writable(sections: Seq<PluginSectionView>) -> bool {
    forall|i: int, j: int|
        0 <= i < sections.len() && 0 <= j < sections[i].plugins.len() ==> plugin_writable(
            #[trigger] sections[i].plugins[j],
        )
}

/// The text of a value: a string between quotes, a regular expression and
/// a number as they are.
pub open spec fn render_value(value: AttributeValueView) -> Seq<char> {
    match value {
        AttributeValueView::String(t) => quoted(t),
        AttributeValueView::Regexp(t) => t,
        AttributeValueView::Number(t) => t,
    }
}

/// The text of an attribute: its name, ` => ` and its value.
pub open spec fn render_attribute(binding: Binding) -> Seq<char> {
    binding.0 + seq![' ', '=', '>', ' '] + render_value(binding.1)
}

/// The text of attributes: each after a space.
pub open spec fn render_attributes(bindings: Seq<Binding>) -> Seq<char>
    decreases bindings.len(),
{
    if bindings.len() == 0 {
        Seq::empty()
    } else {
        seq![' '] + render_attribute(bindings.first()) + render_attributes(bindings.drop_first())
    }
}

/// The text of a plugin: its name and, between braces, its attributes.
pub open spec fn render_plugin(plugin: PluginView) -> Seq<char> {
    plugin.name + seq![' ', '{'] + render_attributes(plugin.attributes) + seq![' ', '}']
}

/// The text of plugins: each after a space.
pub open spec fn render_plugins(plugins: Seq<PluginView>) -> Seq<char>
    decreases plugins.len(),
{
    if plugins.len() == 0 {
        Seq::empty()
    } else {
        seq![' '] + render_plugin(plugins.first()) + render_plugins(plugins.drop_first())
    }
}

/// The text of a section: the keyword of its stage and, between braces, its
/// plugins.
pub open spec fn render_section(section: PluginSectionView) -> Seq<char> {
    keyword(section.plugin_type) + seq![' ', '{'] + render_plugins(section.plugins) + seq![
        ' ',
        '}',
    ]
}

/// The text of a configuration: each section, and a line end after it.
pub open spec fn render(sections: Seq<PluginSectionView>) -> Seq<char>
    decreases sections.len(),
{
    if sections.len() == 0 {
        Seq::empty()
    } else {
        render_section(sections.first()) + seq!['\n'] + render(sections.drop_first())
    }
}

/// A text that holds two words one after the other holds each of them.
proof fn lemma_has_words(s: Seq<char>, i: int, first: Seq<char>, second: Seq<char>)
    requires
        has_word(s, i, first + second),
    ensures
        has_word(s, i, first),
        has_word(s, i + first.len(), second),
{
    let both = first + second;
    assert(s.subrange(i, i + first.len()) =~= both.subrange(0, first.len() as int));
    assert(both.subrange(0, first.len() as int) =~= first);
    assert(s.subrange(i + first.len(), i + first.len() + second.len()) =~= both.subrange(
        first.len() as int,
        both.len() as int,
    ));
    assert(both.subrange(first.len() as int, both.len() as int) =~= second);
}

/// A text that holds a word holds each of its characters.
proof fn lemma_has_chars(s: Seq<char>, i: int, word: Seq<char>)
    requires
        has_word(s, i, word),
    ensures
        forall|k: int| 0 <= k < word.len() ==> s[i + k] == #[trigger] word[k],
{
    assert forall|k: int| 0 <= k < word.len() implies s[i + k] == #[trigger] word[k] by {}
}

/// A run inside a word of the text ends where it ends in the word alone,
/// unless it reaches the end of the word and the text goes on with the class.
proof fn lemma_run_in_word(s: Seq<char>, i: int, word: Seq<char>, j: int, class: Class)
    requires
        has_word(s, i, word),
        0 <= j <= word.len(),
        run_end(word, j, class) < word.len() || i + word.len() == s.len() || !class.has(
            s[i + word.len()],
        ),
    ensures
        run_end(s, i + j, class) == i + run_end(word, j, class),
    decreases word.len() - j,
{
    lemma_has_chars(s, i, word);
    if j < word.len() && class.has(word[j]) {
        lemma_run_in_word(s, i, word, j + 1, class);
    }
}

/// A name that stands in the text before a character that no name holds is
/// read as a whole.
proof fn lemma_name_in_text(s: Seq<char>, i: int, name: Seq<char>)
    requires
        is_name(name),
        has_word(s, i, name),
        i + name.len() < s.len(),
        !Class::Word.has(s[i + name.len()]),
    ensures
        name_starts(s, i),
        !is_space(s[i]),
        run_end(s, i, Class::Word) == i + name.len(),
        s.subrange(i, i + name.len()) == name,
{
    lemma_has_chars(s, i, name);
    assert forall|k: int| i <= k < i + name.len() implies Class::Word.has(#[trigger] s[k]) by {
        assert(s[i + (k - i)] == name[k - i]);
    }
    lemma_run_end_is(s, i, i + name.len(), Class::Word);
}

/// One space before a token is skipped, and nothing is skipped at a token.
proof fn lemma_skip(s: Seq<char>, i: int)
    requires
        0 <= i < s.len(),
    ensures
        !is_space(s[i]) ==> skip_spaces(s, i) == i,
        s[i] == ' ' && i + 1 < s.len() && !is_space(s[i + 1]) ==> skip_spaces(s, i) == i + 1,
{
    if s[i] == ' ' && i + 1 < s.len() && !is_space(s[i + 1]) {
        lemma_run_end_is(s, i, i + 1, Class::Space);
    }
}

/// A value that stands in the text before a space is read as it was
/// written.
proof fn lemma_value_in_text(s: Seq<char>, i: int, value: AttributeValueView)
    requires
        value_writable(value),
        has_word(s, i, render_value(value)),
        at(s, i + render_value(value).len(), ' '),
    ensures
        value_at(s, i) == Ok::<(AttributeValueView, int), Fault>(
            (value, i + render_value(value).len()),
        ),
        !is_space(s[i]),
{
    let text = render_value(value);
    lemma_has_chars(s, i, text);
    match value {
        AttributeValueView::String(t) => {
            assert forall|k: int| i + 1 <= k < i + 1 + t.len() implies Class::NotQuote.has(
                #[trigger] s[k],
            ) by {
                assert(text[k - i] == t[k - i - 1]);
            }
            assert(s[i + (t.len() + 1)] == text[(t.len() + 1) as int]);
            lemma_run_end_is(s, i + 1, i + 1 + t.len(), Class::NotQuote);
            assert forall|k: int| 0 <= k < t.len() implies s[i + 1 + k] == #[trigger] t[k] by {
                assert(s[i + (k + 1)] == text[k + 1]);
            }
            assert(s.subrange(i + 1, i + 1 + t.len()) =~= t);
        },
        AttributeValueView::Regexp(t) => {
            assert forall|k: int| i + 1 <= k < i + t.len() - 1 implies Class::NotSlash.has(
                #[trigger] s[k],
            ) by {
                assert(s[i + (k - i)] == t[k - i]);
            }
            lemma_run_end_is(s, i + 1, i + t.len() - 1, Class::NotSlash);
        },
        AttributeValueView::Number(t) => {
            let first: int = if at(t, 0, '+') || at(t, 0, '-') {
                1
            } else {
                0
            };
            let whole = run_end(t, first, Class::Digit);
            lemma_run_end(t, first, Class::Digit);
            lemma_run_in_word(s, i, t, first, Class::Digit);
            if whole < t.len() {
                lemma_run_end(t, whole + 1, Class::Digit);
                lemma_run_in_word(s, i, t, whole + 1, Class::Digit);
            }
        },
    }
}

/// An attribute that stands in the text before a space is read as it was
/// written.
proof fn lemma_attribute_in_text(s: Seq<char>, i: int, binding: Binding)
    requires
        is_name(binding.0),
        value_writable(binding.1),
        has_word(s, i, render_attribute(binding)),
        at(s, i + render_attribute(binding).len(), ' '),
    ensures
        attribute_at(s, i) == Ok::<(Binding, int), Fault>(
            (binding, i + render_attribute(binding).len()),
        ),
        name_starts(s, i),
        !is_space(s[i]),
{
    let name = binding.0;
    let arrow = seq![' ', '=', '>', ' '];
    let value = render_value(binding.1);
    lemma_has_words(s, i, name + arrow, value);
    lemma_has_words(s, i, name, arrow);
    lemma_has_chars(s, i + name.len(), arrow);
    let a = i + name.len();
    lemma_name_in_text(s, i, name);
    lemma_skip(s, a);
    lemma_value_in_text(s, a + 4, binding.1);
    lemma_skip(s, a + 3);
}

/// Attributes that stand in the text before ` }` are read as they were
/// written.
proof fn lemma_attributes_in_text(s: Seq<char>, i: int, bindings: Seq<Binding>)
    requires
        forall|k: int|
            0 <= k < bindings.len() ==> is_name((#[trigger] bindings[k]).0) && value_writable(
                bindings[k].1,
            ),
        has_word(s, i, render_attributes(bindings) + seq![' ', '}']),
    ensures
        attributes_at(s, i) == Ok::<(Seq<Binding>, int), Fault>(
            (bindings, i + render_attributes(bindings).len() + 2),
        ),
    decreases bindings.len(),
{
    let close = seq![' ', '}'];
    lemma_has_words(s, i, render_attributes(bindings), close);
    lemma_has_chars(s, i + render_attributes(bindings).len(), close);
    if bindings.len() == 0 {
        lemma_skip(s, i);
        assert(bindings =~= Seq::<Binding>::empty());
    } else {
        let first = bindings.first();
        let rest = bindings.drop_first();
        let written = render_attribute(first);
        assert((seq![' '] + written) + (render_attributes(rest) + close) =~= render_attributes(
            bindings,
        ) + close);
        lemma_has_words(s, i, seq![' '] + written, render_attributes(rest) + close);
        lemma_has_words(s, i, seq![' '], written);
        lemma_has_chars(s, i, seq![' ']);
        assert(s[i + 0] == seq![' '][0]);
        let next = i + 1 + written.len();
        lemma_has_chars(s, next, render_attributes(rest) + close);
        assert(s[next + 0] == (render_attributes(rest) + close)[0]);
        lemma_attribute_in_text(s, i + 1, first);
        lemma_skip(s, i);
        assert forall|k: int| 0 <= k < rest.len() implies is_name((#[trigger] rest[k]).0)
            && value_writable(rest[k].1) by {}
        lemma_attributes_in_text(s, next, rest);
        assert(seq![first] + rest =~= bindings);
    }
}

/// A plugin that stands in the text is read as it was written.
proof fn lemma_plugin_in_text(s: Seq<char>, i: int, plugin: PluginView)
    requires
        plugin_writable(plugin),
        has_word(s, i, render_plugin(plugin)),
    ensures
        plugin_at(s, i) == Ok::<(PluginView, int), Fault>((plugin, i + render_plugin(plugin).len())),
        name_starts(s, i),
        !is_space(s[i]),
{
    let open = seq![' ', '{'];
    let close = seq![' ', '}'];
    let body = render_attributes(plugin.attributes);
    assert(render_plugin(plugin) =~= (plugin.name + open) + (body + close));
    lemma_has_words(s, i, plugin.name + open, body + close);
    lemma_has_words(s, i, plugin.name, open);
    let brace = i + plugin.name.len();
    lemma_has_chars(s, brace, open);
    lemma_name_in_text(s, i, plugin.name);
    lemma_skip(s, brace);
    lemma_attributes_in_text(s, brace + 2, plugin.attributes);
    lemma_bind_all_distinct(plugin.attributes);
}

/// Plugins that stand in the text before ` }` are read as they were written.
proof fn lemma_plugins_in_text(s: Seq<char>, i: int, plugins: Seq<PluginView>)
    requires
        forall|k: int| 0 <= k < plugins.len() ==> plugin_writable(#[trigger] plugins[k]),
        has_word(s, i, render_plugins(plugins) + seq![' ', '}']),
    ensures
        plugins_at(s, i) == Ok::<(Seq<PluginView>, int), Fault>(
            (plugins, i + render_plugins(plugins).len() + 2),
        ),
    decreases plugins.len(),
{
    let close = seq![' ', '}'];
    lemma_has_words(s, i, render_plugins(plugins), close);
    lemma_has_chars(s, i + render_plugins(plugins).len(), close);
    if plugins.len() == 0 {
        lemma_skip(s, i);
        assert(plugins =~= Seq::<PluginView>::empty());
    } else {
        let first = plugins.first();
        let rest = plugins.drop_first();
        let written = render_plugin(first);
        assert((seq![' '] + written) + (render_plugins(rest) + close) =~= render_plugins(plugins)
            + close);
        lemma_has_words(s, i, seq![' '] + written, render_plugins(rest) + close);
        lemma_has_words(s, i, seq![' '], written);
        lemma_has_chars(s, i, seq![' ']);
        assert(s[i + 0] == seq![' '][0]);
        lemma_plugin_in_text(s, i + 1, first);
        lemma_skip(s, i);
        assert forall|k: int| 0 <= k < rest.len() implies plugin_writable(#[trigger] rest[k]) by {}
        lemma_plugins_in_text(s, i + 1 + written.len(), rest);
        assert(seq![first] + rest =~= plugins);
    }
}

/// A section that stands in the text is read as it was written.
proof fn lemma_section_in_text(s: Seq<char>, i: int, section: PluginSectionView)
    requires
        forall|k: int|
            0 <= k < section.plugins.len() ==> plugin_writable(#[trigger] section.plugins[k]),
        has_word(s, i, render_section(section)),
    ensures
        section_at(s, i) == Ok::<(PluginSectionView, int), Fault>(
            (section, i + render_section(section).len()),
        ),
        !is_space(s[i]),
{
    reveal_strlit("input");
    reveal_strlit("filter");
    reveal_strlit("output");
    let word = keyword(section.plugin_type);
    let open = seq![' ', '{'];
    let close = seq![' ', '}'];
    let body = render_plugins(section.plugins);
    assert(render_section(section) =~= (word + open) + (body + close));
    lemma_has_words(s, i, word + open, body + close);
    lemma_has_words(s, i, word, open);
    lemma_has_chars(s, i, word);
    assert(s[i + 0] == word[0]);
    assert(stage_at(s, i) == Some((section.plugin_type, i + word.len()))) by {
        if has_word(s, i, keyword(PluginType::Input)) {
            lemma_has_chars(s, i, keyword(PluginType::Input));
        }
        if has_word(s, i, keyword(PluginType::Filter)) {
            lemma_has_chars(s, i, keyword(PluginType::Filter));
        }
    }
    let brace = i + word.len();
    lemma_has_chars(s, brace, open);
    lemma_skip(s, brace);
    lemma_plugins_in_text(s, brace + 2, section.plugins);
}

/// Sections that make up the rest of the text are read as they were
/// written.
proof fn lemma_sections_in_text(s: Seq<char>, i: int, sections: Seq<PluginSectionView>)
    requires
        writable(sections),
        has_word(s, i, render(sections)),
        i + render(sections).len() == s.len(),
    ensures
        sections_at(s, i) == Ok::<(Seq<PluginSectionView>, int), Fault>(
            (sections, s.len() as int),
        ),
    decreases sections.len(),
{
    if sections.len() == 0 {
        assert(sections =~= Seq::<PluginSectionView>::empty());
    } else {
        let first = sections.first();
        let rest = sections.drop_first();
        let written = render_section(first);
        lemma_has_words(s, i, written + seq!['\n'], render(rest));
        lemma_has_words(s, i, written, seq!['\n']);
        let next = i + written.len();
        lemma_has_chars(s, next, seq!['\n']);
        assert(s[next + 0] == seq!['\n'][0]);
        assert forall|k: int| 0 <= k < first.plugins.len() implies plugin_writable(
            #[trigger] first.plugins[k],
        ) by {}
        lemma_section_in_text(s, i, first);
        lemma_skip(s, i);
        assert(writable(rest)) by {
            assert forall|a: int, b: int|
                0 <= a < rest.len() && 0 <= b < rest[a].plugins.len() implies plugin_writable(
                #[trigger] rest[a].plugins[b],
            ) by {}
        }
        lemma_sections_in_text(s, next + 1, rest);
        assert(sections_at(s, next) == sections_at(s, next + 1));
        assert(seq![first] + rest =~= sections);
    }
}

/// Reading what was written gives back what was written: the text of a
/// configuration is in the language, and stands for that configuration.
pub proof fn lemma_render_then_read(sections: Seq<PluginSectionView>)
    requires
        writable(sections),
    ensures
        config_of(render(sections)) == Ok::<Seq<PluginSectionView>, Fault>(sections),
{
    let text = render(sections);
    assert(text.subrange(0, text.len() as int) =~= text);
    lemma_sections_in_text(text, 0, sections);
}

} // verus!
