//! The value model of a parsed configuration.

use vstd::prelude::*;

pub mod language;
pub mod rendering;
pub mod syntax;

verus! {

/// The position of a plugin in the pipeline.
#[derive(Debug, PartialEq, Eq, Clone, Copy, Structural)]
pub enum PluginType {
    Input,
    Filter,
    Output,
}

/// The value of one attribute. Every form keeps the text as it was written:
/// a number is not converted, and a regular expression keeps its delimiters.
#[derive(Debug, PartialEq)]
#[non_exhaustive]
pub enum AttributeValue {
    String(String),
    Regexp(String),
    Number(String),
}

/// What an [`AttributeValue`] is in contracts.
pub enum AttributeValueView {
    String(Seq<char>),
    Regexp(Seq<char>),
    Number(Seq<char>),
}

impl AttributeValueView {
    /// The text that the value holds, whatever its form.
    pub open spec fn text(self) -> Seq<char> {
        match self {
            AttributeValueView::String(t) => t,
            AttributeValueView::Regexp(t) => t,
            AttributeValueView::Number(t) => t,
        }
    }
}

impl View for AttributeValue {
    type V = AttributeValueView;

    open spec fn view(&self) -> AttributeValueView {
        match self {
            AttributeValue::String(t) => AttributeValueView::String(t@),
            AttributeValue::Regexp(t) => AttributeValueView::Regexp(t@),
            AttributeValue::Number(t) => AttributeValueView::Number(t@),
        }
    }
}

impl DeepView for AttributeValue {
    type V = AttributeValueView;

    open spec fn deep_view(&self) -> AttributeValueView {
        self@
    }
}

impl AttributeValue {
    /// The text of the value.
    pub fn to_string(&self) -> (text: String)
        ensures
            text@ == self@.text(),
    {
        match self {
            AttributeValue::Number(string)
            | AttributeValue::Regexp(string)
            | AttributeValue::String(string) => string.clone(),
        }
    }
}

/// One attribute binding in contracts: its name and its value.
pub type Binding = (Seq<char>, AttributeValueView);

/// Whether no name is bound twice.
pub open spec fn names_distinct(bindings: Seq<Binding>) -> bool {
    forall|i: int, j: int| 0 <= i < j < bindings.len() ==> bindings[i].0 != bindings[j].0
}

/// The position of the first binding of `name`, if there is one.
pub open spec fn position_of(bindings: Seq<Binding>, name: Seq<char>) -> Option<int>
    decreases bindings.len(),
{
    if bindings.len() == 0 {
        None
    } else {
        match position_of(bindings.drop_last(), name) {
            Some(i) => Some(i),
            None => if bindings.last().0 == name {
                Some(bindings.len() - 1)
            } else {
                None
            },
        }
    }
}

/// The value that `name` is bound to, if it is bound.
pub open spec fn value_of(bindings: Seq<Binding>, name: Seq<char>) -> Option<AttributeValueView> {
    match position_of(bindings, name) {
        Some(i) => Some(bindings[i].1),
        None => None,
    }
}

/// `bindings` with `name` bound to `value`: in place where the name is bound
/// already, at the end where it is new.
pub open spec fn bind(bindings: Seq<Binding>, name: Seq<char>, value: AttributeValueView) -> Seq<
    Binding,
> {
    match position_of(bindings, name) {
        Some(i) => bindings.update(i, (name, value)),
        None => bindings.push((name, value)),
    }
}

/// The mapping that a list of written attributes stands for: each name once,
/// in the order of first appearance, with the value that was written last.
pub open spec fn bind_all(written: Seq<Binding>) -> Seq<Binding>
    decreases written.len(),
{
    if written.len() == 0 {
        Seq::empty()
    } else {
        bind(bind_all(written.drop_last()), written.last().0, written.last().1)
    }
}

/// The value that was written last for `name`, if any was.
pub open spec fn last_written(written: Seq<Binding>, name: Seq<char>) -> Option<
    AttributeValueView,
>
    decreases written.len(),
{
    if written.len() == 0 {
        None
    } else if written.last().0 == name {
        Some(written.last().1)
    } else {
        last_written(written.drop_last(), name)
    }
}

/// `position_of` finds the first binding of the name, and none only where
/// the name is not bound.
pub proof fn lemma_position_of(bindings: Seq<Binding>, name: Seq<char>)
    ensures
        match position_of(bindings, name) {
            Some(i) => {
                &&& 0 <= i < bindings.len()
                &&& bindings[i].0 == name
                &&& forall|j: int| 0 <= j < i ==> (#[trigger] bindings[j]).0 != name
            },
            None => forall|j: int| 0 <= j < bindings.len() ==> (#[trigger] bindings[j]).0 != name,
        },
    decreases bindings.len(),
{
    if bindings.len() > 0 {
        let before = bindings.drop_last();
        lemma_position_of(before, name);
        assert forall|j: int| 0 <= j < before.len() implies #[trigger] bindings[j] == before[j] by {}
    }
}

/// Binding a name keeps every name bound once, gives the name its new value
/// and leaves the other names as they were.
pub proof fn lemma_bind(bindings: Seq<Binding>, name: Seq<char>, value: AttributeValueView)
    requires
        names_distinct(bindings),
    ensures
        names_distinct(bind(bindings, name, value)),
        value_of(bind(bindings, name, value), name) == Some(value),
        forall|other: Seq<char>|
            other != name ==> #[trigger] value_of(bind(bindings, name, value), other) == value_of(
                bindings,
                other,
            ),
{
    let bound = bind(bindings, name, value);
    lemma_position_of(bindings, name);
    lemma_position_of(bound, name);
    assert forall|other: Seq<char>| other != name implies #[trigger] value_of(bound, other)
        == value_of(bindings, other) by {
        lemma_position_of(bindings, other);
        lemma_position_of(bound, other);
        if let Some(i) = position_of(bindings, other) {
            assert(bound[i].0 == other);
        }
    }
    if let Some(i) = position_of(bindings, name) {
        assert(bound[i].0 == name);
    }
}

/// In the mapping that written attributes stand for, every name is bound
/// once, and to the value that was written for it last.
pub proof fn lemma_bind_all(written: Seq<Binding>)
    ensures
        names_distinct(bind_all(written)),
        forall|name: Seq<char>| #[trigger]
            value_of(bind_all(written), name) == last_written(written, name),
    decreases written.len(),
{
    if written.len() > 0 {
        let before = written.drop_last();
        lemma_bind_all(before);
        lemma_bind(bind_all(before), written.last().0, written.last().1);
    }
}

/// Attributes that are written with each name once stand for themselves.
pub proof fn lemma_bind_all_distinct(written: Seq<Binding>)
    requires
        names_distinct(written),
    ensures
        bind_all(written) == written,
    decreases written.len(),
{
    if written.len() > 0 {
        let before = written.drop_last();
        lemma_bind_all_distinct(before);
        lemma_position_of(before, written.last().0);
        assert(before.push(written.last()) =~= written);
    }
}

/// A configured plugin: its name and its attributes.
///
/// The attributes form a mapping, kept as a list of bindings. The parser
/// binds no name twice and keeps the names in the order in which they first
/// appeared. Where a list made otherwise binds a name twice, the first
/// binding counts.
#[derive(Debug, PartialEq)]
pub struct Plugin {
    pub name: String,
    pub attributes: Vec<(String, AttributeValue)>,
}

/// What a [`Plugin`] is in contracts.
pub struct PluginView {
    pub name: Seq<char>,
    pub attributes: Seq<Binding>,
}

impl View for Plugin {
    type V = PluginView;

    open spec fn view(&self) -> PluginView {
        PluginView { name: self.name@, attributes: self.attributes.deep_view() }
    }
}

impl DeepView for Plugin {
    type V = PluginView;

    open spec fn deep_view(&self) -> PluginView {
        self@
    }
}

/// The position at which `name` is bound in `attributes`, if it is bound.
pub fn find(attributes: &Vec<(String, AttributeValue)>, name: &String) -> (found: Option<usize>)
    ensures
        match found {
            Some(i) => i < attributes.len() && position_of(attributes.deep_view(), name@) == Some(
                i as int,
            ),
            None => position_of(attributes.deep_view(), name@) is None,
        },
{
    let ghost bindings = attributes.deep_view();
    let mut i: usize = 0;
    while i < attributes.len()
        invariant
            i <= attributes.len(),
            bindings == attributes.deep_view(),
            forall|j: int| 0 <= j < i ==> (#[trigger] bindings[j]).0 != name@,
        decreases attributes.len() - i,
    {
        if attributes[i].0 == *name {
            proof {
                assert(bindings[i as int].0 == name@);
                lemma_position_of(bindings, name@);
            }
            return Some(i);
        }
        i = i + 1;
    }
    proof {
        lemma_position_of(bindings, name@);
    }
    None
}

/// Binds `name` to `value` in `attributes`. A name that is bound already
/// keeps its place and takes the new value.
pub fn bind_attribute(
    attributes: &mut Vec<(String, AttributeValue)>,
    name: String,
    value: AttributeValue,
)
    ensures
        final(attributes).deep_view() == bind(old(attributes).deep_view(), name@, value@),
{
    let ghost before = attributes.deep_view();
    proof {
        lemma_position_of(before, name@);
    }
    match find(attributes, &name) {
        Some(i) => {
            attributes.set(i, (name, value));
        },
        None => {
            attributes.push((name, value));
        },
    }
}

/// The plugins configured for one stage, in the order of the text.
#[derive(Debug, PartialEq)]
pub struct PluginSection {
    pub plugin_type: PluginType,
    pub plugins: Vec<Plugin>,
}

/// What a [`PluginSection`] is in contracts.
pub struct PluginSectionView {
    pub plugin_type: PluginType,
    pub plugins: Seq<PluginView>,
}

impl View for PluginSection {
    type V = PluginSectionView;

    open spec fn view(&self) -> PluginSectionView {
        PluginSectionView { plugin_type: self.plugin_type, plugins: self.plugins.deep_view() }
    }
}

impl DeepView for PluginSection {
    type V = PluginSectionView;

    open spec fn deep_view(&self) -> PluginSectionView {
        self@
    }
}

/// The attributes that every input plugin understands.
#[derive(Debug, PartialEq)]
#[non_exhaustive]
pub enum InputConfigOption {
    /// Overrides the identifier of the plugin instance.
    Name,
}

impl InputConfigOption {
    /// The attribute name as it is written in a configuration.
    pub open spec fn key(self) -> Seq<char> {
        match self {
            InputConfigOption::Name => "name"@,
        }
    }

    /// The attribute name as it is written in a configuration.
    pub fn to_string(&self) -> (text: String)
        ensures
            text@ == self.key(),
    {
        match self {
            InputConfigOption::Name => String::from_str("name"),
        }
    }
}

} // verus!
