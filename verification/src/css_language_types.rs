//! The data the server knows about CSS properties, at-rules, pseudo-classes and
//! values, the settings and capabilities of the language service, and the contexts
//! handed to completion participants.
use crate::ext::Position;
use std::collections::HashMap;
use vstd::prelude::*;

verus! {

/// A range of a text document; the library only carries it through.
#[verifier::external_type_specification]
#[verifier::external_body]
pub struct ExLspRange(lsp_types::Range);

/// Which parts of a hover text to show.
#[derive(Debug, Clone, Copy, Default)]
pub struct HoverSettings {
    pub documentation: bool,
    pub references: bool,
}

/// How far an entry is standardized.
#[derive(Debug, Clone, Copy, PartialEq, Eq, Structural)]
pub enum EntryStatus {
    Standard,
    Experimental,
    NonStandard,
    Obsolete,
}

/// A link to documentation.
#[derive(Debug, Clone)]
pub struct Reference {
    pub name: String,
    pub url: String,
}

/// The format of a text.
#[derive(Debug, Clone, Copy, PartialEq, Eq, Structural)]
pub enum MarkupKind {
    PlainText,
    Markdown,
}

/// A text with its format.
#[derive(Debug, Clone)]
pub struct MarkupContent {
    pub kind: MarkupKind,
    pub value: String,
}

/// A description: plain text, or text with a format.
#[derive(Debug, Clone)]
pub enum Content {
    String(String),
    Markup(MarkupContent),
}

impl Content {
    /// The text of the description.
    pub open spec fn spec_value(self) -> Seq<char> {
        match self {
            Content::String(s) => s@,
            Content::Markup(mc) => mc.value@,
        }
    }

    /// The text of the description.
    pub fn value(&self) -> (r: &str)
        ensures
            r@ == self.spec_value(),
    {
        match self {
            Content::String(s) => s.as_str(),
            Content::Markup(mc) => mc.value.as_str(),
        }
    }
}

/// What is known of a property.
#[derive(Debug, Clone)]
pub struct PropertyData {
    pub name: String,
    pub description: Option<Content>,
    pub browsers: Option<Vec<String>>,
    pub restrictions: Option<Vec<String>>,
    pub status: Option<EntryStatus>,
    pub syntax: Option<String>,
    pub values: Vec<ValueData>,
    pub references: Option<Vec<Reference>>,
    pub relevance: i64,
    pub at_rule: Option<String>,
}

/// What is known of an at-rule (and of a pseudo-class, a pseudo-element or a value).
#[derive(Debug, Clone)]
pub struct AtDirectiveData {
    pub name: String,
    pub description: Option<Content>,
    pub browsers: Option<Vec<String>>,
    pub status: Option<EntryStatus>,
    pub references: Option<Vec<Reference>>,
}

/// An at-rule as the data files write it: its description is plain text.
#[derive(Debug, Clone)]
pub struct AtDirectiveDataSource {
    pub name: String,
    pub description: Option<String>,
    pub browsers: Option<Vec<String>>,
    pub status: Option<EntryStatus>,
    pub references: Option<Vec<Reference>>,
}

/// A property as the data files write it: its description is plain text.
#[derive(Debug, Clone)]
pub struct PropertyDataSource {
    pub name: String,
    pub description: Option<String>,
    pub browsers: Option<Vec<String>>,
    pub restrictions: Option<Vec<String>>,
    pub status: Option<EntryStatus>,
    pub syntax: Option<String>,
    pub values: Vec<AtDirectiveDataSource>,
    pub references: Option<Vec<Reference>>,
    pub relevance: i64,
    pub at_rule: Option<String>,
}

/// A plain-text description as a description.
pub open spec fn described(d: Option<String>) -> Option<Content> {
    match d {
        Some(s) => Some(Content::String(s)),
        None => None,
    }
}

/// An at-rule entry read from a data file, with its description as plain text.
pub open spec fn at_directive_from_source(value: AtDirectiveDataSource) -> AtDirectiveData {
    AtDirectiveData {
        name: value.name,
        description: described(value.description),
        browsers: value.browsers,
        status: value.status,
        references: value.references,
    }
}

impl From<AtDirectiveDataSource> for AtDirectiveData {
    /// The same entry, with its description as plain text.
    fn from(value: AtDirectiveDataSource) -> (r: Self) {
        AtDirectiveData {
            name: value.name,
            description: match value.description {
                Some(s) => Some(Content::String(s)),
                None => None,
            },
            browsers: value.browsers,
            status: value.status,
            references: value.references,
        }
    }
}

impl vstd::std_specs::convert::FromSpecImpl<AtDirectiveDataSource> for AtDirectiveData {
    open spec fn obeys_from_spec() -> bool {
        true
    }

    open spec fn from_spec(value: AtDirectiveDataSource) -> AtDirectiveData {
        at_directive_from_source(value)
    }
}

impl PropertyData {
    /// The same entry, with its description and those of its values as plain text.
    pub fn from_source(value: PropertyDataSource) -> (r: Self)
        ensures
            r.name == value.name,
            r.description == described(value.description),
            r.browsers == value.browsers,
            r.restrictions == value.restrictions,
            r.status == value.status,
            r.syntax == value.syntax,
            r.values@.len() == value.values@.len(),
            forall|i: int|
                0 <= i < value.values@.len() ==> #[trigger] r.values@[i] == at_directive_from_source(
                    value.values@[i],
                ),
            r.references == value.references,
            r.relevance == value.relevance,
            r.at_rule == value.at_rule,
    {
        let PropertyDataSource {
            name,
            description,
            browsers,
            restrictions,
            status,
            syntax,
            values,
            references,
            relevance,
            at_rule,
        } = value;
        let ghost sources = values@;
        let mut converted: Vec<AtDirectiveData> = Vec::new();
        let mut rest = values;
        while rest.len() > 0
            invariant
                converted@.len() + rest@.len() == sources.len(),
                forall|i: int|
                    0 <= i < converted@.len() ==> #[trigger] converted@[i]
                        == at_directive_from_source(sources[i]),
                rest@ == sources.subrange(converted@.len() as int, sources.len() as int),
            decreases rest@.len(),
        {
            let v = rest.remove(0);
            converted.push(AtDirectiveData::from(v));
        }
        PropertyData {
            name,
            description: match description {
                Some(s) => Some(Content::String(s)),
                None => None,
            },
            browsers,
            restrictions,
            status,
            syntax,
            values: converted,
            references,
            relevance,
            at_rule,
        }
    }
}

pub type PseudoClassData = AtDirectiveData;

pub type PseudoElementData = AtDirectiveData;

pub type ValueData = AtDirectiveData;

/// Settings of completion.
#[derive(Debug, Clone, Copy)]
pub struct CompletionSettings {
    pub trigger_property_value_completion: bool,
    pub complete_property_with_semicolon: bool,
}

/// The settings of the language service.
#[derive(Debug)]
pub struct LanguageSettings {
    pub validate: bool,
    pub lint: HashMap<String, String>,
    pub completion: CompletionSettings,
    pub hover: HoverSettings,
    pub alias: HashMap<String, String>,
}

impl Default for LanguageSettings {
    /// Validation, completion and every hover part on; no lint settings or aliases.
    fn default() -> (r: Self)
        ensures
            r.validate,
            r.lint@ == Map::<String, String>::empty(),
            r.completion.trigger_property_value_completion,
            r.completion.complete_property_with_semicolon,
            r.hover.documentation,
            r.hover.references,
            r.alias@ == Map::<String, String>::empty(),
    {
        LanguageSettings {
            validate: true,
            lint: HashMap::new(),
            completion: CompletionSettings {
                trigger_property_value_completion: true,
                complete_property_with_semicolon: true,
            },
            hover: HoverSettings { documentation: true, references: true },
            alias: HashMap::new(),
        }
    }
}

/// The property being completed.
pub struct PropertyCompletionContext {
    property_name: String,
    range: lsp_types::Range,
}

/// The value of a property being completed.
pub struct PropertyValueCompletionContext {
    property_name: String,
    property_value: String,
    range: lsp_types::Range,
}

/// The URI literal being completed.
pub struct URILiteralCompletionContext {
    uri_value: String,
    position: Position,
    range: lsp_types::Range,
}

/// The import path being completed.
pub struct ImportPathCompletionContext {
    path_value: String,
    position: Position,
    range: lsp_types::Range,
}

/// The mixin reference being completed.
pub struct MixinReferenceCompletionContext {
    mixin_name: String,
    range: lsp_types::Range,
}

/// Takes part in completion: told of each kind of place being completed.
pub trait CompletionParticipant {
    fn on_css_property(context: PropertyCompletionContext) where Self: Sized;

    fn on_css_property_value(context: PropertyValueCompletionContext) where Self: Sized;

    fn on_css_uri_literal_value(context: URILiteralCompletionContext) where Self: Sized;

    fn on_css_import_path(context: ImportPathCompletionContext) where Self: Sized;

    fn on_css_mixin_reference(context: MixinReferenceCompletionContext) where Self: Sized;
}

/// Resolves references made in a document.
pub trait DocumentContext {
    fn resolve_reference(&self, reference: String, base_url: String) -> Option<String>;
}

/// Whether completion items may carry documentation, and in which formats.
pub enum CompletionItemCapability {
    Unsupported,
    Supported(Option<&'static [MarkupKind]>),
}

/// Whether the client completes, and what it supports of completion items.
pub enum CompletionCapability {
    Unsupported,
    Supported(CompletionItemCapability),
}

/// What the client supports.
pub struct ClientCapabilities {
    pub text_document: Option<CompletionCapability>,
    pub hover: Option<&'static [MarkupKind]>,
}

/// The kind of an entry of a file system.
pub enum FileType {
    Unknown,
    File,
    Directory,
    SymbolicLink,
}

/// What a file system says of an entry: its kind, its creation and modification
/// times in milliseconds since the Unix epoch, and its size in bytes.
pub struct FileStat {
    typ: FileType,
    ctime: u64,
    mtime: u64,
    size: u64,
}

/// Where braces go when formatting.
pub enum BraceStyle {
    Collapse,
    Expand,
}

/// Settings of the formatter.
pub struct CSSFormatConfiguration {
    tab_size: u32,
    insert_spaces: bool,
    insert_final_new_line: bool,
    newline_between_selectors: bool,
    newline_between_rules: bool,
    space_around_selector_seperator: bool,
    brace_style: BraceStyle,
    preserve_new_lines: bool,
    max_preserve_new_lines: u32,
    wrap_line_length: u32,
    indent_empty_lines: bool,
}

/// The versions of the data format.
#[derive(Debug, Clone, Copy, PartialEq, Eq, Structural)]
pub enum CssDataVersion {
    One,
    OneOne,
}

/// A set of CSS data in the first format.
pub struct CssDataV1 {
    pub version: CssDataVersion,
    pub properties: Vec<PropertyData>,
    pub at_directives: Vec<AtDirectiveData>,
    pub pseudo_classes: Vec<PseudoClassData>,
    pub pseudo_elements: Vec<PseudoElementData>,
}

/// A source of CSS data. Each method hands over the entries of one kind that the source
/// holds, and leaves the entries of the other kinds as they were.
pub trait ProvideCssData {
    /// The properties the source holds.
    spec fn held_properties(&self) -> Seq<PropertyData>;

    /// The at-rules the source holds.
    spec fn held_at_directives(&self) -> Seq<AtDirectiveData>;

    /// The pseudo-classes the source holds.
    spec fn held_pseudo_classes(&self) -> Seq<PseudoClassData>;

    /// The pseudo-elements the source holds.
    spec fn held_pseudo_elements(&self) -> Seq<PseudoElementData>;

    fn provide_properties(&mut self) -> (r: Vec<PropertyData>)
        ensures
            r@ == old(self).held_properties(),
            final(self).held_at_directives() == old(self).held_at_directives(),
            final(self).held_pseudo_classes() == old(self).held_pseudo_classes(),
            final(self).held_pseudo_elements() == old(self).held_pseudo_elements(),
    ;

    fn provide_at_directives(&mut self) -> (r: Vec<AtDirectiveData>)
        ensures
            r@ == old(self).held_at_directives(),
            final(self).held_properties() == old(self).held_properties(),
            final(self).held_pseudo_classes() == old(self).held_pseudo_classes(),
            final(self).held_pseudo_elements() == old(self).held_pseudo_elements(),
    ;

    fn provide_pseudo_classes(&mut self) -> (r: Vec<PseudoClassData>)
        ensures
            r@ == old(self).held_pseudo_classes(),
            final(self).held_properties() == old(self).held_properties(),
            final(self).held_at_directives() == old(self).held_at_directives(),
            final(self).held_pseudo_elements() == old(self).held_pseudo_elements(),
    ;

    fn provide_pseudo_elements(&mut self) -> (r: Vec<PseudoElementData>)
        ensures
            r@ == old(self).held_pseudo_elements(),
            final(self).held_properties() == old(self).held_properties(),
            final(self).held_at_directives() == old(self).held_at_directives(),
            final(self).held_pseudo_classes() == old(self).held_pseudo_classes(),
    ;
}

impl ProvideCssData for CssDataV1 {
    open spec fn held_properties(&self) -> Seq<PropertyData> {
        self.properties@
    }

    open spec fn held_at_directives(&self) -> Seq<AtDirectiveData> {
        self.at_directives@
    }

    open spec fn held_pseudo_classes(&self) -> Seq<PseudoClassData> {
        self.pseudo_classes@
    }

    open spec fn held_pseudo_elements(&self) -> Seq<PseudoElementData> {
        self.pseudo_elements@
    }

    /// Hands over the properties, leaving none.
    fn provide_properties(&mut self) -> (r: Vec<PropertyData>)
        ensures
            r@ == old(self).properties@,
            final(self).properties@.len() == 0,
            final(self).at_directives@ == old(self).at_directives@,
            final(self).pseudo_classes@ == old(self).pseudo_classes@,
            final(self).pseudo_elements@ == old(self).pseudo_elements@,
            final(self).version == old(self).version,
    {
        let mut taken: Vec<PropertyData> = Vec::new();
        std::mem::swap(&mut taken, &mut self.properties);
        taken
    }

    /// Hands over the at-rules, leaving none.
    fn provide_at_directives(&mut self) -> (r: Vec<AtDirectiveData>)
        ensures
            r@ == old(self).at_directives@,
            final(self).at_directives@.len() == 0,
            final(self).properties@ == old(self).properties@,
            final(self).pseudo_classes@ == old(self).pseudo_classes@,
            final(self).pseudo_elements@ == old(self).pseudo_elements@,
            final(self).version == old(self).version,
    {
        let mut taken: Vec<AtDirectiveData> = Vec::new();
        std::mem::swap(&mut taken, &mut self.at_directives);
        taken
    }

    /// Hands over the pseudo-classes, leaving none.
    fn provide_pseudo_classes(&mut self) -> (r: Vec<PseudoClassData>)
        ensures
            r@ == old(self).pseudo_classes@,
            final(self).pseudo_classes@.len() == 0,
            final(self).properties@ == old(self).properties@,
            final(self).at_directives@ == old(self).at_directives@,
            final(self).pseudo_elements@ == old(self).pseudo_elements@,
            final(self).version == old(self).version,
    {
        let mut taken: Vec<PseudoClassData> = Vec::new();
        std::mem::swap(&mut taken, &mut self.pseudo_classes);
        taken
    }

    /// Hands over the pseudo-elements, leaving none.
    fn provide_pseudo_elements(&mut self) -> (r: Vec<PseudoElementData>)
        ensures
            r@ == old(self).pseudo_elements@,
            final(self).pseudo_elements@.len() == 0,
            final(self).properties@ == old(self).properties@,
            final(self).at_directives@ == old(self).at_directives@,
            final(self).pseudo_classes@ == old(self).pseudo_classes@,
            final(self).version == old(self).version,
    {
        let mut taken: Vec<PseudoElementData> = Vec::new();
        std::mem::swap(&mut taken, &mut self.pseudo_elements);
        taken
    }
}

} // verus!
