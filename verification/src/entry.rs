//! The hover texts of data entries: their parts, and markdown escaping.
use crate::css_language_types::{
    AtDirectiveData, Content, EntryStatus, HoverSettings, MarkupContent, MarkupKind, PropertyData,
    PseudoClassData, PseudoElementData, Reference, ValueData,
};
use crate::text::string_push;
use vstd::prelude::*;
use vstd::string::StringExecFns;

verus! {

/// Text shown to the user: plain markdown, or a code block in a language.
#[derive(Debug, Clone)]
pub enum MarkedString {
    String(String),
    LanguageString { language: String, value: String },
}

/// The characters markdown gives a meaning to, which are escaped with a backslash.
pub open spec fn markdown_special(c: char) -> bool {
    c == '\\' || c == '[' || c == ']' || c == '{' || c == '}' || c == '(' || c == ')' || c == '`'
        || c == '*' || c == '_' || c == '#' || c == '+' || c == '-' || c == '.' || c == '!'
}

/// What one character becomes: `<` and `>` their HTML entities, a markdown
/// special character that character after a backslash, any other itself.
pub open spec fn escaped(c: char) -> Seq<char> {
    if c == '<' {
        seq!['&', 'l', 't', ';']
    } else if c == '>' {
        seq!['&', 'g', 't', ';']
    } else if markdown_special(c) {
        seq!['\\', c]
    } else {
        seq![c]
    }
}

/// The text with every character escaped.
pub open spec fn markify(s: Seq<char>) -> Seq<char>
    decreases s.len(),
{
    if s.len() == 0 {
        Seq::empty()
    } else {
        markify(s.drop_last()) + escaped(s.last())
    }
}

fn push_all(out: &mut String, chars: &[char])
    ensures
        final(out)@ == old(out)@ + chars@,
{
    let mut i: usize = 0;
    while i < chars.len()
        invariant
            i <= chars@.len(),
            out@ == old(out)@ + chars@.take(i as int),
        decreases chars@.len() - i,
    {
        string_push(out, chars[i]);
        assert(chars@.take(i + 1) =~= chars@.take(i as int).push(chars@[i as int]));
        i += 1;
    }
    assert(chars@.take(chars@.len() as int) =~= chars@);
}

/// Escapes the markdown syntax characters of `text` with a backslash, and `<` and
/// `>` as HTML entities.
pub fn markify_string(text: &mut String)
    ensures
        final(text)@ == markify(old(text)@),
{
    let v = crate::text::collect_chars(text.as_str());
    let mut out = String::new();
    let mut i: usize = 0;
    while i < v.len()
        invariant
            i <= v@.len(),
            v@ == old(text)@,
            out@ == markify(v@.take(i as int)),
        decreases v@.len() - i,
    {
        let c = v[i];
        proof {
            assert(v@.take(i + 1).drop_last() =~= v@.take(i as int));
        }
        if c == '<' {
            push_all(&mut out, &['&', 'l', 't', ';']);
        } else if c == '>' {
            push_all(&mut out, &['&', 'g', 't', ';']);
        } else if c == '\\' || c == '[' || c == ']' || c == '{' || c == '}' || c == '(' || c == ')'
            || c == '`' || c == '*' || c == '_' || c == '#' || c == '+' || c == '-' || c == '.' || c == '!' {
            push_all(&mut out, &['\\', c]);
        } else {
            string_push(&mut out, c);
            assert(out@ =~= markify(v@.take(i as int)) + seq![c]);
        }
        i += 1;
    }
    proof {
        assert(v@.take(v@.len() as int) =~= v@);
    }
    *text = out;
}

/// The text, escaped, as markdown to show.
pub fn text_to_marked_string(text: String) -> (r: MarkedString)
    ensures
        r matches MarkedString::String(s) && s@ == markify(text@),
{
    let mut text = text;
    markify_string(&mut text);
    MarkedString::String(text)
}

/// The text, escaped.
pub fn text_to_marked_string_inner(text: String) -> (r: String)
    ensures
        r@ == markify(text@),
{
    let mut text = text;
    markify_string(&mut text);
    text
}

/// Escaping leaves no `<` or `>` in the text, so none of it can be read as HTML.
pub proof fn lemma_markify_no_angle_brackets(s: Seq<char>)
    ensures
        !markify(s).contains('<'),
        !markify(s).contains('>'),
    decreases s.len(),
{
    if s.len() > 0 {
        lemma_markify_no_angle_brackets(s.drop_last());
        let a = markify(s.drop_last());
        let b = escaped(s.last());
        assert forall|j: int| 0 <= j < (a + b).len() implies (a + b)[j] != '<' && (a + b)[j] != '>' by {
            if j < a.len() {
                assert(a[j] == (a + b)[j]);
                assert(!a.contains('<') && !a.contains('>'));
                if a[j] == '<' {
                    assert(a.contains('<'));
                }
                if a[j] == '>' {
                    assert(a.contains('>'));
                }
            }
        }
    }
}

/// Escaping is done character by character: the escape of a concatenation is the
/// concatenation of the escapes.
pub proof fn lemma_markify_concat(a: Seq<char>, b: Seq<char>)
    ensures
        markify(a + b) == markify(a) + markify(b),
    decreases b.len(),
{
    if b.len() == 0 {
        assert(a + b =~= a);
        assert(markify(a) + markify(b) =~= markify(a));
    } else {
        lemma_markify_concat(a, b.drop_last());
        assert((a + b).drop_last() =~= a + b.drop_last());
        assert(markify(a) + (markify(b.drop_last()) + escaped(b.last())) =~= (markify(a)
            + markify(b.drop_last())) + escaped(b.last()));
    }
}

/// Short names of browsers in the data, with their full names.
pub const BROWSER_NAMES: [(&'static str, &'static str); 6] = [
    ("E", "Edge"),
    ("FF", "Firefox"),
    ("S", "Safari"),
    ("C", "Chrome"),
    ("IE", "IE"),
    ("O", "Opera"),
];

/// The full name of the browser whose short name is `short`, looking from entry `i` on.
pub open spec fn full_name_from(short: Seq<char>, i: int) -> Option<Seq<char>>
    decreases BROWSER_NAMES@.len() - i,
{
    if i < 0 || i >= BROWSER_NAMES@.len() {
        None
    } else if BROWSER_NAMES@[i].0@ == short {
        Some(BROWSER_NAMES@[i].1@)
    } else {
        full_name_from(short, i + 1)
    }
}

/// The first browser mention in a browser entry such as `FF49`: its name (a run
/// of capitals) and, when digits follow, its version.
pub uninterp spec fn browser_mention(b: Seq<char>) -> Option<(Seq<char>, Option<Seq<char>>)>;

/// A mention with its texts.
pub open spec fn mention_view(r: Option<(String, Option<String>)>) -> Option<(Seq<char>, Option<Seq<char>>)> {
    match r {
        None => None,
        Some((n, v)) => Some(
            (
                n@,
                match v {
                    Some(x) => Some(x@),
                    None => None,
                },
            ),
        ),
    }
}

/// An ASCII capital letter.
pub open spec fn is_capital(c: char) -> bool {
    'A' <= c <= 'Z'
}

/// `i` is the first capital of `b`, and the run of capitals from it ends at `j`.
pub open spec fn capital_run(b: Seq<char>, i: int, j: int) -> bool {
    &&& 0 <= i < j <= b.len()
    &&& forall|k: int| 0 <= k < i ==> !is_capital(#[trigger] b[k])
    &&& forall|k: int| i <= k < j ==> is_capital(#[trigger] b[k])
    &&& (j == b.len() || !is_capital(b[j]))
}

/// `Regex::captures_iter` with the pattern `(?<name>[A-Z]+)(?<version>\d+)?`:
/// the first match in `b`, with its `name` group and its `version` group when
/// that group took part in the match. Stated: there is a match exactly when `b` has a
/// capital; the name is the run of capitals from the first one; the version, when
/// there is one, is a non-empty text that follows the name directly, and there is one
/// whenever an ASCII digit follows it. Which other characters count as digits (the
/// Unicode class `\d`), and so where the version ends, is left to the name.
#[verifier::external_body]
fn first_browser_mention(b: &str) -> (r: Option<(String, Option<String>)>)
    ensures
        mention_view(r) == browser_mention(b@),
        r is None <==> forall|k: int| 0 <= k < b@.len() ==> !is_capital(#[trigger] b@[k]),
        r matches Some((n, v)) ==> exists|i: int, j: int| {
            &&& #[trigger] capital_run(b@, i, j)
            &&& n@ == b@.subrange(i, j)
            &&& match v {
                Some(x) => x@.len() > 0 && j + x@.len() <= b@.len() && x@ == b@.subrange(j, j + x@.len()),
                None => !(j < b@.len() && '0' <= b@[j] <= '9'),
            }
        },
{
    let reg = regex::Regex::new(r"(?<name>[A-Z]+)(?<version>\d+)?").unwrap();
    let caps = reg.captures_iter(b).next()?;
    Some((caps["name"].to_owned(), caps.name("version").map(|m| m.as_str().to_owned())))
}

/// The label of one browser entry: the browser's full name, when it is known,
/// then a space and the version, when there is one.
pub open spec fn browser_part(b: Seq<char>) -> Seq<char> {
    match browser_mention(b) {
        None => Seq::empty(),
        Some((name, version)) => {
            let n = match full_name_from(name, 0) {
                Some(f) => f,
                None => Seq::empty(),
            };
            n + match version {
                Some(v) => " "@ + v,
                None => Seq::empty(),
            }
        },
    }
}

/// The parts joined, with `sep` between each two.
pub open spec fn joined(parts: Seq<Seq<char>>, sep: Seq<char>) -> Seq<char>
    decreases parts.len(),
{
    if parts.len() == 0 {
        Seq::empty()
    } else if parts.len() == 1 {
        parts[0]
    } else {
        joined(parts.drop_last(), sep) + sep + parts.last()
    }
}

/// The label of a list of browser entries; none for an empty list.
pub open spec fn browser_label(bs: Seq<Seq<char>>) -> Option<Seq<char>> {
    if bs.len() == 0 {
        None
    } else {
        Some(joined(bs.map_values(|b: Seq<char>| browser_part(b)), ", "@))
    }
}

fn str_eq(a: &str, b: &str) -> (r: bool)
    ensures
        r == (a@ == b@),
{
    let va = crate::text::collect_chars(a);
    let vb = crate::text::collect_chars(b);
    let r = crate::text::eq_chars(&va, vb.as_slice());
    r
}

fn browser_full_name(short: &str) -> (r: Option<&'static str>)
    ensures
        match r {
            Some(f) => full_name_from(short@, 0) == Some(f@),
            None => full_name_from(short@, 0) is None,
        },
{
    let mut i: usize = 0;
    while i < BROWSER_NAMES.len()
        invariant
            i <= BROWSER_NAMES@.len(),
            full_name_from(short@, 0) == full_name_from(short@, i as int),
        decreases BROWSER_NAMES@.len() - i,
    {
        let (s, f) = BROWSER_NAMES[i];
        if str_eq(s, short) {
            return Some(f);
        }
        i += 1;
    }
    None
}

fn browser_label_part(b: &str) -> (r: String)
    ensures
        r@ == browser_part(b@),
{
    let mut result = String::new();
    match first_browser_mention(b) {
        None => {},
        Some((name, version)) => {
            if let Some(full) = browser_full_name(name.as_str()) {
                result.append(full);
            }
            if let Some(v) = version {
                result.append(" ");
                result.append(v.as_str());
            }
        },
    }
    proof {
        assert(result@ =~= browser_part(b@));
    }
    result
}

/// Input is like `["E12","FF49","C47","IE","O"]`,
/// output is like `Edge 12, Firefox 49, Chrome 47, IE, Opera`.
pub fn get_browser_label(browsers: &Vec<String>) -> (r: Option<String>)
    ensures
        match r {
            Some(s) => browser_label(browsers@.map_values(|b: String| b@)) == Some(s@),
            None => browser_label(browsers@.map_values(|b: String| b@)) is None,
        },
{
    let ghost bs = browsers@.map_values(|b: String| b@);
    let ghost parts = bs.map_values(|b: Seq<char>| browser_part(b));
    if browsers.len() == 0 {
        return None;
    }
    let mut result = String::new();
    let mut i: usize = 0;
    while i < browsers.len()
        invariant
            i <= browsers@.len(),
            bs == browsers@.map_values(|b: String| b@),
            parts == bs.map_values(|b: Seq<char>| browser_part(b)),
            result@ == joined(parts.take(i as int), ", "@),
        decreases browsers@.len() - i,
    {
        let part = browser_label_part(browsers[i].as_str());
        proof {
            assert(parts[i as int] == browser_part(browsers@[i as int]@));
            assert(parts.take(i + 1).drop_last() =~= parts.take(i as int));
        }
        let ghost before = result@;
        if i > 0 {
            result.append(", ");
        }
        result.append(part.as_str());
        proof {
            if i == 0 {
                assert(result@ =~= part@);
            } else {
                assert(result@ =~= before + ", "@ + part@);
            }
        }
        i += 1;
    }
    proof {
        assert(parts.take(browsers@.len() as int) =~= parts);
    }
    Some(result)
}

/// An entry of the data: a property, an at-rule, a pseudo-class, a pseudo-element
/// or a value.
#[derive(Clone, Copy)]
pub enum IEntry2<'a> {
    Prop(&'a PropertyData),
    AtDir(&'a AtDirectiveData),
    PseuClass(&'a PseudoClassData),
    PseuEle(&'a PseudoElementData),
    Value(&'a ValueData),
}

impl<'a> IEntry2<'a> {
    pub open spec fn spec_description(self) -> Option<Content> {
        match self {
            IEntry2::Prop(p) => p.description,
            IEntry2::AtDir(a) => a.description,
            IEntry2::PseuClass(a) => a.description,
            IEntry2::PseuEle(a) => a.description,
            IEntry2::Value(a) => a.description,
        }
    }

    pub open spec fn spec_status(self) -> Option<EntryStatus> {
        match self {
            IEntry2::Prop(p) => p.status,
            IEntry2::AtDir(a) => a.status,
            IEntry2::PseuClass(a) => a.status,
            IEntry2::PseuEle(a) => a.status,
            IEntry2::Value(a) => a.status,
        }
    }

    pub open spec fn spec_browsers(self) -> Option<Vec<String>> {
        match self {
            IEntry2::Prop(p) => p.browsers,
            IEntry2::AtDir(a) => a.browsers,
            IEntry2::PseuClass(a) => a.browsers,
            IEntry2::PseuEle(a) => a.browsers,
            IEntry2::Value(a) => a.browsers,
        }
    }

    pub open spec fn spec_syntax(self) -> Option<String> {
        match self {
            IEntry2::Prop(p) => p.syntax,
            _ => None,
        }
    }

    pub open spec fn spec_references(self) -> Option<Vec<Reference>> {
        match self {
            IEntry2::Prop(p) => p.references,
            IEntry2::AtDir(a) => a.references,
            IEntry2::PseuClass(a) => a.references,
            IEntry2::PseuEle(a) => a.references,
            IEntry2::Value(a) => a.references,
        }
    }

    pub fn description(&self) -> (r: &'a Option<Content>)
        ensures
            *r == self.spec_description(),
    {
        match *self {
            IEntry2::Prop(p) => &p.description,
            IEntry2::AtDir(a) => &a.description,
            IEntry2::PseuClass(a) => &a.description,
            IEntry2::PseuEle(a) => &a.description,
            IEntry2::Value(a) => &a.description,
        }
    }

    pub fn status(&self) -> (r: &'a Option<EntryStatus>)
        ensures
            *r == self.spec_status(),
    {
        match *self {
            IEntry2::Prop(p) => &p.status,
            IEntry2::AtDir(a) => &a.status,
            IEntry2::PseuClass(a) => &a.status,
            IEntry2::PseuEle(a) => &a.status,
            IEntry2::Value(a) => &a.status,
        }
    }

    pub fn browsers(&self) -> (r: &'a Option<Vec<String>>)
        ensures
            *r == self.spec_browsers(),
    {
        match *self {
            IEntry2::Prop(p) => &p.browsers,
            IEntry2::AtDir(a) => &a.browsers,
            IEntry2::PseuClass(a) => &a.browsers,
            IEntry2::PseuEle(a) => &a.browsers,
            IEntry2::Value(a) => &a.browsers,
        }
    }

    pub fn syntax(&self) -> (r: Option<&'a String>)
        ensures
            match r {
                Some(s) => self.spec_syntax() == Some(*s),
                None => self.spec_syntax() is None,
            },
    {
        match *self {
            IEntry2::Prop(p) => p.syntax.as_ref(),
            _ => None,
        }
    }

    pub fn references(&self) -> (r: &'a Option<Vec<Reference>>)
        ensures
            *r == self.spec_references(),
    {
        match *self {
            IEntry2::Prop(p) => &p.references,
            IEntry2::AtDir(a) => &a.references,
            IEntry2::PseuClass(a) => &a.references,
            IEntry2::PseuEle(a) => &a.references,
            IEntry2::Value(a) => &a.references,
        }
    }
}

/// The warning put before the description of an entry of status `status`.
pub open spec fn status_text(status: EntryStatus) -> Seq<char> {
    match status {
        EntryStatus::Experimental => "Property is experimental. Be cautious when using it.\u{FE0F}\n\n'"@,
        EntryStatus::NonStandard => "Property is nonstandard. Avoid using it.\n\n"@,
        EntryStatus::Obsolete => "Property is obsolete. Avoid using it.\n\n"@,
        EntryStatus::Standard => ""@,
    }
}

pub fn get_entry_status(status: EntryStatus) -> (r: &'static str)
    ensures
        r@ == status_text(status),
{
    match status {
        EntryStatus::Experimental => "Property is experimental. Be cautious when using it.\u{FE0F}\n\n'",
        EntryStatus::NonStandard => "Property is nonstandard. Avoid using it.\n\n",
        EntryStatus::Obsolete => "Property is obsolete. Avoid using it.\n\n",
        EntryStatus::Standard => "",
    }
}

/// The browser entries of an entry; none when it lists none.
pub open spec fn browsers_of(e: IEntry2) -> Seq<Seq<char>> {
    match e.spec_browsers() {
        Some(v) => v@.map_values(|b: String| b@),
        None => Seq::empty(),
    }
}

/// The references of an entry; none when it lists none.
pub open spec fn references_of(e: IEntry2) -> Seq<Reference> {
    match e.spec_references() {
        Some(v) => v@,
        None => Seq::empty(),
    }
}

/// A reference as plain text: `name: url`.
pub open spec fn plain_reference(r: Reference) -> Seq<char> {
    r.name@ + ": "@ + r.url@
}

/// A reference as a markdown link: `[name](url)`.
pub open spec fn markdown_reference(r: Reference) -> Seq<char> {
    "["@ + r.name@ + "]("@ + r.url@ + ")"@
}

/// The references, one after the other, separated by ` | `.
pub open spec fn references_text(rs: Seq<Reference>, markdown: bool) -> Seq<char> {
    if markdown {
        joined(rs.map_values(|r: Reference| markdown_reference(r)), " | "@)
    } else {
        joined(rs.map_values(|r: Reference| plain_reference(r)), " | "@)
    }
}

/// `doc` followed by the references, when there are some and they are asked for,
/// after a blank line when `doc` is not empty.
pub open spec fn with_references(doc: Seq<char>, rs: Seq<Reference>, wanted: bool, markdown: bool) -> Seq<char> {
    if rs.len() > 0 && wanted {
        (if doc.len() > 0 {
            doc + "\n\n"@
        } else {
            doc
        }) + references_text(rs, markdown)
    } else {
        doc
    }
}

/// The status warning of an entry, if it has a status.
pub open spec fn status_prefix(e: IEntry2) -> Seq<char> {
    match e.spec_status() {
        Some(s) => status_text(s),
        None => Seq::empty(),
    }
}

/// The plain-text hover text of an entry.
pub open spec fn string_description(e: IEntry2, settings: Option<HoverSettings>) -> Seq<char> {
    match e.spec_description() {
        None => Seq::empty(),
        Some(desc) => if desc.spec_value().len() == 0 {
            Seq::empty()
        } else if !(desc is String) {
            desc.spec_value()
        } else {
            match settings {
                None => Seq::empty(),
                Some(s) => {
                    let doc = if s.documentation {
                        status_prefix(e) + desc.spec_value() + match browser_label(browsers_of(e)) {
                            Some(l) => "\n("@ + l + ")"@,
                            None => Seq::empty(),
                        } + match e.spec_syntax() {
                            Some(x) => "\n\nSyntax: "@ + x@,
                            None => Seq::empty(),
                        }
                    } else {
                        Seq::empty()
                    };
                    with_references(doc, references_of(e), s.references, false)
                },
            }
        },
    }
}

/// The description as markdown: plain text escaped, markdown as it is.
pub open spec fn markdown_body(desc: Content) -> Seq<char> {
    match desc {
        Content::String(x) => markify(x@),
        Content::Markup(mc) => if mc.kind == MarkupKind::Markdown {
            mc.value@
        } else {
            markify(mc.value@)
        },
    }
}

/// The documentation part of the markdown hover text: status, description,
/// browsers, syntax.
pub open spec fn markdown_documentation(e: IEntry2, desc: Content) -> Seq<char> {
    status_prefix(e) + markdown_body(desc) + match browser_label(browsers_of(e)) {
        Some(l) => "\n\n("@ + markify(l) + ")"@,
        None => Seq::empty(),
    } + match e.spec_syntax() {
        Some(x) => "\n\nSyntax: "@ + markify(x@),
        None => Seq::empty(),
    }
}

/// The markdown hover text of an entry.
pub open spec fn markdown_description(e: IEntry2, settings: Option<HoverSettings>) -> Seq<char> {
    match e.spec_description() {
        None => Seq::empty(),
        Some(desc) => if desc.spec_value().len() == 0 {
            Seq::empty()
        } else {
            match settings {
                None => Seq::empty(),
                Some(s) => {
                    let doc = if s.documentation {
                        markdown_documentation(e, desc)
                    } else {
                        Seq::empty()
                    };
                    with_references(doc, references_of(e), s.references, true)
                },
            }
        },
    }
}

fn append_references(result: &mut String, refs: &Vec<Reference>, markdown: bool)
    ensures
        final(result)@ == old(result)@ + references_text(refs@, markdown),
{
    let ghost parts = if markdown {
        refs@.map_values(|r: Reference| markdown_reference(r))
    } else {
        refs@.map_values(|r: Reference| plain_reference(r))
    };
    let mut i: usize = 0;
    while i < refs.len()
        invariant
            i <= refs@.len(),
            parts == if markdown {
                refs@.map_values(|r: Reference| markdown_reference(r))
            } else {
                refs@.map_values(|r: Reference| plain_reference(r))
            },
            result@ == old(result)@ + joined(parts.take(i as int), " | "@),
        decreases refs@.len() - i,
    {
        let ghost before = result@;
        if i > 0 {
            result.append(" | ");
        }
        let r = &refs[i];
        if markdown {
            result.append("[");
            result.append(r.name.as_str());
            result.append("](");
            result.append(r.url.as_str());
            result.append(")");
        } else {
            result.append(r.name.as_str());
            result.append(": ");
            result.append(r.url.as_str());
        }
        proof {
            assert(parts.take(i + 1).drop_last() =~= parts.take(i as int));
            let p = parts[i as int];
            if i == 0 {
                assert(result@ =~= old(result)@ + p);
                assert(joined(parts.take(1), " | "@) =~= p);
            } else {
                assert(result@ =~= before + " | "@ + p);
            }
        }
        i += 1;
    }
    proof {
        assert(parts.take(refs@.len() as int) =~= parts);
    }
}

fn append_with_references(result: &mut String, entry: IEntry2, wanted: bool, markdown: bool)
    ensures
        final(result)@ == with_references(old(result)@, references_of(entry), wanted, markdown),
{
    if let Some(refs) = entry.references() {
        if refs.len() > 0 && wanted {
            if !result.as_str().is_empty() {
                result.append("\n\n");
            }
            append_references(result, refs, markdown);
        }
    }
}

fn get_entry_string_description(entry: IEntry2, settings: &Option<HoverSettings>) -> (r: String)
    ensures
        r@ == string_description(entry, *settings),
{
    let desc = match entry.description() {
        Some(d) => d,
        None => {
            return String::new();
        },
    };
    if desc.value().is_empty() {
        return String::new();
    }
    if let Content::Markup(_) = desc {
        return desc.value().to_owned();
    }
    let mut result = String::new();
    if let Some(settings) = settings {
        if settings.documentation {
            if let Some(status) = entry.status() {
                result.append(get_entry_status(*status));
            }
            result.append(desc.value());
            let no_browsers: Vec<String> = Vec::new();
            let browsers = match entry.browsers() {
                Some(b) => b,
                None => &no_browsers,
            };
            if let Some(browser_label) = get_browser_label(browsers) {
                result.append("\n(");
                result.append(browser_label.as_str());
                result.append(")");
            }
            if let Some(syntax) = entry.syntax() {
                result.append("\n\nSyntax: ");
                result.append(syntax.as_str());
            }
            proof {
                assert(browsers@.map_values(|b: String| b@) =~= browsers_of(entry));
            }
        }
        append_with_references(&mut result, entry, settings.references, false);
    }
    result
}

#[verifier::spinoff_prover]
#[verifier::rlimit(60)]
fn markdown_documentation_text(entry: IEntry2, desc: &Content) -> (r: String)
    ensures
        r@ == markdown_documentation(entry, *desc),
{
    let mut result = String::new();
    if let Some(status) = entry.status() {
        result.append(get_entry_status(*status));
    }
    match desc {
        Content::String(s) => {
            let t = text_to_marked_string_inner(s.clone());
            result.append(t.as_str());
        },
        Content::Markup(mc) => {
            match mc.kind {
                MarkupKind::Markdown => result.append(mc.value.as_str()),
                MarkupKind::PlainText => {
                    let t = text_to_marked_string_inner(mc.value.clone());
                    result.append(t.as_str());
                },
            }
        },
    }
    let no_browsers: Vec<String> = Vec::new();
    let browsers = match entry.browsers() {
        Some(b) => b,
        None => &no_browsers,
    };
    if let Some(browser_label) = get_browser_label(browsers) {
        result.append("\n\n(");
        let t = text_to_marked_string_inner(browser_label);
        result.append(t.as_str());
        result.append(")");
    }
    if let Some(syntax) = entry.syntax() {
        result.append("\n\nSyntax: ");
        let t = text_to_marked_string_inner(syntax.clone());
        result.append(t.as_str());
    }
    proof {
        assert(browsers@.map_values(|b: String| b@) =~= browsers_of(entry));
    }
    result
}

fn get_entry_markdown_description(entry: IEntry2, settings: &Option<HoverSettings>) -> (r: String)
    ensures
        r@ == markdown_description(entry, *settings),
{
    let desc = match entry.description() {
        Some(d) => d,
        None => {
            return String::new();
        },
    };
    if desc.value().is_empty() {
        return String::new();
    }
    let mut result = String::new();
    if let Some(settings) = settings {
        if settings.documentation {
            let doc = markdown_documentation_text(entry, desc);
            result.append(doc.as_str());
        }
        append_with_references(&mut result, entry, settings.references, true);
    }
    result
}

/// The hover text of an entry, as markdown when the client shows markdown, else
/// as plain text; none when that text is empty.
pub fn get_entry_description(
    entry: IEntry2,
    does_support_markdown: bool,
    settings: &Option<HoverSettings>,
) -> (r: Option<MarkupContent>)
    ensures
        ({
            let text = if does_support_markdown {
                markdown_description(entry, *settings)
            } else {
                string_description(entry, *settings)
            };
            match r {
                None => text.len() == 0,
                Some(mc) => text.len() > 0 && mc.value@ == text && mc.kind == (if does_support_markdown {
                    MarkupKind::Markdown
                } else {
                    MarkupKind::PlainText
                }),
            }
        }),
{
    let result: MarkupContent = if does_support_markdown {
        MarkupContent {
            kind: MarkupKind::Markdown,
            value: get_entry_markdown_description(entry, settings),
        }
    } else {
        MarkupContent {
            kind: MarkupKind::PlainText,
            value: get_entry_string_description(entry, settings),
        }
    };
    if result.value.as_str().is_empty() {
        return None;
    }
    Some(result)
}


/// References appear in the hover text only when they are asked for: with references
/// turned off, the markdown text is the documentation part alone (nothing when
/// documentation is off too), and so is the plain text of a plain-text description;
/// with them turned on, an entry with a description and references ends its text with
/// them.
pub proof fn law_references_only_when_asked(e: IEntry2, s: HoverSettings)
    ensures
        !s.references ==> markdown_description(e, Some(s)) == match e.spec_description() {
            Some(desc) => if desc.spec_value().len() > 0 && s.documentation {
                markdown_documentation(e, desc)
            } else {
                Seq::empty()
            },
            None => Seq::empty(),
        },
        !s.references && !s.documentation ==> (e.spec_description() matches Some(desc) && desc is String
            ==> string_description(e, Some(s)).len() == 0),
        !s.references && !s.documentation ==> markdown_description(e, Some(s)).len() == 0,
        s.references && references_of(e).len() > 0 ==> (e.spec_description() matches Some(desc)
            && desc.spec_value().len() > 0 ==> ({
            let m = markdown_description(e, Some(s));
            let r = references_text(references_of(e), true);
            r.len() <= m.len() && m.subrange(m.len() - r.len(), m.len() as int) == r
        })),
{
    if s.references && references_of(e).len() > 0 {
        if let Some(desc) = e.spec_description() {
            if desc.spec_value().len() > 0 {
                let doc = if s.documentation {
                    markdown_documentation(e, desc)
                } else {
                    Seq::<char>::empty()
                };
                let head = if doc.len() > 0 {
                    doc + "\n\n"@
                } else {
                    doc
                };
                let r = references_text(references_of(e), true);
                assert((head + r).subrange(head.len() as int, (head + r).len() as int) =~= r);
            }
        }
    }
}


/// Markdown text is made from plain text character by character: `<` and `>` become
/// `&lt;` and `&gt;`; each of the characters markdown gives a meaning to (`\\`,
/// brackets, braces, parentheses, `` ` ``, `*`, `_`, `#`, `+`, `-`, `.`, `!`) gets a
/// backslash before it; letters, digits and spaces stay as they are; and the markdown
/// of two texts one after the other is theirs one after the other.
pub proof fn law_markify(c: char, a: Seq<char>, b: Seq<char>)
    ensures
        c == '<' ==> markify(seq![c]) == seq!['&', 'l', 't', ';'],
        c == '>' ==> markify(seq![c]) == seq!['&', 'g', 't', ';'],
        c == '\\' ==> markify(seq![c]) == seq!['\\', '\\'],
        c == '[' ==> markify(seq![c]) == seq!['\\', '['],
        c == ']' ==> markify(seq![c]) == seq!['\\', ']'],
        c == '{' ==> markify(seq![c]) == seq!['\\', '{'],
        c == '}' ==> markify(seq![c]) == seq!['\\', '}'],
        c == '(' ==> markify(seq![c]) == seq!['\\', '('],
        c == ')' ==> markify(seq![c]) == seq!['\\', ')'],
        c == '`' ==> markify(seq![c]) == seq!['\\', '`'],
        c == '*' ==> markify(seq![c]) == seq!['\\', '*'],
        c == '_' ==> markify(seq![c]) == seq!['\\', '_'],
        c == '#' ==> markify(seq![c]) == seq!['\\', '#'],
        c == '+' ==> markify(seq![c]) == seq!['\\', '+'],
        c == '-' ==> markify(seq![c]) == seq!['\\', '-'],
        c == '.' ==> markify(seq![c]) == seq!['\\', '.'],
        c == '!' ==> markify(seq![c]) == seq!['\\', '!'],
        ('a' <= c <= 'z' || 'A' <= c <= 'Z' || '0' <= c <= '9' || c == ' ') ==> markify(seq![c]) == seq![c],
        markify(a + b) == markify(a) + markify(b),
{
    assert(seq![c].drop_last() =~= Seq::<char>::empty());
    assert(seq![c].last() == c);
    assert(markify(Seq::<char>::empty()) == Seq::<char>::empty());
    assert(markify(seq![c]) == markify(Seq::<char>::empty()) + escaped(c));
    assert(Seq::<char>::empty() + escaped(c) =~= escaped(c));
    assert(markify(seq![c]) == escaped(c));
    lemma_markify_concat(a, b);
}

} // verus!
