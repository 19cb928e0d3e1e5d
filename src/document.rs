//! Configuration documents, read with the `toml` crate, and the tree of plain
//! values that they hold.
use vstd::prelude::*;
use vstd::string::*;

verus! {

/// A value of a configuration document, as plain values.
pub enum DocView {
    Str(Seq<char>),
    Int(i64),
    Bool(bool),
    Array(Seq<DocView>),
    /// The entries of a table, keys distinct.
    Table(Seq<(Seq<char>, DocView)>),
    /// A float or a date: nothing in the settings reads those.
    Other,
}

/// One level of a `toml::Value`: its variant, with its children left as they are.
pub enum TomlNode {
    Str(String),
    Int(i64),
    Bool(bool),
    Array(Vec<toml::Value>),
    Table(Vec<(String, toml::Value)>),
    Other,
}

#[verifier::external_type_specification]
#[verifier::external_body]
pub struct ExTomlValue(toml::Value);

/// What the parser makes of the text `s`: the document it holds, or the
/// message of the error that stops it.
pub uninterp spec fn toml_parse(s: Seq<char>) -> Result<DocView, Seq<char>>;

/// What a `toml::Value` tree holds.
pub uninterp spec fn value_view(v: toml::Value) -> DocView;

/// Most level openers that a text may hold for the parser.
pub const MAX_LEVELS: usize = 512;

/// Whether `c` can open a level of nesting: an array or a table header
/// (`[`), an inline table (`{`), or a part of a dotted key (`.`).
pub open spec fn opens_level(c: char) -> bool {
    c == '[' || c == '{' || c == '.'
}

/// The number of characters of `s` that can open a level of nesting.
pub open spec fn openers(s: Seq<char>) -> nat
    decreases s.len(),
{
    if s.len() == 0 {
        0
    } else {
        openers(s.drop_last()) + if opens_level(s.last()) {
            1nat
        } else {
            0nat
        }
    }
}

/// The text nests shallowly enough for the parser. The parser recurses once
/// per level of an array, an inline table, a table header's parts and a
/// dotted key's parts, and each level needs one of `[`, `{` or `.`: a text
/// with at most `MAX_LEVELS` of them in all nests no deeper than that.
pub open spec fn shallow(s: Seq<char>) -> bool {
    openers(s) <= MAX_LEVELS
}

/// The message given for text that is not `shallow`.
pub const TOO_DEEP: &'static str = "too many levels of nesting (arrays, tables, dotted keys)";

/// Relies on toml::from_str into a toml::Value: parses the text, failing
/// exactly on text that is not a TOML document, with the error's message. It
/// recurses once per level of nesting, so the text is held to `shallow`.
#[verifier::external_body]
fn toml_from_str(text: &str) -> (r: Result<toml::Value, String>)
    requires
        shallow(text@),
    ensures
        match toml_parse(text@) {
            Ok(d) => r is Ok && value_view(r->Ok_0) == d,
            Err(m) => r is Err && r->Err_0@ == m,
        },
{
    toml::from_str(text).map_err(|e: toml::de::Error| e.to_string())
}

/// Relies on the variants of toml::Value: tells them apart, one level deep.
/// A table's entries come in the order of its map.
#[verifier::external_body]
pub(crate) fn toml_node(v: &toml::Value) -> (r: TomlNode)
    ensures
        match r {
            TomlNode::Str(s) => value_view(*v) == DocView::Str(s@),
            TomlNode::Int(i) => value_view(*v) == DocView::Int(i),
            TomlNode::Bool(b) => value_view(*v) == DocView::Bool(b),
            TomlNode::Array(xs) => value_view(*v) == DocView::Array(
                xs@.map_values(|x: toml::Value| value_view(x)),
            ),
            TomlNode::Table(es) => value_view(*v) == DocView::Table(entries_view(es@)),
            TomlNode::Other => value_view(*v) == DocView::Other,
        },
{
    match v {
        toml::Value::String(s) => TomlNode::Str(s.clone()),
        toml::Value::Integer(i) => TomlNode::Int(*i),
        toml::Value::Boolean(b) => TomlNode::Bool(*b),
        toml::Value::Array(a) => TomlNode::Array(a.clone()),
        toml::Value::Table(t) => TomlNode::Table(
            t.iter().map(|(k, x)| (k.clone(), x.clone())).collect(),
        ),
        _ => TomlNode::Other,
    }
}

/// The entries of a table as plain values.
pub open spec fn entries_view(es: Seq<(String, toml::Value)>) -> Seq<(Seq<char>, DocView)> {
    es.map_values(|e: (String, toml::Value)| (e.0@, value_view(e.1)))
}

/// Whether the text is shallow enough to be parsed.
pub fn is_shallow(text: &str) -> (r: bool)
    ensures
        r == shallow(text@),
{
    let n = text.unicode_len();
    let mut count: usize = 0;
    let mut i: usize = 0;
    while i < n
        invariant
            n == text@.len(),
            i <= n,
            count == openers(text@.take(i as int)),
            count <= MAX_LEVELS,
        decreases n - i,
    {
        assert(text@.take(i + 1).drop_last() =~= text@.take(i as int));
        let c = text.get_char(i);
        if c == '[' || c == '{' || c == '.' {
            if count == MAX_LEVELS {
                proof {
                    lemma_openers_grow(text@, i + 1);
                }
                return false;
            }
            count = count + 1;
        }
        i = i + 1;
    }
    assert(text@.take(i as int) =~= text@);
    true
}

proof fn lemma_openers_grow(s: Seq<char>, i: int)
    requires
        0 <= i <= s.len(),
    ensures
        openers(s.take(i)) <= openers(s),
    decreases s.len(),
{
    if i < s.len() {
        assert(s.drop_last().take(i) =~= s.take(i));
        lemma_openers_grow(s.drop_last(), i);
    } else {
        assert(s.take(i) =~= s);
    }
}

/// Parses a TOML document. Text that nests too deeply is refused with
/// `TOO_DEEP`; otherwise the result is what the parser makes of the text.
pub fn parse_document(text: &str) -> (r: Result<toml::Value, String>)
    ensures
        !shallow(text@) ==> r is Err && r->Err_0@ == TOO_DEEP@,
        shallow(text@) ==> match toml_parse(text@) {
            Ok(d) => r is Ok && value_view(r->Ok_0) == d,
            Err(m) => r is Err && r->Err_0@ == m,
        },
{
    if !is_shallow(text) {
        return Err(TOO_DEEP.to_owned());
    }
    toml_from_str(text)
}

} // verus!
