//! The syntax tree that the SQL parser gives, as plain values.
//!
//! The parser's own types say how their values are written as JSON: a struct is a record of its
//! fields, and a variant of an enum is its name, in a record of one field where it holds something.
//! What is marked as external here is believed, not proved.

use serde_json::Value;
use sqlparser::ast;
use sqlparser::dialect::GenericDialect;
use sqlparser::parser::Parser;
use vstd::prelude::*;

verus! {

#[verifier::external_type_specification]
#[verifier::external_body]
pub struct ExValue(serde_json::Value);

/// A value of JSON.
pub enum JsonView {
    Null,
    Bool(bool),
    /// A number, by the text that `Number` prints.
    Number(Seq<char>),
    Text(Seq<char>),
    List(Seq<JsonView>),
    /// The fields of a record with their names.
    Record(Seq<NamedJson>),
}

/// A field of a record.
pub struct NamedJson {
    pub name: Seq<char>,
    pub value: JsonView,
}

/// What a value of JSON holds: values that differ, differ in what they hold.
pub uninterp spec fn json_tree(value: Value) -> JsonView;

/// What `Parser::parse_sql` makes of a text in the generic dialect, as JSON, or the text of its
/// error.
pub uninterp spec fn parsed_sql(text: Seq<char>) -> Result<JsonView, Seq<char>>;

/// What the parser prints for a node that was written as JSON.
pub uninterp spec fn node_text(kind: NodeKind, node: JsonView) -> Seq<char>;

/// The nodes of a syntax tree that are printed.
#[derive(Debug, Clone, Copy, PartialEq, Eq, Structural)]
pub enum NodeKind {
    Expr,
    Operator,
    Relation,
    Join,
    Argument,
    Name,
    Type,
    Statement,
}

/// A value where there is one, and nothing where there is none.
pub open spec fn tree_of(value: Option<&Value>) -> JsonView {
    match value {
        Some(value) => json_tree(*value),
        None => JsonView::Null,
    }
}

/// The value of the first field from `from` on with a name.
pub open spec fn field_of(fields: Seq<NamedJson>, name: Seq<char>, from: int) -> Option<
    JsonView,
>
    decreases fields.len() - from,
{
    if from >= fields.len() {
        None
    } else if fields[from].name == name {
        Some(fields[from].value)
    } else {
        field_of(fields, name, from + 1)
    }
}

impl JsonView {
    /// The field of a record, and nothing where there is none.
    pub open spec fn get(self, name: Seq<char>) -> JsonView {
        match self {
            JsonView::Record(fields) => match field_of(fields, name, 0) {
                Some(value) => value,
                None => JsonView::Null,
            },
            _ => JsonView::Null,
        }
    }

    /// Whether a record has a field.
    pub open spec fn has(self, name: Seq<char>) -> bool {
        self matches JsonView::Record(fields) && field_of(fields, name, 0) is Some
    }

    /// The items of a list, and none where it is no list.
    pub open spec fn items(self) -> Seq<JsonView> {
        match self {
            JsonView::List(items) => items,
            _ => Seq::empty(),
        }
    }

    /// The text that a value is, if it is one.
    pub open spec fn text(self) -> Option<Seq<char>> {
        match self {
            JsonView::Text(text) => Some(text),
            _ => None,
        }
    }

    /// Whether a value is a certain text.
    pub open spec fn is_text(self, text: Seq<char>) -> bool {
        self == JsonView::Text(text)
    }

    /// The truth value that a value is, if it is one.
    pub open spec fn flag(self) -> Option<bool> {
        match self {
            JsonView::Bool(flag) => Some(flag),
            _ => None,
        }
    }
}

/// A field is smaller than its record, and an item than its list.
pub proof fn parts_are_smaller(tree: JsonView, name: Seq<char>)
    ensures
        tree.has(name) ==> decreases_to!(tree => tree.get(name)),
        forall|i: int|
            0 <= i < tree.items().len() ==> decreases_to!(tree => #[trigger] tree.items()[i]),
{
    if let JsonView::Record(fields) = tree {
        fields_are_smaller(fields, name, 0);
    }
    if let JsonView::List(items) = tree {
        assert forall|i: int| 0 <= i < tree.items().len() implies decreases_to!(
            tree => #[trigger] tree.items()[i]
        ) by {
            assert(decreases_to!(items => items[i]));
        }
    }
}

proof fn fields_are_smaller(fields: Seq<NamedJson>, name: Seq<char>, from: int)
    requires
        0 <= from,
    ensures
        field_of(fields, name, from) matches Some(value) ==> decreases_to!(
            JsonView::Record(fields) => value
        ),
    decreases fields.len() - from,
{
    if from < fields.len() {
        if fields[from].name == name {
            let record = JsonView::Record(fields);
            assert(decreases_to!(record => record->Record_0));
            assert(decreases_to!(fields => fields[from]));
            assert(decreases_to!(fields[from] => fields[from].value));
        } else {
            fields_are_smaller(fields, name, from + 1);
        }
    }
}

/// `Parser::parse_sql` in the generic dialect, with the statements written as JSON by
/// `serde_json::to_value`. A function of the text alone.
#[verifier::external_body]
pub(crate) fn parse_sql(text: &str) -> (r: Result<Value, String>)
    ensures
        match r {
            Ok(value) => parsed_sql(text@) == Ok::<JsonView, Seq<char>>(json_tree(value)),
            Err(message) => parsed_sql(text@) == Err::<JsonView, Seq<char>>(message@),
        },
{
    let statements = Parser::parse_sql(&GenericDialect {}, text).map_err(|e| e.to_string())?;
    serde_json::to_value(statements).map_err(|error| error.to_string())
}

/// `Value::get` with a name: the field of a record, where there is one.
#[verifier::external_body]
pub(crate) fn field<'a>(value: Option<&'a Value>, name: &str) -> (r: Option<&'a Value>)
    ensures
        tree_of(r) == tree_of(value).get(name@),
        r is Some <==> tree_of(value).has(name@),
{
    value.and_then(|value| value.get(name))
}

pub open spec fn trees(values: Seq<&Value>) -> Seq<JsonView> {
    Seq::new(values.len(), |i: int| json_tree(*values[i]))
}

/// `Value::as_array`: the items of a list, and none where it is no list.
#[verifier::external_body]
pub(crate) fn items<'a>(value: Option<&'a Value>) -> (r: Vec<&'a Value>)
    ensures
        trees(r@) == tree_of(value).items(),
{
    let list = value.and_then(|value| value.as_array());
    list.map_or(Vec::new(), |list| list.iter().collect())
}

/// `Value::as_str`: the text that a value is, if it is one.
#[verifier::external_body]
pub(crate) fn text_of(value: Option<&Value>) -> (r: Option<String>)
    ensures
        match r {
            Some(text) => tree_of(value).text() == Some(text@),
            None => tree_of(value).text() is None,
        },
{
    value.and_then(|value| value.as_str()).map(|text| text.to_owned())
}

/// `Value::as_bool`: the truth value that a value is, if it is one.
#[verifier::external_body]
pub(crate) fn flag_of(value: Option<&Value>) -> (r: Option<bool>)
    ensures
        r == tree_of(value).flag(),
{
    value.and_then(|value| value.as_bool())
}

/// `Value::is_null`: whether a value is null, or missing.
#[verifier::external_body]
pub(crate) fn is_missing(value: Option<&Value>) -> (r: bool)
    ensures
        r == tree_of(value) is Null,
{
    value.map_or(true, |value| value.is_null())
}

impl NodeKind {
    /// Whether this is a node of an expression.
    pub open spec fn is_term(self) -> bool {
        self is Expr || self is Operator || self is Argument || self is Type
    }
}

/// `Display` of a node of an expression, read back from JSON with `serde_json::from_value`. A
/// function of the node alone.
#[verifier::external_body]
fn show_term(kind: NodeKind, node: Option<&Value>) -> (r: String)
    requires
        kind.is_term(),
    ensures
        r@ == node_text(kind, tree_of(node)),
{
    let node = node.cloned().unwrap_or(Value::Null);
    let text = match kind {
        NodeKind::Expr => serde_json::from_value::<ast::Expr>(node).map(|n| n.to_string()),
        NodeKind::Operator => {
            serde_json::from_value::<ast::BinaryOperator>(node).map(|n| n.to_string())
        },
        NodeKind::Argument => serde_json::from_value::<ast::FunctionArg>(node).map(|n| n.to_string()),
        _ => serde_json::from_value::<ast::DataType>(node).map(|n| n.to_string()),
    };
    text.unwrap_or_default()
}

/// `Display` of a node outside expressions, read back from JSON with `serde_json::from_value`. A
/// function of the node alone.
#[verifier::external_body]
fn show_clause(kind: NodeKind, node: Option<&Value>) -> (r: String)
    requires
        !kind.is_term(),
    ensures
        r@ == node_text(kind, tree_of(node)),
{
    let node = node.cloned().unwrap_or(Value::Null);
    let text = match kind {
        NodeKind::Relation => serde_json::from_value::<ast::TableFactor>(node).map(|n| n.to_string()),
        NodeKind::Join => serde_json::from_value::<ast::Join>(node).map(|n| n.to_string()),
        NodeKind::Name => serde_json::from_value::<ast::ObjectName>(node).map(|n| n.to_string()),
        _ => serde_json::from_value::<ast::Statement>(node).map(|n| n.to_string()),
    };
    text.unwrap_or_default()
}

/// What the parser prints for a node.
pub(crate) fn show_node(kind: NodeKind, node: Option<&Value>) -> (r: String)
    ensures
        r@ == node_text(kind, tree_of(node)),
{
    match kind {
        NodeKind::Expr | NodeKind::Operator | NodeKind::Argument | NodeKind::Type => show_term(
            kind,
            node,
        ),
        _ => show_clause(kind, node),
    }
}

} // verus!
