//! The values, column types, operators and commands of the query language,
//! with their mathematical views.
use crate::text::{decimal, int_text, text, text_eq, to_upper, upper_case};
use vstd::prelude::*;

verus! {

/// A value stored in or compared against a column.
#[derive(Debug, Clone)]
pub enum Value {
    Text(String),
    Int(i64),
}

/// The view of a [`Value`].
pub enum ValueView {
    Text(Seq<char>),
    Int(i64),
}

impl View for Value {
    type V = ValueView;

    open spec fn view(&self) -> ValueView {
        match self {
            Value::Text(s) => ValueView::Text(s@),
            Value::Int(n) => ValueView::Int(*n),
        }
    }
}

/// The text of a value as it is displayed: a text as it is, an integer in
/// decimal.
pub open spec fn value_text(v: ValueView) -> Seq<char> {
    match v {
        ValueView::Text(s) => s,
        ValueView::Int(n) => decimal(n as int),
    }
}

impl Value {
    /// The text of this value as it is displayed.
    pub fn to_text(&self) -> (r: String)
        ensures
            r@ == value_text(self@),
    {
        match self {
            Value::Text(s) => s.clone(),
            Value::Int(n) => int_text(*n),
        }
    }
}

/// The type of a column.
#[derive(Debug, Clone, Copy, PartialEq, Eq, Structural)]
pub enum Type {
    Text,
    Int,
}

/// The type that a type name denotes, given the upper-cased name `upper`:
/// `TEXT` and `STRING` name the text type, `INT` and `INTEGER` the integer
/// type; any other name is refused with a message that quotes `name`.
pub open spec fn type_of_upper(name: Seq<char>, upper: Seq<char>) -> Result<Type, Seq<char>> {
    if upper == "TEXT"@ || upper == "STRING"@ {
        Ok(Type::Text)
    } else if upper == "INT"@ || upper == "INTEGER"@ {
        Ok(Type::Int)
    } else {
        Err("Unknown type: "@ + name)
    }
}

/// The type that a type name denotes, case-insensitively.
pub open spec fn type_named(name: Seq<char>) -> Result<Type, Seq<char>> {
    type_of_upper(name, upper_case(name))
}

impl Type {
    /// The type denoted by `name`, whose upper-cased form is `upper`.
    pub fn from_upper(name: &str, upper: &str) -> (r: Result<Type, String>)
        ensures
            match r {
                Ok(t) => type_of_upper(name@, upper@) == Ok::<Type, Seq<char>>(t),
                Err(e) => type_of_upper(name@, upper@) == Err::<Type, Seq<char>>(e@),
            },
    {
        if text_eq(upper, "TEXT") || text_eq(upper, "STRING") {
            Ok(Type::Text)
        } else if text_eq(upper, "INT") || text_eq(upper, "INTEGER") {
            Ok(Type::Int)
        } else {
            let mut m = text("Unknown type: ");
            m.append(name);
            Err(m)
        }
    }

    /// The type denoted by `name`, compared case-insensitively.
    pub fn from_name(name: &str) -> (r: Result<Type, String>)
        ensures
            match r {
                Ok(t) => type_named(name@) == Ok::<Type, Seq<char>>(t),
                Err(e) => type_named(name@) == Err::<Type, Seq<char>>(e@),
            },
    {
        let upper = to_upper(name);
        Type::from_upper(name, upper.as_str())
    }
}

impl std::str::FromStr for Type {
    type Err = String;

    fn from_str(s: &str) -> (r: Result<Type, String>)
        ensures
            match r {
                Ok(t) => type_named(s@) == Ok::<Type, Seq<char>>(t),
                Err(e) => type_named(s@) == Err::<Type, Seq<char>>(e@),
            },
    {
        Type::from_name(s)
    }
}

/// A column of a table: its name and its type.
#[derive(Debug, Clone)]
pub struct Column {
    pub name: String,
    pub col_type: Type,
}

/// The view of a [`Column`].
pub struct ColumnView {
    pub name: Seq<char>,
    pub col_type: Type,
}

impl View for Column {
    type V = ColumnView;

    open spec fn view(&self) -> ColumnView {
        ColumnView { name: self.name@, col_type: self.col_type }
    }
}

/// A comparison operator of a `WHERE` clause.
#[derive(Debug, Clone, Copy, PartialEq, Eq, Structural)]
pub enum Operator {
    Eq,
    Neq,
    Gt,
    Lt,
    Gte,
    Lte,
}

/// A parsed statement.
#[allow(inconsistent_fields)]
#[derive(Debug, Clone)]
pub enum Command {
    CreateTable { name: String, columns: Vec<Column> },
    Insert { table: String, values: Vec<Value> },
    Select {
        table: String,
        columns: Option<Vec<String>>,
        where_clause: Option<(String, Operator, Value)>,
    },
    Delete { table: String, where_clause: Option<(String, Operator, Value)> },
    Exit,
}

/// The view of a `WHERE` clause: column, operator, value.
pub type ConditionView = (Seq<char>, Operator, ValueView);

/// The view of a [`Command`].
#[allow(inconsistent_fields)]
pub enum CommandView {
    CreateTable { name: Seq<char>, columns: Seq<ColumnView> },
    Insert { table: Seq<char>, values: Seq<ValueView> },
    Select {
        table: Seq<char>,
        columns: Option<Seq<Seq<char>>>,
        where_clause: Option<ConditionView>,
    },
    Delete { table: Seq<char>, where_clause: Option<ConditionView> },
    Exit,
}

/// The view of a list of texts.
pub open spec fn texts_view(v: Seq<String>) -> Seq<Seq<char>> {
    v.map_values(|s: String| s@)
}

/// The view of a list of columns.
pub open spec fn columns_view(v: Seq<Column>) -> Seq<ColumnView> {
    v.map_values(|c: Column| c@)
}

/// The view of a list of values.
pub open spec fn values_view(v: Seq<Value>) -> Seq<ValueView> {
    v.map_values(|x: Value| x@)
}

/// The view of an optional `WHERE` clause.
pub open spec fn condition_view(w: Option<(String, Operator, Value)>) -> Option<ConditionView> {
    match w {
        Some((c, op, v)) => Some((c@, op, v@)),
        None => None,
    }
}

impl View for Command {
    type V = CommandView;

    open spec fn view(&self) -> CommandView {
        match self {
            Command::CreateTable { name, columns } => CommandView::CreateTable {
                name: name@,
                columns: columns_view(columns@),
            },
            Command::Insert { table, values } => CommandView::Insert {
                table: table@,
                values: values_view(values@),
            },
            Command::Select { table, columns, where_clause } => CommandView::Select {
                table: table@,
                columns: match columns {
                    Some(cs) => Some(texts_view(cs@)),
                    None => None,
                },
                where_clause: condition_view(*where_clause),
            },
            Command::Delete { table, where_clause } => CommandView::Delete {
                table: table@,
                where_clause: condition_view(*where_clause),
            },
            Command::Exit => CommandView::Exit,
        }
    }
}

} // verus!
