//! TOML documents as plain values, read and written by the `toml_edit` crate.
//!
//! A document is a table: an ordered list of keys with their items. Parsing
//! and printing are done by `toml_edit`; what the library reads out of a
//! document, and what document it builds, is verified against these models.
use vstd::prelude::*;
use crate::assoc::{assoc_get, find_key, key_index, lemma_key_index, pairs_view};

verus! {

/// A TOML value.
#[derive(Debug)]
pub enum TomlValue {
    Str(String),
    Int(i64),
    Bool(bool),
    /// A float or a date-time, by the text `toml_edit` shows for it.
    Other(String),
    /// An array: its values, and for an array read from a document the text
    /// `toml_edit` shows for each value (with the spacing around it).
    Array(Vec<TomlValue>, Vec<String>),
    /// An inline table.
    Inline(Vec<(String, TomlValue)>),
}

/// A TOML item: what a key of a table holds.
#[derive(Debug)]
pub enum TomlItem {
    Value(TomlValue),
    /// A value printed with a line break after it.
    LineValue(TomlValue),
    Table(TomlTable),
    /// An array of tables (`[[name]]`).
    Tables(Vec<TomlTable>),
}

/// A TOML table: its keys with their items, in document order, and its
/// position in the document it was read from.
#[derive(Debug)]
pub struct TomlTable {
    pub entries: Vec<(String, TomlItem)>,
    pub position: Option<usize>,
}

/// The model of a value.
pub enum TomlValueView {
    Str(Seq<char>),
    Int(i64),
    Bool(bool),
    Other(Seq<char>),
    Array(Seq<TomlValueView>, Seq<Seq<char>>),
    Inline(Seq<(Seq<char>, TomlValueView)>),
}

/// The model of an item.
pub enum TomlItemView {
    Value(TomlValueView),
    LineValue(TomlValueView),
    Table(TomlTableView),
    Tables(Seq<TomlTableView>),
}

/// The model of a table.
pub struct TomlTableView {
    pub entries: Seq<(Seq<char>, TomlItemView)>,
    pub position: Option<usize>,
}

pub open spec fn value_view(v: TomlValue) -> TomlValueView
    decreases v,
{
    match v {
        TomlValue::Str(s) => TomlValueView::Str(s@),
        TomlValue::Int(i) => TomlValueView::Int(i),
        TomlValue::Bool(b) => TomlValueView::Bool(b),
        TomlValue::Other(s) => TomlValueView::Other(s@),
        TomlValue::Array(items, shown) => TomlValueView::Array(
            Seq::new(
                items@.len(),
                |i: int|
                    if 0 <= i < items@.len() {
                        value_view(items@[i])
                    } else {
                        TomlValueView::Bool(false)
                    },
            ),
            shown@.map_values(|t: String| t@),
        ),
        TomlValue::Inline(entries) => TomlValueView::Inline(
            Seq::new(
                entries@.len(),
                |i: int|
                    if 0 <= i < entries@.len() {
                        (entries@[i].0@, value_view(entries@[i].1))
                    } else {
                        (Seq::empty(), TomlValueView::Bool(false))
                    },
            ),
        ),
    }
}

pub open spec fn item_view(i: TomlItem) -> TomlItemView
    decreases i,
{
    match i {
        TomlItem::Value(v) => TomlItemView::Value(value_view(v)),
        TomlItem::LineValue(v) => TomlItemView::LineValue(value_view(v)),
        TomlItem::Table(t) => TomlItemView::Table(table_view(t)),
        TomlItem::Tables(ts) => TomlItemView::Tables(
            Seq::new(
                ts@.len(),
                |k: int|
                    if 0 <= k < ts@.len() {
                        table_view(ts@[k])
                    } else {
                        TomlTableView { entries: Seq::empty(), position: None }
                    },
            ),
        ),
    }
}

pub open spec fn table_view(t: TomlTable) -> TomlTableView
    decreases t,
{
    TomlTableView {
        entries: Seq::new(
            t.entries@.len(),
            |k: int|
                if 0 <= k < t.entries@.len() {
                    (t.entries@[k].0@, item_view(t.entries@[k].1))
                } else {
                    (Seq::empty(), TomlItemView::Value(TomlValueView::Bool(false)))
                },
        ),
        position: t.position,
    }
}

impl View for TomlValue {
    type V = TomlValueView;

    open spec fn view(&self) -> TomlValueView {
        value_view(*self)
    }
}

impl View for TomlItem {
    type V = TomlItemView;

    open spec fn view(&self) -> TomlItemView {
        item_view(*self)
    }
}

impl View for TomlTable {
    type V = TomlTableView;

    open spec fn view(&self) -> TomlTableView {
        table_view(*self)
    }
}

/// A text that `toml_edit` refused, with its message.
#[derive(Debug, Clone, PartialEq, Eq)]
pub struct TomlError {
    pub message: String,
}

/// The document `toml_edit` reads from a text, or the message with which it
/// refuses the text.
pub uninterp spec fn toml_parsed(text: Seq<char>) -> Result<TomlTableView, Seq<char>>;

/// The text `toml_edit` prints for a document built from `doc`.
pub uninterp spec fn toml_rendered(doc: TomlTableView) -> Seq<char>;

#[verifier::external_type_specification]
#[verifier::external_body]
pub struct ExTomlTable(toml_edit::Table);

#[verifier::external_type_specification]
#[verifier::external_body]
pub struct ExTomlItem(toml_edit::Item);

#[verifier::external_type_specification]
#[verifier::external_body]
pub struct ExTomlValue(toml_edit::Value);

/// Parses a TOML document with `toml_edit` (`str::parse::<toml_edit::Document>`)
/// and gives it as a plain table, or the message of `toml_edit`'s error. The
/// result is named by `toml_parsed`; nothing else is claimed of it.
#[verifier::external_body]
pub(crate) fn parse_toml(text: &str) -> (r: Result<TomlTable, TomlError>)
    ensures
        match r {
            Ok(t) => toml_parsed(text@) == Ok::<TomlTableView, Seq<char>>(t@),
            Err(e) => toml_parsed(text@) == Err::<TomlTableView, Seq<char>>(e.message@),
        },
{
    match text.parse::<toml_edit::Document>() {
        Ok(doc) => Ok(toml_table_in(doc.as_table())),
        Err(e) => Err(TomlError { message: e.to_string() }),
    }
}

/// The plain table of a `toml_edit::Table` (part of `parse_toml`): its
/// non-empty keys in order (`Table::iter`) and `Table::position`.
#[verifier::external_body]
fn toml_table_in(t: &toml_edit::Table) -> TomlTable {
    TomlTable {
        entries: t.iter().map(|(k, i)| (k.to_string(), toml_item_in(i))).collect(),
        position: t.position(),
    }
}

/// The plain item of a `toml_edit::Item` (part of `parse_toml`).
#[verifier::external_body]
fn toml_item_in(i: &toml_edit::Item) -> TomlItem {
    match i {
        toml_edit::Item::Value(v) => TomlItem::Value(toml_value_in(v)),
        toml_edit::Item::Table(t) => TomlItem::Table(toml_table_in(t)),
        toml_edit::Item::ArrayOfTables(a) => TomlItem::Tables(a.iter().map(toml_table_in).collect()),
        toml_edit::Item::None => TomlItem::Tables(Vec::new()),
    }
}

/// The plain value of a `toml_edit::Value` (part of `parse_toml`).
#[verifier::external_body]
fn toml_value_in(v: &toml_edit::Value) -> TomlValue {
    match v {
        toml_edit::Value::String(s) => TomlValue::Str(s.value().clone()),
        toml_edit::Value::Integer(n) => TomlValue::Int(*n.value()),
        toml_edit::Value::Boolean(b) => TomlValue::Bool(*b.value()),
        toml_edit::Value::Array(a) => TomlValue::Array(
            a.iter().map(toml_value_in).collect(),
            a.iter().map(|x| x.to_string()).collect(),
        ),
        toml_edit::Value::InlineTable(t) => TomlValue::Inline(
            t.iter().map(|(k, x)| (k.to_string(), toml_value_in(x))).collect(),
        ),
        other => TomlValue::Other(other.to_string()),
    }
}

/// Prints a document with `toml_edit`: builds a `toml_edit::Document` by
/// inserting the entries of `doc` in order (`Table::insert`) and returns its
/// `Display` text. The result is named by `toml_rendered`; nothing else is
/// claimed of it.
#[verifier::external_body]
pub(crate) fn render_toml(doc: &TomlTable) -> (r: String)
    ensures
        r@ == toml_rendered(doc@),
{
    let mut out = toml_edit::Document::new();
    for (k, i) in doc.entries.iter() {
        out.insert(k, toml_item_out(i));
    }
    out.to_string()
}

/// The `toml_edit::Table` of a plain table (part of `render_toml`): a new
/// table with the entries inserted in order.
#[verifier::external_body]
fn toml_table_out(t: &TomlTable) -> toml_edit::Table {
    let mut out = toml_edit::Table::new();
    for (k, i) in t.entries.iter() {
        out.insert(k, toml_item_out(i));
    }
    out
}

/// The `toml_edit::Item` of a plain item (part of `render_toml`); a line
/// value gets the suffix `"\n"` in its decor.
#[verifier::external_body]
fn toml_item_out(i: &TomlItem) -> toml_edit::Item {
    match i {
        TomlItem::Value(v) => toml_edit::Item::Value(toml_value_out(v)),
        TomlItem::LineValue(v) => {
            let mut x = toml_value_out(v);
            x.decor_mut().set_suffix("\n");
            toml_edit::Item::Value(x)
        },
        TomlItem::Table(t) => toml_edit::Item::Table(toml_table_out(t)),
        TomlItem::Tables(ts) => toml_edit::Item::ArrayOfTables(ts.iter().map(toml_table_out).collect()),
    }
}

/// The `toml_edit::Value` of a plain value (part of `render_toml`): strings
/// (and the text of other values) by `Value::from(&str)`, arrays by
/// `Array::push`, inline tables by `InlineTable::insert`.
#[verifier::external_body]
fn toml_value_out(v: &TomlValue) -> toml_edit::Value {
    match v {
        TomlValue::Str(s) | TomlValue::Other(s) => toml_edit::Value::from(s.as_str()),
        TomlValue::Int(n) => toml_edit::Value::from(*n),
        TomlValue::Bool(b) => toml_edit::Value::from(*b),
        TomlValue::Array(xs, _) => toml_edit::Value::Array(xs.iter().fold(toml_edit::Array::new(), |mut a, x| { a.push(toml_value_out(x)); a })),
        TomlValue::Inline(es) => toml_edit::Value::InlineTable(es.iter().fold(toml_edit::InlineTable::new(), |mut t, (k, x)| { t.insert(k, toml_value_out(x)); t })),
    }
}

/// The item of the first entry of `t` with key `key`.
pub open spec fn table_get(t: TomlTableView, key: Seq<char>) -> Option<TomlItemView> {
    assoc_get(t.entries, key)
}

/// The value an item holds, if it is a value.
pub open spec fn item_value(i: TomlItemView) -> Option<TomlValueView> {
    match i {
        TomlItemView::Value(v) => Some(v),
        TomlItemView::LineValue(v) => Some(v),
        _ => None,
    }
}

/// The text an item holds, if it is a string value.
pub open spec fn item_str(i: TomlItemView) -> Option<Seq<char>> {
    match item_value(i) {
        Some(TomlValueView::Str(s)) => Some(s),
        _ => None,
    }
}

/// The text an item holds if it is a string value, else `default`.
pub open spec fn item_str_or(i: TomlItemView, default: Seq<char>) -> Seq<char> {
    match item_str(i) {
        Some(s) => s,
        None => default,
    }
}

/// The boolean an item holds, if it is a boolean value.
pub open spec fn item_bool(i: TomlItemView) -> Option<bool> {
    match item_value(i) {
        Some(TomlValueView::Bool(b)) => Some(b),
        _ => None,
    }
}

/// The values of an item that is an array value.
pub open spec fn item_array(i: TomlItemView) -> Option<Seq<TomlValueView>> {
    match item_value(i) {
        Some(TomlValueView::Array(xs, _)) => Some(xs),
        _ => None,
    }
}

/// The integer an item holds, if it is an integer value.
pub open spec fn item_int(i: TomlItemView) -> Option<i64> {
    match item_value(i) {
        Some(TomlValueView::Int(n)) => Some(n),
        _ => None,
    }
}

/// The texts `toml_edit` shows for the values of an item that is an array
/// value.
pub open spec fn item_shown(i: TomlItemView) -> Option<Seq<Seq<char>>> {
    match item_value(i) {
        Some(TomlValueView::Array(_, shown)) => Some(shown),
        _ => None,
    }
}

/// The table of an item that is a table (not an inline table).
pub open spec fn item_table(i: TomlItemView) -> Option<TomlTableView> {
    match i {
        TomlItemView::Table(t) => Some(t),
        _ => None,
    }
}

/// The tables of an item that is an array of tables.
pub open spec fn item_tables(i: TomlItemView) -> Option<Seq<TomlTableView>> {
    match i {
        TomlItemView::Tables(ts) => Some(ts),
        _ => None,
    }
}

/// The entries of an item that is a table or an inline table.
pub open spec fn item_table_like(i: TomlItemView) -> Option<Seq<(Seq<char>, TomlItemView)>> {
    match i {
        TomlItemView::Table(t) => Some(t.entries),
        TomlItemView::Value(TomlValueView::Inline(es)) => Some(inline_entries(es)),
        TomlItemView::LineValue(TomlValueView::Inline(es)) => Some(inline_entries(es)),
        _ => None,
    }
}

pub open spec fn inline_entries(es: Seq<(Seq<char>, TomlValueView)>) -> Seq<(Seq<char>, TomlItemView)> {
    es.map_values(|e: (Seq<char>, TomlValueView)| (e.0, TomlItemView::Value(e.1)))
}

/// The text of a value if it is a string, else `default`.
pub open spec fn value_str_or(v: TomlValueView, default: Seq<char>) -> Seq<char> {
    match v {
        TomlValueView::Str(s) => s,
        _ => default,
    }
}

/// The text of the key `key` in the entries `es`, if it is a string value.
pub open spec fn entries_str(es: Seq<(Seq<char>, TomlItemView)>, key: Seq<char>) -> Option<Seq<char>> {
    match assoc_get(es, key) {
        Some(i) => item_str(i),
        None => None,
    }
}

/// The values of the key `key` in the entries `es`, if it is an array value.
pub open spec fn entries_array(es: Seq<(Seq<char>, TomlItemView)>, key: Seq<char>) -> Option<Seq<TomlValueView>> {
    match assoc_get(es, key) {
        Some(i) => item_array(i),
        None => None,
    }
}

pub open spec fn values_view(s: Seq<TomlValue>) -> Seq<TomlValueView> {
    s.map_values(|v: TomlValue| v@)
}

pub open spec fn tables_view(s: Seq<TomlTable>) -> Seq<TomlTableView> {
    s.map_values(|t: TomlTable| t@)
}

pub proof fn lemma_table_entries(t: TomlTable)
    ensures
        t@.entries == pairs_view(t.entries@),
{
    assert(t@.entries =~= pairs_view(t.entries@));
}

pub proof fn lemma_inline_view(es: Vec<(String, TomlValue)>)
    ensures
        value_view(TomlValue::Inline(es)) == TomlValueView::Inline(pairs_view(es@)),
{
    assert(value_view(TomlValue::Inline(es))->Inline_0 =~= pairs_view(es@));
}

pub proof fn lemma_array_view(xs: Vec<TomlValue>, shown: Vec<String>)
    ensures
        value_view(TomlValue::Array(xs, shown)) == TomlValueView::Array(
            values_view(xs@),
            shown@.map_values(|t: String| t@),
        ),
{
    assert(value_view(TomlValue::Array(xs, shown))->Array_0 =~= values_view(xs@));
}

pub proof fn lemma_inline_key_index(es: Seq<(Seq<char>, TomlValueView)>, key: Seq<char>)
    ensures
        key_index(inline_entries(es), key) == key_index(es, key),
    decreases es.len(),
{
    if es.len() > 0 {
        assert(inline_entries(es).drop_first() =~= inline_entries(es.drop_first()));
        lemma_inline_key_index(es.drop_first(), key);
    }
}

impl TomlTable {
    /// The item of the key `key`, if the table has it.
    pub fn get(&self, key: &str) -> (r: Option<&TomlItem>)
        ensures
            match table_get(self@, key@) {
                Some(i) => r matches Some(x) && x@ == i,
                None => r is None,
            },
    {
        proof {
            lemma_table_entries(*self);
            lemma_key_index(self@.entries, key@);
        }
        match find_key(&self.entries, key) {
            Some(k) => Some(&self.entries[k].1),
            None => None,
        }
    }
}

impl TomlItem {
    /// The value of a value item.
    pub fn as_value(&self) -> (r: Option<&TomlValue>)
        ensures
            match item_value(self@) {
                Some(v) => r matches Some(x) && x@ == v,
                None => r is None,
            },
    {
        match self {
            TomlItem::Value(v) => Some(v),
            TomlItem::LineValue(v) => Some(v),
            _ => None,
        }
    }

    /// The text of a string value item.
    pub fn as_str(&self) -> (r: Option<&String>)
        ensures
            match item_str(self@) {
                Some(s) => r matches Some(x) && x@ == s,
                None => r is None,
            },
    {
        match self.as_value() {
            Some(TomlValue::Str(s)) => Some(s),
            _ => None,
        }
    }

    /// The boolean of a boolean value item.
    pub fn as_bool(&self) -> (r: Option<bool>)
        ensures
            r == item_bool(self@),
    {
        match self.as_value() {
            Some(TomlValue::Bool(b)) => Some(*b),
            _ => None,
        }
    }

    /// The values of an array value item.
    pub fn as_array(&self) -> (r: Option<&Vec<TomlValue>>)
        ensures
            match item_array(self@) {
                Some(xs) => r matches Some(v) && values_view(v@) == xs,
                None => r is None,
            },
    {
        match self.as_value() {
            Some(TomlValue::Array(xs, sh)) => {
                proof {
                    lemma_array_view(*xs, *sh);
                }
                Some(xs)
            },
            _ => None,
        }
    }

    /// The integer of an integer value item.
    pub fn as_integer(&self) -> (r: Option<i64>)
        ensures
            r == item_int(self@),
    {
        match self.as_value() {
            Some(TomlValue::Int(n)) => Some(*n),
            _ => None,
        }
    }

    /// The texts shown for the values of an array value item.
    pub fn array_shown(&self) -> (r: Option<&Vec<String>>)
        ensures
            match item_shown(self@) {
                Some(sh) => r matches Some(v) && v@.map_values(|t: String| t@) == sh,
                None => r is None,
            },
    {
        match self.as_value() {
            Some(TomlValue::Array(xs, sh)) => {
                proof {
                    lemma_array_view(*xs, *sh);
                }
                Some(sh)
            },
            _ => None,
        }
    }

    /// The table of a table item.
    pub fn as_table(&self) -> (r: Option<&TomlTable>)
        ensures
            match item_table(self@) {
                Some(t) => r matches Some(x) && x@ == t,
                None => r is None,
            },
    {
        match self {
            TomlItem::Table(t) => Some(t),
            _ => None,
        }
    }

    /// The tables of an array-of-tables item.
    pub fn as_tables(&self) -> (r: Option<&Vec<TomlTable>>)
        ensures
            match item_tables(self@) {
                Some(ts) => r matches Some(v) && tables_view(v@) == ts,
                None => r is None,
            },
    {
        match self {
            TomlItem::Tables(ts) => {
                assert(tables_view(ts@) =~= item_tables(self@).unwrap());
                Some(ts)
            },
            _ => None,
        }
    }

    /// The item of the key `key` of a table or inline table item, as a
    /// value where it is one.
    fn like_value(&self, key: &str) -> (r: Option<&TomlValue>)
        ensures
            match item_table_like(self@) {
                Some(es) => match assoc_get(es, key@) {
                    Some(i) => match item_value(i) {
                        Some(v) => r matches Some(x) && x@ == v,
                        None => r is None,
                    },
                    None => r is None,
                },
                None => r is None,
            },
    {
        match self {
            TomlItem::Table(t) => match t.get(key) {
                Some(i) => i.as_value(),
                None => None,
            },
            TomlItem::Value(TomlValue::Inline(es)) | TomlItem::LineValue(TomlValue::Inline(es)) => {
                proof {
                    lemma_inline_view(*es);
                    lemma_inline_key_index(pairs_view(es@), key@);
                    lemma_key_index(pairs_view(es@), key@);
                }
                match find_key(es, key) {
                    Some(k) => Some(&es[k].1),
                    None => None,
                }
            },
            _ => None,
        }
    }

    /// The text of the key `key` of a table or inline table item.
    pub fn like_str(&self, key: &str) -> (r: Option<&String>)
        ensures
            match item_table_like(self@) {
                Some(es) => match entries_str(es, key@) {
                    Some(s) => r matches Some(x) && x@ == s,
                    None => r is None,
                },
                None => r is None,
            },
    {
        match self.like_value(key) {
            Some(TomlValue::Str(s)) => Some(s),
            _ => None,
        }
    }

    /// The values of the key `key` of a table or inline table item.
    pub fn like_array(&self, key: &str) -> (r: Option<&Vec<TomlValue>>)
        ensures
            match item_table_like(self@) {
                Some(es) => match entries_array(es, key@) {
                    Some(xs) => r matches Some(v) && values_view(v@) == xs,
                    None => r is None,
                },
                None => r is None,
            },
    {
        match self.like_value(key) {
            Some(TomlValue::Array(xs, sh)) => {
                proof {
                    lemma_array_view(*xs, *sh);
                }
                Some(xs)
            },
            _ => None,
        }
    }

    /// Whether a table or inline table item has no entries.
    pub fn like_is_empty(&self) -> (r: bool)
        ensures
            match item_table_like(self@) {
                Some(es) => r == (es.len() == 0),
                None => true,
            },
    {
        match self {
            TomlItem::Table(t) => t.entries.len() == 0,
            TomlItem::Value(TomlValue::Inline(es)) | TomlItem::LineValue(TomlValue::Inline(es)) => es.len() == 0,
            _ => true,
        }
    }
}

impl TomlValue {
    /// The text of a string value.
    pub fn as_str(&self) -> (r: Option<&String>)
        ensures
            match self@ {
                TomlValueView::Str(s) => r matches Some(x) && x@ == s,
                _ => r is None,
            },
    {
        match self {
            TomlValue::Str(s) => Some(s),
            _ => None,
        }
    }
}

} // verus!
