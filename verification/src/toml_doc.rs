//! TOML documents as plain values, read and written with `toml`.

use crate::text::{
    chars_of, is_blank, lemma_text_le_total, lemma_text_le_transitive, opt_text, same_text,
    text_le, texts,
};
use serde::ser::{SerializeMap, Serializer};
use vstd::prelude::*;
use vstd::string::*;

verus! {

/// `toml::Value`.
#[verifier::external_type_specification]
#[verifier::external_body]
pub struct ExTomlValue(toml::Value);

/// `toml::map::Map`; a `toml::Table` is one of values by name.
#[verifier::external_type_specification]
#[verifier::external_body]
#[verifier::reject_recursive_types(K)]
#[verifier::reject_recursive_types(V)]
pub struct ExTomlMap<K, V>(toml::map::Map<K, V>);

/// What stands behind a name in a table of a document. A list holds the texts
/// among its items, and nothing for each other item.
#[derive(Debug)]
pub enum TomlField {
    Text(String),
    List(Vec<Option<String>>),
    Other,
}

/// What stands behind a name in a document.
#[derive(Debug)]
pub enum TomlValue {
    Text(String),
    Number(i64),
    List(Vec<Option<String>>),
    Table(Vec<(String, TomlField)>),
    Other,
}

/// What a [`TomlField`] holds.
#[verifier::ext_equal]
pub enum FieldView {
    Text(Seq<char>),
    List(Seq<Option<Seq<char>>>),
    Other,
}

/// What a [`TomlValue`] holds.
#[verifier::ext_equal]
pub enum ValueView {
    Text(Seq<char>),
    Number(i64),
    List(Seq<Option<Seq<char>>>),
    Table(Seq<(Seq<char>, FieldView)>),
    Other,
}

/// What the items of a list hold.
pub open spec fn items_view(list: Seq<Option<String>>) -> Seq<Option<Seq<char>>> {
    list.map_values(|s: Option<String>| opt_text(s))
}

/// What the fields of a table hold.
pub open spec fn fields_view(list: Seq<(String, TomlField)>) -> Seq<(Seq<char>, FieldView)> {
    list.map_values(|f: (String, TomlField)| (f.0@, f.1@))
}

/// What the entries of a document hold.
pub open spec fn entries_view(list: Seq<(String, TomlValue)>) -> Seq<(Seq<char>, ValueView)> {
    list.map_values(|e: (String, TomlValue)| (e.0@, e.1@))
}

/// What a list of pairs of strings holds.
pub open spec fn pairs_view(list: Seq<(String, String)>) -> Seq<(Seq<char>, Seq<char>)> {
    list.map_values(|p: (String, String)| (p.0@, p.1@))
}

impl View for TomlField {
    type V = FieldView;

    open spec fn view(&self) -> FieldView {
        match *self {
            TomlField::Text(s) => FieldView::Text(s@),
            TomlField::List(list) => FieldView::List(items_view(list@)),
            TomlField::Other => FieldView::Other,
        }
    }
}

impl View for TomlValue {
    type V = ValueView;

    open spec fn view(&self) -> ValueView {
        match *self {
            TomlValue::Text(s) => ValueView::Text(s@),
            TomlValue::Number(n) => ValueView::Number(n),
            TomlValue::List(list) => ValueView::List(items_view(list@)),
            TomlValue::Table(fields) => ValueView::Table(fields_view(fields@)),
            TomlValue::Other => ValueView::Other,
        }
    }
}

/// What stands behind a name, if it is in the list.
pub open spec fn behind<V>(list: Seq<(Seq<char>, V)>, name: Seq<char>, k: nat) -> Option<V>
    decreases k,
{
    if k == 0 || k > list.len() {
        None
    } else if list[k - 1].0 == name {
        Some(list[k - 1].1)
    } else {
        behind(list, name, (k - 1) as nat)
    }
}

/// What stands behind a name of a list, if it is there.
pub open spec fn found<V>(list: Seq<(Seq<char>, V)>, name: Seq<char>) -> Option<V> {
    behind(list, name, list.len())
}

/// What a value of a document is. A floating-point number is known by its bits,
/// but for `nan`: that is one value, whatever its sign and its bits. A date is
/// known by its text.
#[verifier::ext_equal]
pub enum TomlTree {
    Text(Seq<char>),
    Number(i64),
    Flag(bool),
    Float(u64),
    NotANumber,
    Date(Seq<char>),
    List(Seq<TomlTree>),
    Table(Seq<(Seq<char>, TomlTree)>),
}

/// The text that an item of a list is, if it is one.
pub open spec fn text_item(item: TomlTree) -> Option<Seq<char>> {
    match item {
        TomlTree::Text(s) => Some(s),
        _ => None,
    }
}

/// What is seen of a value in a table.
pub open spec fn seen_field(value: TomlTree) -> FieldView {
    match value {
        TomlTree::Text(s) => FieldView::Text(s),
        TomlTree::List(items) => FieldView::List(items.map_values(|t: TomlTree| text_item(t))),
        _ => FieldView::Other,
    }
}

/// What is seen of a value of a document.
pub open spec fn seen_value(value: TomlTree) -> ValueView {
    match value {
        TomlTree::Text(s) => ValueView::Text(s),
        TomlTree::Number(n) => ValueView::Number(n),
        TomlTree::List(items) => ValueView::List(items.map_values(|t: TomlTree| text_item(t))),
        TomlTree::Table(fields) => ValueView::Table(
            fields.map_values(|e: (Seq<char>, TomlTree)| (e.0, seen_field(e.1))),
        ),
        _ => ValueView::Other,
    }
}

/// What is seen of a document.
pub open spec fn seen(doc: Seq<(Seq<char>, TomlTree)>) -> Seq<(Seq<char>, ValueView)> {
    doc.map_values(|e: (Seq<char>, TomlTree)| (e.0, seen_value(e.1)))
}

/// Whether the names of a list are in order, and none stands twice.
pub open spec fn in_order<V>(list: Seq<(Seq<char>, V)>) -> bool {
    forall|i: int, j: int|
        0 <= i < j < list.len() ==> text_le(#[trigger] list[i].0, #[trigger] list[j].0)
            && list[i].0 != list[j].0
}

/// Whether the names of every table in a value are in order.
pub open spec fn tables_in_order(value: TomlTree) -> bool
    decreases value,
{
    match value {
        TomlTree::List(items) => forall|i: int|
            0 <= i < items.len() ==> tables_in_order(#[trigger] items[i]),
        TomlTree::Table(fields) => in_order(fields) && forall|i: int|
            0 <= i < fields.len() ==> tables_in_order((#[trigger] fields[i]).1),
        _ => true,
    }
}

/// Whether the names of a document and of every table in it are in order.
pub open spec fn is_ordered(doc: Seq<(Seq<char>, TomlTree)>) -> bool {
    in_order(doc) && forall|i: int| 0 <= i < doc.len() ==> tables_in_order((#[trigger] doc[i]).1)
}

/// The first entry from the `i`-th on that does not come before a name.
pub open spec fn entry_place<V>(list: Seq<(Seq<char>, V)>, name: Seq<char>, i: nat) -> nat
    decreases list.len() - i,
{
    if i >= list.len() || text_le(name, list[i as int].0) {
        i
    } else {
        entry_place(list, name, i + 1)
    }
}

/// A list in order with a value behind a name: in place of the one that stood
/// there, if there was one.
pub open spec fn with_entry<V>(list: Seq<(Seq<char>, V)>, name: Seq<char>, value: V) -> Seq<
    (Seq<char>, V),
> {
    let k = entry_place(list, name, 0) as int;
    if k < list.len() && list[k].0 == name {
        list.update(k, (name, value))
    } else {
        list.insert(k, (name, value))
    }
}

/// The table of the first `k` of a list of texts.
pub open spec fn tree_of_texts(entries: Seq<(Seq<char>, Seq<char>)>, k: nat) -> Seq<
    (Seq<char>, TomlTree),
>
    decreases k,
{
    if k == 0 {
        Seq::empty()
    } else {
        with_entry(
            tree_of_texts(entries, (k - 1) as nat),
            entries[k - 1].0,
            TomlTree::Text(entries[k - 1].1),
        )
    }
}

/// Single or double.
#[verifier::allow_in_spec]
pub fn is_mark(c: char) -> bool
    returns
        c == '"' || c == '\'',
{
    c == '"' || c == '\''
}

/// How many quotation marks stand at the end of the first `k` characters with
/// nothing between them.
pub open spec fn marks_before(s: Seq<char>, k: nat) -> nat
    decreases k,
{
    if k == 0 || k > s.len() || !is_mark(s[k - 1]) {
        0
    } else {
        marks_before(s, (k - 1) as nat) + 1
    }
}

/// How many quotation marks in a row a text may hold to be written as TOML.
pub const MARKS_LIMIT: u16 = 255;

/// Whether a text holds no more quotation marks in a row than can be written as
/// TOML.
pub open spec fn marks_fit(s: Seq<char>) -> bool {
    forall|k: nat| k <= s.len() ==> #[trigger] marks_before(s, k) <= MARKS_LIMIT
}

/// Whether a text holds no more quotation marks in a row than can be written as
/// TOML.
pub fn can_write(s: &str) -> (yes: bool)
    ensures
        yes == marks_fit(s@),
{
    let cs = chars_of(s);
    let mut n: u16 = 0;
    let mut i: usize = 0;
    while i < cs.len()
        invariant
            i <= cs@.len(),
            cs@ == s@,
            n == marks_before(s@, i as nat),
            forall|k: nat| k <= i ==> #[trigger] marks_before(s@, k) <= MARKS_LIMIT,
        decreases cs@.len() - i,
    {
        if !is_mark(cs[i]) {
            n = 0;
        } else if n >= MARKS_LIMIT {
            assert(marks_before(s@, (i + 1) as nat) > MARKS_LIMIT);
            return false;
        } else {
            n += 1;
        }
        i += 1;
    }
    true
}

/// A quotation mark, or the letter of its escape.
#[verifier::allow_in_spec]
pub fn is_spelled_mark(c: char) -> bool
    returns
        is_mark(c) || c == 'u' || c == 'U',
{
    is_mark(c) || c == 'u' || c == 'U'
}

/// What an escape of a quotation mark holds, or a line break that is no part of
/// a text.
#[verifier::allow_in_spec]
pub fn is_between_marks(c: char) -> bool
    returns
        c == '\\' || c == '0' || c == '2' || c == '7' || c == ' ' || c == '\t' || c == '\n' || c
            == '\r',
{
    c == '\\' || c == '0' || c == '2' || c == '7' || c == ' ' || c == '\t' || c == '\n' || c
        == '\r'
}

/// How many quotation marks in a row the first `k` characters of a document may
/// spell at their end, as they are or as escapes.
pub open spec fn spelled_before(s: Seq<char>, k: nat) -> nat
    decreases k,
{
    if k == 0 || k > s.len() {
        0
    } else {
        let before = spelled_before(s, (k - 1) as nat);
        if is_spelled_mark(s[k - 1]) {
            before + 1
        } else if is_between_marks(s[k - 1]) {
            before
        } else {
            0
        }
    }
}

/// Whether a document cannot spell a text with more quotation marks in a row
/// than can be written.
pub open spec fn spelled_marks_fit(s: Seq<char>) -> bool {
    forall|k: nat| k <= s.len() ==> #[trigger] spelled_before(s, k) <= MARKS_LIMIT
}

/// Whether a document cannot spell a text with more quotation marks in a row
/// than can be written.
pub fn can_rewrite(s: &str) -> (yes: bool)
    ensures
        yes == spelled_marks_fit(s@),
{
    let cs = chars_of(s);
    let mut n: u16 = 0;
    let mut i: usize = 0;
    while i < cs.len()
        invariant
            i <= cs@.len(),
            cs@ == s@,
            n == spelled_before(s@, i as nat),
            forall|k: nat| k <= i ==> #[trigger] spelled_before(s@, k) <= MARKS_LIMIT,
        decreases cs@.len() - i,
    {
        let c = cs[i];
        if is_spelled_mark(c) {
            if n >= MARKS_LIMIT {
                assert(spelled_before(s@, (i + 1) as nat) > MARKS_LIMIT);
                return false;
            }
            n += 1;
        } else if !is_between_marks(c) {
            n = 0;
        }
        i += 1;
    }
    true
}

/// Whether every text in a value can be written.
pub open spec fn texts_fit(value: TomlTree) -> bool
    decreases value,
{
    match value {
        TomlTree::Text(s) => marks_fit(s),
        TomlTree::List(items) => forall|i: int|
            0 <= i < items.len() ==> texts_fit(#[trigger] items[i]),
        TomlTree::Table(fields) => forall|i: int|
            0 <= i < fields.len() ==> texts_fit((#[trigger] fields[i]).1),
        _ => true,
    }
}

/// Whether every text in a document can be written.
pub open spec fn document_fits(doc: Seq<(Seq<char>, TomlTree)>) -> bool {
    forall|i: int| 0 <= i < doc.len() ==> texts_fit((#[trigger] doc[i]).1)
}

/// A table that begins with this name is read as a date.
pub const DATE_NAME: &'static str = "$__toml_private_datetime";

/// Whether lists and tables are nested no more than `depth` deep in a value, and
/// no table in it has the name by which a date is known.
pub open spec fn nests_within(value: TomlTree, depth: nat) -> bool
    decreases depth,
{
    match value {
        TomlTree::List(items) => depth > 0 && forall|i: int|
            0 <= i < items.len() ==> nests_within(#[trigger] items[i], (depth - 1) as nat),
        TomlTree::Table(fields) => depth > 0 && forall|i: int|
            0 <= i < fields.len() ==> (#[trigger] fields[i]).0 != DATE_NAME@ && nests_within(
                fields[i].1,
                (depth - 1) as nat,
            ),
        _ => true,
    }
}

/// How deep a document may be nested to be read again once it is written.
pub const NESTING_LIMIT: u8 = 64;

/// Whether a document can be read again once it is written.
pub open spec fn is_rereadable(doc: Seq<(Seq<char>, TomlTree)>) -> bool {
    forall|i: int|
        0 <= i < doc.len() ==> nests_within((#[trigger] doc[i]).1, NESTING_LIMIT as nat)
}

/// What a `toml::Table` holds, in the order of its names. Every `nan` in it is
/// the same.
pub uninterp spec fn table_tree(table: toml::Table) -> Seq<(Seq<char>, TomlTree)>;

/// What a `toml::Value` is. Every `nan` is the same, whatever its sign and its
/// bits.
pub uninterp spec fn value_tree(value: toml::Value) -> TomlTree;

/// The document that a text is; an error where it is none. `nan`, `+nan` and
/// `-nan` are the same in it.
pub uninterp spec fn toml_tree(text: Seq<char>) -> Result<Seq<(Seq<char>, TomlTree)>, Seq<char>>;

/// The text of a document.
pub uninterp spec fn toml_text(doc: Seq<(Seq<char>, TomlTree)>) -> Seq<char>;

/// What is seen of the document that a text is.
pub open spec fn toml_document(text: Seq<char>) -> Result<
    Seq<(Seq<char>, ValueView)>,
    Seq<char>,
> {
    match toml_tree(text) {
        Ok(doc) => Ok(seen(doc)),
        Err(e) => Err(e),
    }
}

/// What parsing a document gave.
pub open spec fn parsed_view(out: Result<toml::Table, String>) -> Result<
    Seq<(Seq<char>, TomlTree)>,
    Seq<char>,
> {
    match out {
        Ok(table) => Ok(table_tree(table)),
        Err(e) => Err(e@),
    }
}

/// Reads a `toml::Table` from the text (`str::parse`): a function of the text.
/// The names of each table are in order, and none stands twice. A text in the
/// document has no more quotation marks in a row than the document spells.
#[verifier::external_body]
fn parse_toml(text: &str) -> (out: Result<toml::Table, String>)
    ensures
        parsed_view(out) == toml_tree(text@),
        out matches Ok(table) ==> is_ordered(table_tree(table)),
        out matches Ok(table) ==> (spelled_marks_fit(text@) ==> document_fits(table_tree(table))),
{
    text.parse().map_err(|e: toml::de::Error| e.to_string())
}

/// `toml::Table::new`: holds nothing.
#[verifier::external_body]
fn new_table() -> (table: toml::Table)
    ensures
        table_tree(table) == Seq::<(Seq<char>, TomlTree)>::empty(),
{
    toml::Table::new()
}

/// `toml::Table::insert`: puts the value behind the name, in place of what stood
/// there. The names stay in order.
#[verifier::external_body]
fn insert_value(table: &mut toml::Table, name: String, value: toml::Value)
    ensures
        table_tree(*final(table)) == with_entry(table_tree(*old(table)), name@, value_tree(value)),
{
    table.insert(name, value);
}

/// A `toml::Value` that is a text.
#[verifier::external_body]
fn text_value(text: String) -> (value: toml::Value)
    ensures
        value_tree(value) == TomlTree::Text(text@),
{
    toml::Value::String(text)
}

/// A `toml::Value` that is a table.
#[verifier::external_body]
fn table_value(table: toml::Table) -> (value: toml::Value)
    ensures
        value_tree(value) == TomlTree::Table(table_tree(table)),
{
    toml::Value::Table(table)
}

/// `toml::to_string_pretty` of a table: a function of what it holds; it does not
/// fail. What is written reads back as the table, unless that is nested deeply
/// (the reader has a limit to nesting) or a table in it has the name by which a
/// date is known (it may come first in what is written). The sign of a `nan` is
/// not written, and nothing is claimed of it or of its bits. A text with more
/// quotation marks in a row than the writer can count is left out.
#[verifier::external_body]
fn write_toml(table: &toml::Table) -> (out: Result<String, String>)
    requires
        document_fits(table_tree(*table)),
    ensures
        out is Ok,
        out matches Ok(text) ==> text@ == toml_text(table_tree(*table)),
        out matches Ok(text) ==> (is_rereadable(table_tree(*table)) ==> toml_tree(text@) == Ok::<
            Seq<(Seq<char>, TomlTree)>,
            Seq<char>,
        >(table_tree(*table))),
{
    toml::to_string_pretty(table).map_err(|e| e.to_string())
}

/// Converts a `toml::Value` inside a table.
#[verifier::external_body]
fn toml_field(value: toml::Value) -> (field: TomlField)
    ensures
        field@ == seen_field(value_tree(value)),
{
    let text = |v: toml::Value| v.as_str().map(|s| s.to_string());
    match value {
        toml::Value::String(s) => TomlField::Text(s),
        toml::Value::Array(list) => TomlField::List(list.into_iter().map(text).collect()),
        _ => TomlField::Other,
    }
}

/// Converts a `toml::Value` at the top of a document.
#[verifier::external_body]
fn toml_value(value: toml::Value) -> (out: TomlValue)
    ensures
        out@ == seen_value(value_tree(value)),
{
    let text = |v: toml::Value| v.as_str().map(|s| s.to_string());
    let field = |(name, v): (String, toml::Value)| (name, toml_field(v));
    match value {
        toml::Value::String(s) => TomlValue::Text(s),
        toml::Value::Integer(n) => TomlValue::Number(n),
        toml::Value::Array(list) => TomlValue::List(list.into_iter().map(text).collect()),
        toml::Value::Table(table) => TomlValue::Table(table.into_iter().map(field).collect()),
        _ => TomlValue::Other,
    }
}

/// `toml::Table::into_iter`: the entries of a table in the order of their names,
/// each converted.
#[verifier::external_body]
fn table_entries(table: toml::Table) -> (out: Vec<(String, TomlValue)>)
    ensures
        entries_view(out@) == seen(table_tree(table)),
{
    table.into_iter().map(|(name, v)| (name, toml_value(v))).collect()
}

/// What reading a document gave.
pub open spec fn read_view(
    out: Result<Vec<(String, TomlValue)>, String>,
) -> Result<Seq<(Seq<char>, ValueView)>, Seq<char>> {
    match out {
        Ok(doc) => Ok(entries_view(doc@)),
        Err(e) => Err(e@),
    }
}

/// The entries of the document that a text is.
pub fn read_toml(text: &str) -> (out: Result<Vec<(String, TomlValue)>, String>)
    ensures
        read_view(out) == toml_document(text@),
{
    match parse_toml(text) {
        Ok(table) => Ok(table_entries(table)),
        Err(e) => Err(e),
    }
}

/// A document with a table of texts behind a name.
pub open spec fn with_table(
    doc: Seq<(Seq<char>, TomlTree)>,
    name: Seq<char>,
    entries: Seq<(Seq<char>, Seq<char>)>,
) -> Seq<(Seq<char>, TomlTree)> {
    with_entry(doc, name, TomlTree::Table(tree_of_texts(entries, entries.len())))
}

/// What writing a document gave.
pub open spec fn written_view(out: Result<String, String>) -> Result<Seq<char>, Seq<char>> {
    match out {
        Ok(text) => Ok(text@),
        Err(e) => Err(e@),
    }
}

/// The text of a document with a table of texts behind a name; the error of the
/// document where it cannot be read.
pub open spec fn rewritten(
    document: Seq<char>,
    name: Seq<char>,
    entries: Seq<(Seq<char>, Seq<char>)>,
) -> Result<Seq<char>, Seq<char>> {
    match toml_tree(document) {
        Ok(doc) => Ok(toml_text(with_table(doc, name, entries))),
        Err(e) => Err(e),
    }
}

/// Whether one document is another with the value behind one name replaced, and
/// every other value just as it was (a `nan` with either sign).
pub open spec fn differs_behind(
    before: Seq<(Seq<char>, TomlTree)>,
    after: Seq<(Seq<char>, TomlTree)>,
    name: Seq<char>,
    value: TomlTree,
) -> bool {
    &&& found(after, name) == Some(value)
    &&& forall|n: Seq<char>| n != name ==> #[trigger] found(after, n) == found(before, n)
}

/// Whether a text is what a document became: its names are in order, one value
/// of it was replaced, and read again the text is the document with the table in
/// place, unless that is nested too deeply or holds the name by which a date is
/// known. Nothing is said of the sign of a `nan`.
pub open spec fn became(
    document: Seq<char>,
    text: Seq<char>,
    name: Seq<char>,
    entries: Seq<(Seq<char>, Seq<char>)>,
) -> bool {
    &&& toml_tree(document) is Ok
    &&& is_ordered(toml_tree(document)->Ok_0)
    &&& differs_behind(
        toml_tree(document)->Ok_0,
        with_table(toml_tree(document)->Ok_0, name, entries),
        name,
        TomlTree::Table(tree_of_texts(entries, entries.len())),
    )
    &&& is_rereadable(with_table(toml_tree(document)->Ok_0, name, entries)) ==> toml_tree(text)
        == Ok::<Seq<(Seq<char>, TomlTree)>, Seq<char>>(
        with_table(toml_tree(document)->Ok_0, name, entries),
    )
}

/// Puts a table of texts behind a name of a document.
pub fn set_toml_table(document: &str, name: &str, entries: &Vec<(String, String)>) -> (out: Result<
    String,
    String,
>)
    requires
        spelled_marks_fit(document@),
        forall|i: int| 0 <= i < entries@.len() ==> marks_fit((#[trigger] entries@[i]).1@),
    ensures
        written_view(out) == rewritten(document@, name@, pairs_view(entries@)),
        out matches Ok(text) ==> became(document@, text@, name@, pairs_view(entries@)),
{
    let mut table = match parse_toml(document) {
        Ok(table) => table,
        Err(e) => return Err(e),
    };
    let ghost pairs = pairs_view(entries@);
    let ghost before = table_tree(table);
    let mut inner = new_table();
    let mut i: usize = 0;
    while i < entries.len()
        invariant
            i <= entries@.len(),
            pairs == pairs_view(entries@),
            forall|k: int| 0 <= k < entries@.len() ==> marks_fit((#[trigger] entries@[k]).1@),
            table_tree(inner) == tree_of_texts(pairs, i as nat),
            document_fits(table_tree(inner)),
        decreases entries@.len() - i,
    {
        proof {
            assert(pairs[i as int] == (entries@[i as int].0@, entries@[i as int].1@));
            assert(marks_fit(entries@[i as int].1@));
            lemma_entry_fits(table_tree(inner), pairs[i as int].0, TomlTree::Text(pairs[i as int].1));
        }
        let value = text_value(entries[i].1.clone());
        insert_value(&mut inner, entries[i].0.clone(), value);
        i += 1;
    }
    let ghost value = TomlTree::Table(table_tree(inner));
    proof {
        assert(pairs.len() == entries@.len());
        lemma_entry_fits(before, name@, value);
        law_entry_replaces(before, name@, value);
    }
    let section = table_value(inner);
    insert_value(&mut table, name.to_owned(), section);
    write_toml(&table)
}

proof fn lemma_text_le_same(a: Seq<char>, b: Seq<char>)
    ensures
        text_le(a, a),
        text_le(a, b) && text_le(b, a) ==> a == b,
    decreases a.len(),
{
    if a.len() > 0 {
        lemma_text_le_same(a.skip(1), b.skip(1));
        if b.len() > 0 && a[0] == b[0] && a.skip(1) == b.skip(1) {
            assert(a =~= seq![a[0]] + a.skip(1));
            assert(b =~= seq![b[0]] + b.skip(1));
        }
    } else if b.len() == 0 {
        assert(a =~= b);
    }
}

proof fn lemma_entry_place<V>(list: Seq<(Seq<char>, V)>, name: Seq<char>, i: nat)
    requires
        i <= list.len(),
    ensures
        i <= entry_place(list, name, i) <= list.len(),
        forall|k: int|
            i <= k < entry_place(list, name, i) ==> !text_le(name, (#[trigger] list[k]).0),
        entry_place(list, name, i) < list.len() ==> text_le(
            name,
            list[entry_place(list, name, i) as int].0,
        ),
    decreases list.len() - i,
{
    if i < list.len() && !text_le(name, list[i as int].0) {
        lemma_entry_place(list, name, i + 1);
    }
}

/// Where no name stands twice, what is found behind a name is what stands there.
pub proof fn lemma_found_at<V>(list: Seq<(Seq<char>, V)>, name: Seq<char>)
    requires
        names_differ(list),
    ensures
        forall|i: int|
            0 <= i < list.len() && (#[trigger] list[i]).0 == name ==> found(list, name) == Some(
                list[i].1,
            ),
        (forall|i: int| 0 <= i < list.len() ==> (#[trigger] list[i]).0 != name) ==> found(
            list,
            name,
        ) is None,
{
    lemma_behind(list, name, list.len());
}

/// Putting a value behind a name of a list in order changes what is found behind
/// that name, and nothing else; the list stays in order.
pub proof fn law_entry_replaces<V>(list: Seq<(Seq<char>, V)>, name: Seq<char>, value: V)
    requires
        in_order(list),
    ensures
        in_order(with_entry(list, name, value)),
        found(with_entry(list, name, value), name) == Some(value),
        forall|n: Seq<char>|
            n != name ==> #[trigger] found(with_entry(list, name, value), n) == found(list, n),
{
    let k = entry_place(list, name, 0) as int;
    let after = with_entry(list, name, value);
    lemma_entry_place(list, name, 0);
    assert forall|i: int| 0 <= i < k implies text_le((#[trigger] list[i]).0, name) && list[i].0
        != name by {
        lemma_text_le_total(list[i].0, name);
        lemma_text_le_same(name, name);
    }
    assert forall|i: int| k <= i < list.len() implies text_le(name, (#[trigger] list[i]).0) by {
        if i > k {
            lemma_text_le_transitive(name, list[k].0, list[i].0);
        }
    }
    assert forall|i: int| k < i < list.len() implies (#[trigger] list[i]).0 != name by {
        lemma_text_le_same(name, list[k].0);
        lemma_text_le_same(list[k].0, list[i].0);
    }
    assert(in_order(after));
    assert(after[k] == (name, value));
    lemma_found_at(after, name);
    assert forall|n: Seq<char>| n != name implies #[trigger] found(after, n) == found(list, n) by {
        lemma_found_at(after, n);
        lemma_found_at(list, n);
        lemma_behind(list, n, list.len());
        if found(list, n) is Some {
            let i = choose|i: int| 0 <= i < list.len() && (#[trigger] list[i]).0 == n;
            if list[k].0 == name && k < list.len() {
                assert(after[i] == list[i]);
            } else if i < k {
                assert(after[i] == list[i]);
            } else {
                assert(after[i + 1] == list[i]);
            }
        } else {
            assert forall|i: int| 0 <= i < after.len() implies (#[trigger] after[i]).0 != n by {
                if k < list.len() && list[k].0 == name {
                    if i != k {
                        assert(after[i] == list[i]);
                    }
                } else if i < k {
                    assert(after[i] == list[i]);
                } else if i > k {
                    assert(after[i] == list[i - 1]);
                }
            }
        }
    }
}

proof fn lemma_entry_fits(list: Seq<(Seq<char>, TomlTree)>, name: Seq<char>, value: TomlTree)
    requires
        document_fits(list),
        texts_fit(value),
    ensures
        document_fits(with_entry(list, name, value)),
{
    let k = entry_place(list, name, 0) as int;
    let after = with_entry(list, name, value);
    lemma_entry_place(list, name, 0);
    assert forall|i: int| 0 <= i < after.len() implies texts_fit((#[trigger] after[i]).1) by {
        if i == k {
        } else if k < list.len() && list[k].0 == name {
            assert(after[i] == list[i]);
        } else if i < k {
            assert(after[i] == list[i]);
        } else {
            assert(after[i] == list[i - 1]);
        }
    }
}

/// What is found in what is seen of a document.
pub proof fn lemma_seen_found(doc: Seq<(Seq<char>, TomlTree)>, name: Seq<char>, k: nat)
    ensures
        behind(seen(doc), name, k) == (match behind(doc, name, k) {
            Some(v) => Some(seen_value(v)),
            None => None,
        }),
    decreases k,
{
    if 0 < k <= doc.len() {
        lemma_seen_found(doc, name, (k - 1) as nat);
    }
}

/// What is found in what is seen of a table.
pub proof fn lemma_seen_field(fields: Seq<(Seq<char>, TomlTree)>, name: Seq<char>, k: nat)
    ensures
        behind(
            fields.map_values(|e: (Seq<char>, TomlTree)| (e.0, seen_field(e.1))),
            name,
            k,
        ) == (match behind(fields, name, k) {
            Some(v) => Some(seen_field(v)),
            None => None,
        }),
    decreases k,
{
    if 0 < k <= fields.len() {
        lemma_seen_field(fields, name, (k - 1) as nat);
    }
}

/// A table of texts holds the texts and nothing else.
pub proof fn lemma_tree_of_texts(entries: Seq<(Seq<char>, Seq<char>)>, k: nat)
    requires
        k <= entries.len(),
    ensures
        in_order(tree_of_texts(entries, k)),
        forall|name: Seq<char>| #[trigger]
            found(tree_of_texts(entries, k), name) == (match behind(entries, name, k) {
                Some(text) => Some(TomlTree::Text(text)),
                None => None,
            }),
    decreases k,
{
    if k > 0 {
        lemma_tree_of_texts(entries, (k - 1) as nat);
        law_entry_replaces(
            tree_of_texts(entries, (k - 1) as nat),
            entries[k - 1].0,
            TomlTree::Text(entries[k - 1].1),
        );
    }
}

/// Whether no name stands twice in a list.
pub open spec fn names_differ<V>(list: Seq<(Seq<char>, V)>) -> bool {
    forall|i: int, j: int| 0 <= i < j < list.len() ==> #[trigger] list[i].0 != #[trigger] list[j].0
}

/// Whether a list holds texts and nothing else.
pub open spec fn all_texts(items: Seq<Option<Seq<char>>>) -> bool {
    forall|i: int| 0 <= i < items.len() ==> (#[trigger] items[i]) is Some
}

/// A list of texts as a value of a document.
pub open spec fn text_list(list: Seq<Seq<char>>) -> TomlTree {
    TomlTree::List(list.map_values(|s: Seq<char>| TomlTree::Text(s)))
}

/// The text of a TOML document with a list of texts and a number.
pub uninterp spec fn toml_list_and_number(
    list_name: Seq<char>,
    list: Seq<Seq<char>>,
    number_name: Seq<char>,
    number: i64,
) -> Seq<char>;

/// Whether a document holds a list of texts and a number, each behind its name.
pub open spec fn holds_pair(
    doc: Result<Seq<(Seq<char>, TomlTree)>, Seq<char>>,
    list_name: Seq<char>,
    list: Seq<Seq<char>>,
    number_name: Seq<char>,
    number: i64,
) -> bool {
    &&& doc is Ok
    &&& found(doc->Ok_0, list_name) == Some(text_list(list))
    &&& found(doc->Ok_0, number_name) == Some(TomlTree::Number(number))
}

/// `toml::Serializer::pretty` given a map of two entries, a list of strings and
/// then a number: a function of the four. It is more than white space and reads
/// back as it was. Texts with more quotation marks in a row than the writer can
/// count are left out.
#[verifier::external_body]
pub(crate) fn write_list_and_number(
    list_name: &str,
    list: &Vec<String>,
    number_name: &str,
    number: i64,
) -> (out: Result<String, String>)
    requires
        list_name@ != number_name@,
        forall|i: int| 0 <= i < list@.len() ==> marks_fit((#[trigger] list@[i])@),
    ensures
        out is Ok,
        out matches Ok(text) ==> text@ == toml_list_and_number(
            list_name@,
            texts(list@),
            number_name@,
            number,
        ),
        out matches Ok(text) ==> !is_blank(text@),
        out matches Ok(text) ==> holds_pair(
            toml_tree(text@),
            list_name@,
            texts(list@),
            number_name@,
            number,
        ),
{
    let mut text = String::new();
    let pretty = toml::Serializer::pretty(&mut text);
    let mut map = pretty.serialize_map(Some(2)).map_err(|e| e.to_string())?;
    map.serialize_entry(list_name, list).map_err(|e| e.to_string())?;
    map.serialize_entry(number_name, &number).map_err(|e| e.to_string())?;
    map.end().map_err(|e| e.to_string())?;
    Ok(text)
}

/// The place of a name in a list.
pub proof fn lemma_behind<V>(list: Seq<(Seq<char>, V)>, name: Seq<char>, k: nat)
    requires
        k <= list.len(),
    ensures
        behind(list, name, k) matches Some(v) ==> exists|i: int|
            0 <= i < k && (#[trigger] list[i]).0 == name && list[i].1 == v,
        behind(list, name, k) is None ==> forall|i: int|
            0 <= i < k ==> (#[trigger] list[i]).0 != name,
    decreases k,
{
    if k > 0 {
        if list[k - 1].0 == name {
            assert(list[k - 1].1 == behind(list, name, k)->0);
        } else {
            lemma_behind(list, name, (k - 1) as nat);
        }
    }
}

/// The place of what stands behind a name of a document, if it is there.
pub fn find_entry(doc: &Vec<(String, TomlValue)>, name: &str) -> (at: Option<usize>)
    ensures
        (match at {
            Some(i) => i < doc@.len() && found(entries_view(doc@), name@) == Some(doc@[i as int].1@),
            None => found(entries_view(doc@), name@) is None,
        }),
{
    let mut k: usize = doc.len();
    while k > 0
        invariant
            k <= doc@.len(),
            found(entries_view(doc@), name@) == behind(entries_view(doc@), name@, k as nat),
        decreases k,
    {
        assert(entries_view(doc@)[k - 1] == (doc@[k - 1].0@, doc@[k - 1].1@));
        if same_text(doc[k - 1].0.as_str(), name) {
            return Some(k - 1);
        }
        k -= 1;
    }
    None
}

/// The place of what stands behind a name of a table, if it is there.
pub fn find_field(fields: &Vec<(String, TomlField)>, name: &str) -> (at: Option<usize>)
    ensures
        (match at {
            Some(i) => i < fields@.len() && found(fields_view(fields@), name@) == Some(
                fields@[i as int].1@,
            ),
            None => found(fields_view(fields@), name@) is None,
        }),
{
    let mut k: usize = fields.len();
    while k > 0
        invariant
            k <= fields@.len(),
            found(fields_view(fields@), name@) == behind(fields_view(fields@), name@, k as nat),
        decreases k,
    {
        assert(fields_view(fields@)[k - 1] == (fields@[k - 1].0@, fields@[k - 1].1@));
        if same_text(fields[k - 1].0.as_str(), name) {
            return Some(k - 1);
        }
        k -= 1;
    }
    None
}

} // verus!
