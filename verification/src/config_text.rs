//! The text of a configuration file: its sections and fields.

use crate::config::{
    bindings_view, bound, field, known_provider, law_saved_llm_reads_back,
    lemma_date_is_no_action, llm_section, parsed_keys, provider_name, with_llm_section, Config,
    ConfigError, ConfigErrorView, ConfigView, FileConfig, FileView, LlmView,
};
use crate::fuzzy::strs;
use crate::text::{opt_text, same_text, texts, trimmed};
use crate::toml_doc::{
    all_texts, became, behind, differs_behind, entries_view, fields_view, find_entry, find_field,
    found, in_order, is_ordered, is_rereadable, items_view, law_entry_replaces, lemma_behind,
    lemma_found_at, lemma_seen_field, lemma_seen_found, lemma_tree_of_texts, nests_within,
    read_toml, seen, seen_field, seen_value, tables_in_order, text_item, toml_document, toml_tree, tree_of_texts,
    with_table, FieldView, TomlField, TomlTree, TomlValue, ValueView, DATE_NAME, NESTING_LIMIT,
};
use vstd::prelude::*;
use vstd::string::*;

verus! {

/// The sections of a configuration file.
pub const SECTIONS: [&'static str; 3] = ["keys", "theme", "llm"];

/// The fields of its `[theme]` section, in their order.
pub const THEME_FIELDS: [&'static str; 1] = ["name"];

/// The fields of its `[llm]` section, in their order.
pub const LLM_FIELDS: [&'static str; 4] = ["provider", "model", "api_key", "base_url"];

/// The first name from the `i`-th on that is not among the known ones.
pub open spec fn unknown_from<V>(
    list: Seq<(Seq<char>, V)>,
    known: Seq<Seq<char>>,
    i: nat,
) -> Option<Seq<char>>
    decreases list.len() - i,
{
    if i >= list.len() {
        None
    } else if !known.contains(list[i as int].0) {
        Some(list[i as int].0)
    } else {
        unknown_from(list, known, i + 1)
    }
}

/// The texts of a list that holds nothing else.
pub open spec fn texts_in(items: Seq<Option<Seq<char>>>) -> Seq<Seq<char>> {
    items.map_values(|s: Option<Seq<char>>| s->0)
}

/// The keys that an action is bound to: one, or a list.
pub open spec fn bound_names(action: Seq<char>, value: FieldView) -> Result<
    Seq<Seq<char>>,
    ConfigErrorView,
> {
    match value {
        FieldView::Text(name) => Ok(seq![name]),
        FieldView::List(items) => if all_texts(items) {
            Ok(texts_in(items))
        } else {
            Err(ConfigErrorView::WrongType { name: action })
        },
        FieldView::Other => Err(ConfigErrorView::WrongType { name: action }),
    }
}

/// The bindings of the first `k` actions.
pub open spec fn bindings_upto(fields: Seq<(Seq<char>, FieldView)>, k: nat) -> Result<
    Seq<(Seq<char>, Seq<Seq<char>>)>,
    ConfigErrorView,
>
    decreases k,
{
    if k == 0 || k > fields.len() {
        Ok(Seq::empty())
    } else {
        match bindings_upto(fields, (k - 1) as nat) {
            Err(e) => Err(e),
            Ok(list) => match bound_names(fields[k - 1].0, fields[k - 1].1) {
                Err(e) => Err(e),
                Ok(names) => Ok(list.push((fields[k - 1].0, names))),
            },
        }
    }
}

/// The bindings of the `[keys]` section.
pub open spec fn bindings_of(section: Option<ValueView>) -> Result<
    Seq<(Seq<char>, Seq<Seq<char>>)>,
    ConfigErrorView,
> {
    match section {
        None => Ok(Seq::empty()),
        Some(ValueView::Table(fields)) => bindings_upto(fields, fields.len()),
        Some(_) => Err(ConfigErrorView::WrongType { name: "keys"@ }),
    }
}

/// The text of the `i`-th field of a section: behind its name in a table, or in
/// its place in a list.
pub open spec fn field_text(section: ValueView, names: Seq<Seq<char>>, i: int) -> Result<
    Option<Seq<char>>,
    ConfigErrorView,
> {
    let wrong = Err(ConfigErrorView::WrongType { name: names[i] });
    match section {
        ValueView::Table(fields) => match found(fields, names[i]) {
            None => Ok(None),
            Some(FieldView::Text(text)) => Ok(Some(text)),
            Some(_) => wrong,
        },
        ValueView::List(items) => if i >= items.len() {
            Ok(None)
        } else {
            match items[i] {
                Some(text) => Ok(Some(text)),
                None => wrong,
            }
        },
        _ => wrong,
    }
}

/// The texts of the first `k` fields of a section.
pub open spec fn texts_upto(section: ValueView, names: Seq<Seq<char>>, k: nat) -> Result<
    Seq<Option<Seq<char>>>,
    ConfigErrorView,
>
    decreases k,
{
    if k == 0 {
        Ok(Seq::empty())
    } else {
        match texts_upto(section, names, (k - 1) as nat) {
            Err(e) => Err(e),
            Ok(list) => match field_text(section, names, k - 1) {
                Err(e) => Err(e),
                Ok(text) => Ok(list.push(text)),
            },
        }
    }
}

/// The texts of the fields of a section. A table holds no other fields.
pub open spec fn section_texts(
    section: Option<ValueView>,
    title: Seq<char>,
    names: Seq<Seq<char>>,
) -> Result<Seq<Option<Seq<char>>>, ConfigErrorView> {
    match section {
        None => Ok(Seq::new(names.len(), |i: int| None)),
        Some(ValueView::Table(fields)) => match unknown_from(fields, names, 0) {
            Some(name) => Err(ConfigErrorView::UnknownField { section: title, name }),
            None => texts_upto(ValueView::Table(fields), names, names.len()),
        },
        Some(ValueView::List(items)) => texts_upto(ValueView::List(items), names, names.len()),
        Some(_) => Err(ConfigErrorView::WrongType { name: title }),
    }
}

/// What a document asks for. There are no sections but the known ones.
pub open spec fn file_of(doc: Seq<(Seq<char>, ValueView)>) -> Result<FileView, ConfigErrorView> {
    match unknown_from(doc, strs(SECTIONS@), 0) {
        Some(name) => Err(ConfigErrorView::UnknownSection { name }),
        None => match (
            bindings_of(found(doc, "keys"@)),
            section_texts(found(doc, "theme"@), "theme"@, strs(THEME_FIELDS@)),
            section_texts(found(doc, "llm"@), "llm"@, strs(LLM_FIELDS@)),
        ) {
            (Err(e), _, _) => Err(e),
            (_, Err(e), _) => Err(e),
            (_, _, Err(e)) => Err(e),
            (Ok(keys), Ok(theme), Ok(llm)) => Ok(
                FileView {
                    keys,
                    theme: theme[0],
                    provider: llm[0],
                    model: llm[1],
                    api_key: llm[2],
                    base_url: llm[3],
                },
            ),
        },
    }
}

/// What the text of a configuration file asks for.
pub open spec fn text_file(text: Seq<char>) -> Result<FileView, ConfigErrorView> {
    match toml_document(text) {
        Err(why) => Err(ConfigErrorView::BadToml { why }),
        Ok(doc) => file_of(doc),
    }
}

impl ConfigView {
    /// The configuration that the text of a file asks for.
    pub open spec fn of_text(text: Seq<char>) -> Result<ConfigView, ConfigErrorView> {
        match text_file(text) {
            Err(e) => Err(e),
            Ok(file) => ConfigView::of(file),
        }
    }
}

fn is_among(name: &str, known: &[&'static str]) -> (yes: bool)
    ensures
        yes == strs(known@).contains(name@),
{
    let mut i: usize = 0;
    while i < known.len()
        invariant
            i <= known@.len(),
            forall|k: int| 0 <= k < i ==> strs(known@)[k] != name@,
        decreases known@.len() - i,
    {
        assert(strs(known@)[i as int] == known@[i as int]@);
        if same_text(known[i], name) {
            return true;
        }
        i += 1;
    }
    assert(strs(known@).len() == known@.len());
    false
}

fn find_unknown_entry(doc: &Vec<(String, TomlValue)>, known: &[&'static str]) -> (out: Option<
    String,
>)
    ensures
        opt_text(out) == unknown_from(entries_view(doc@), strs(known@), 0),
{
    let mut i: usize = 0;
    while i < doc.len()
        invariant
            i <= doc@.len(),
            unknown_from(entries_view(doc@), strs(known@), 0) == unknown_from(
                entries_view(doc@),
                strs(known@),
                i as nat,
            ),
        decreases doc@.len() - i,
    {
        assert(entries_view(doc@)[i as int] == (doc@[i as int].0@, doc@[i as int].1@));
        if !is_among(doc[i].0.as_str(), known) {
            return Some(doc[i].0.clone());
        }
        i += 1;
    }
    None
}

fn find_unknown_field(fields: &Vec<(String, TomlField)>, known: &[&'static str]) -> (out: Option<
    String,
>)
    ensures
        opt_text(out) == unknown_from(fields_view(fields@), strs(known@), 0),
{
    let mut i: usize = 0;
    while i < fields.len()
        invariant
            i <= fields@.len(),
            unknown_from(fields_view(fields@), strs(known@), 0) == unknown_from(
                fields_view(fields@),
                strs(known@),
                i as nat,
            ),
        decreases fields@.len() - i,
    {
        assert(fields_view(fields@)[i as int] == (fields@[i as int].0@, fields@[i as int].1@));
        if !is_among(fields[i].0.as_str(), known) {
            return Some(fields[i].0.clone());
        }
        i += 1;
    }
    None
}

/// The texts of a list that holds nothing else.
pub fn take_texts(items: &Vec<Option<String>>) -> (out: Option<Vec<String>>)
    ensures
        (match out {
            Some(list) => all_texts(items_view(items@)) && texts(list@) == texts_in(
                items_view(items@),
            ),
            None => !all_texts(items_view(items@)),
        }),
{
    let ghost all = items_view(items@);
    let mut list: Vec<String> = Vec::new();
    let mut i: usize = 0;
    while i < items.len()
        invariant
            i <= items@.len(),
            all == items_view(items@),
            list@.len() == i,
            forall|k: int| 0 <= k < i ==> (#[trigger] all[k]) == Some(list@[k]@),
        decreases items@.len() - i,
    {
        assert(all[i as int] == opt_text(items@[i as int]));
        match &items[i] {
            Some(s) => list.push(s.clone()),
            None => return None,
        }
        i += 1;
    }
    proof {
        assert forall|k: int| 0 <= k < all.len() implies texts(list@)[k] == texts_in(all)[k] by {
            assert(all[k] == Some(list@[k]@));
        }
        assert(texts(list@) =~= texts_in(all));
    }
    Some(list)
}

/// What a list of names that may be wrong holds.
pub open spec fn names_view(names: Result<Vec<String>, ConfigError>) -> Result<
    Seq<Seq<char>>,
    ConfigErrorView,
> {
    match names {
        Ok(list) => Ok(texts(list@)),
        Err(e) => Err(e@),
    }
}

fn read_names(action: &str, value: &TomlField) -> (names: Result<Vec<String>, ConfigError>)
    ensures
        names_view(names) == bound_names(action@, value@),
{
    match value {
        TomlField::Text(s) => {
            let mut list: Vec<String> = Vec::new();
            list.push(s.clone());
            assert(texts(list@) =~= seq![s@]);
            Ok(list)
        },
        TomlField::List(items) => match take_texts(items) {
            Some(list) => Ok(list),
            None => Err(ConfigError::WrongType { name: action.to_owned() }),
        },
        TomlField::Other => Err(ConfigError::WrongType { name: action.to_owned() }),
    }
}

proof fn lemma_bindings_fail(fields: Seq<(Seq<char>, FieldView)>, i: nat, n: nat)
    requires
        i <= n <= fields.len(),
        bindings_upto(fields, i) is Err,
    ensures
        bindings_upto(fields, n) == bindings_upto(fields, i),
    decreases n - i,
{
    if i < n {
        lemma_bindings_fail(fields, i, (n - 1) as nat);
    }
}

/// What a list of bindings that may be wrong holds.
pub open spec fn bound_view(
    bindings: Result<Vec<(String, Vec<String>)>, ConfigError>,
) -> Result<Seq<(Seq<char>, Seq<Seq<char>>)>, ConfigErrorView> {
    match bindings {
        Ok(list) => Ok(bindings_view(list@)),
        Err(e) => Err(e@),
    }
}

fn read_bindings(fields: &Vec<(String, TomlField)>) -> (out: Result<
    Vec<(String, Vec<String>)>,
    ConfigError,
>)
    ensures
        bound_view(out) == bindings_upto(fields_view(fields@), fields@.len()),
{
    let ghost all = fields_view(fields@);
    let mut out: Vec<(String, Vec<String>)> = Vec::new();
    let mut i: usize = 0;
    assert(bindings_view(out@) =~= Seq::empty());
    while i < fields.len()
        invariant
            i <= fields@.len(),
            all == fields_view(fields@),
            bindings_upto(all, i as nat) == Ok::<
                Seq<(Seq<char>, Seq<Seq<char>>)>,
                ConfigErrorView,
            >(bindings_view(out@)),
        decreases fields@.len() - i,
    {
        assert(all[i as int] == (fields@[i as int].0@, fields@[i as int].1@));
        match read_names(fields[i].0.as_str(), &fields[i].1) {
            Ok(names) => {
                let binding = (fields[i].0.clone(), names);
                let ghost before = out@;
                out.push(binding);
                assert(bindings_view(out@) =~= bindings_view(
                    before,
                ).push((binding.0@, texts(binding.1@))));
            },
            Err(e) => {
                proof {
                    lemma_bindings_fail(all, (i + 1) as nat, all.len());
                }
                return Err(e);
            },
        }
        i += 1;
    }
    Ok(out)
}

/// What a text that may be missing or wrong holds.
pub open spec fn text_view(text: Result<Option<String>, ConfigError>) -> Result<
    Option<Seq<char>>,
    ConfigErrorView,
> {
    match text {
        Ok(s) => Ok(opt_text(s)),
        Err(e) => Err(e@),
    }
}

fn read_field(section: &TomlValue, names: &[&'static str], i: usize) -> (text: Result<
    Option<String>,
    ConfigError,
>)
    requires
        i < names@.len(),
    ensures
        text_view(text) == field_text(section@, strs(names@), i as int),
{
    let name = names[i];
    assert(strs(names@)[i as int] == name@);
    match section {
        TomlValue::Table(fields) => match find_field(fields, name) {
            None => Ok(None),
            Some(at) => match &fields[at].1 {
                TomlField::Text(s) => Ok(Some(s.clone())),
                _ => Err(ConfigError::WrongType { name: name.to_owned() }),
            },
        },
        TomlValue::List(items) => {
            if i >= items.len() {
                return Ok(None);
            }
            assert(items_view(items@)[i as int] == opt_text(items@[i as int]));
            match &items[i] {
                Some(s) => Ok(Some(s.clone())),
                None => Err(ConfigError::WrongType { name: name.to_owned() }),
            }
        },
        _ => Err(ConfigError::WrongType { name: name.to_owned() }),
    }
}

proof fn lemma_texts_fail(section: ValueView, names: Seq<Seq<char>>, i: nat, n: nat)
    requires
        i <= n,
        texts_upto(section, names, i) is Err,
    ensures
        texts_upto(section, names, n) == texts_upto(section, names, i),
    decreases n - i,
{
    if i < n {
        lemma_texts_fail(section, names, i, (n - 1) as nat);
    }
}

/// What the texts of a section that may be wrong hold.
pub open spec fn texts_view(list: Result<Vec<Option<String>>, ConfigError>) -> Result<
    Seq<Option<Seq<char>>>,
    ConfigErrorView,
> {
    match list {
        Ok(l) => Ok(items_view(l@)),
        Err(e) => Err(e@),
    }
}

fn read_fields(section: &TomlValue, names: &[&'static str]) -> (out: Result<
    Vec<Option<String>>,
    ConfigError,
>)
    ensures
        texts_view(out) == texts_upto(section@, strs(names@), names@.len()),
        out matches Ok(list) ==> list@.len() == names@.len(),
{
    let ghost all = strs(names@);
    let mut out: Vec<Option<String>> = Vec::new();
    let mut i: usize = 0;
    assert(items_view(out@) =~= Seq::empty());
    while i < names.len()
        invariant
            i <= names@.len(),
            all == strs(names@),
            out@.len() == i,
            texts_upto(section@, all, i as nat) == Ok::<
                Seq<Option<Seq<char>>>,
                ConfigErrorView,
            >(items_view(out@)),
        decreases names@.len() - i,
    {
        match read_field(section, names, i) {
            Ok(text) => {
                let ghost before = out@;
                out.push(text);
                assert(items_view(out@) =~= items_view(before).push(opt_text(text)));
            },
            Err(e) => {
                proof {
                    lemma_texts_fail(section@, all, (i + 1) as nat, names@.len());
                }
                return Err(e);
            },
        }
        i += 1;
    }
    Ok(out)
}

/// What may stand behind a name.
pub open spec fn opt_value(value: Option<&TomlValue>) -> Option<ValueView> {
    match value {
        Some(v) => Some(v@),
        None => None,
    }
}

fn entry<'a>(doc: &'a Vec<(String, TomlValue)>, name: &str) -> (value: Option<&'a TomlValue>)
    ensures
        opt_value(value) == found(entries_view(doc@), name@),
{
    match find_entry(doc, name) {
        Some(i) => Some(&doc[i].1),
        None => None,
    }
}

fn read_section(section: Option<&TomlValue>, title: &str, names: &[&'static str]) -> (out: Result<
    Vec<Option<String>>,
    ConfigError,
>)
    ensures
        texts_view(out) == section_texts(opt_value(section), title@, strs(names@)),
        out matches Ok(list) ==> list@.len() == names@.len(),
{
    match section {
        None => {
            let mut out: Vec<Option<String>> = Vec::new();
            let mut i: usize = 0;
            while i < names.len()
                invariant
                    i <= names@.len(),
                    out@.len() == i,
                    forall|k: int| 0 <= k < i ==> (#[trigger] out@[k]) is None,
                decreases names@.len() - i,
            {
                out.push(None);
                i += 1;
            }
            assert(items_view(out@) =~= Seq::new(strs(names@).len(), |i: int| None));
            Ok(out)
        },
        Some(value) => match value {
            TomlValue::Table(fields) => match find_unknown_field(fields, names) {
                Some(name) => Err(ConfigError::UnknownField { section: title.to_owned(), name }),
                None => read_fields(value, names),
            },
            TomlValue::List(_) => read_fields(value, names),
            _ => Err(ConfigError::WrongType { name: title.to_owned() }),
        },
    }
}

fn read_keys(section: Option<&TomlValue>) -> (out: Result<Vec<(String, Vec<String>)>, ConfigError>)
    ensures
        bound_view(out) == bindings_of(opt_value(section)),
{
    match section {
        None => {
            let none: Vec<(String, Vec<String>)> = Vec::new();
            assert(bindings_view(none@) =~= Seq::empty());
            Ok(none)
        },
        Some(value) => match value {
            TomlValue::Table(fields) => read_bindings(fields),
            _ => Err(ConfigError::WrongType { name: "keys".to_owned() }),
        },
    }
}

/// What a file that may be wrong holds.
pub open spec fn file_view(file: Result<FileConfig, ConfigError>) -> Result<
    FileView,
    ConfigErrorView,
> {
    match file {
        Ok(f) => Ok(f@),
        Err(e) => Err(e@),
    }
}

/// What a document asks for.
pub fn read_file(doc: &Vec<(String, TomlValue)>) -> (file: Result<FileConfig, ConfigError>)
    ensures
        file_view(file) == file_of(entries_view(doc@)),
{
    if let Some(name) = find_unknown_entry(doc, &SECTIONS) {
        return Err(ConfigError::UnknownSection { name });
    }
    let keys = match read_keys(entry(doc, "keys")) {
        Ok(list) => list,
        Err(e) => return Err(e),
    };
    let mut theme = match read_section(entry(doc, "theme"), "theme", &THEME_FIELDS) {
        Ok(list) => list,
        Err(e) => return Err(e),
    };
    let mut llm = match read_section(entry(doc, "llm"), "llm", &LLM_FIELDS) {
        Ok(list) => list,
        Err(e) => return Err(e),
    };
    let ghost t = items_view(theme@);
    let ghost l = items_view(llm@);
    assert(theme@.len() == 1 && llm@.len() == 4);
    let base_url = llm.pop().unwrap();
    let api_key = llm.pop().unwrap();
    let model = llm.pop().unwrap();
    let provider = llm.pop().unwrap();
    let name = theme.pop().unwrap();
    assert(t[0] == opt_text(name));
    assert(l[0] == opt_text(provider) && l[1] == opt_text(model));
    assert(l[2] == opt_text(api_key) && l[3] == opt_text(base_url));
    Ok(FileConfig { keys, theme: name, provider, model, api_key, base_url })
}

impl Config {
    /// The configuration that the text of a file asks for, over the defaults.
    /// Unknown sections, fields, actions and names fail with the offending
    /// value.
    pub fn from_toml(text: &str) -> (config: Result<Config, ConfigError>)
        ensures
            (match config {
                Ok(c) => ConfigView::of_text(text@) == Ok::<ConfigView, ConfigErrorView>(c@),
                Err(e) => ConfigView::of_text(text@) == Err::<ConfigView, ConfigErrorView>(e@),
            }),
    {
        let doc = match read_toml(text) {
            Ok(doc) => doc,
            Err(why) => return Err(ConfigError::BadToml { why }),
        };
        match read_file(&doc) {
            Ok(file) => Config::from_file(&file),
            Err(e) => Err(e),
        }
    }
}

proof fn lemma_unknown_at<V>(list: Seq<(Seq<char>, V)>, known: Seq<Seq<char>>, i: nat)
    ensures
        unknown_from(list, known, i) is None <==> forall|k: int|
            i <= k < list.len() ==> known.contains((#[trigger] list[k]).0),
    decreases list.len() - i,
{
    if i < list.len() {
        lemma_unknown_at(list, known, i + 1);
        if unknown_from(list, known, i) is None {
            assert forall|k: int| i <= k < list.len() implies known.contains(
                (#[trigger] list[k]).0,
            ) by {
                if k > i {
                }
            }
        } else if known.contains(list[i as int].0) {
            assert(unknown_from(list, known, i + 1) is Some);
        }
    }
}

/// What is found in a list of known names has one of them.
proof fn lemma_found_is_known<V>(list: Seq<(Seq<char>, V)>, known: Seq<Seq<char>>)
    ensures
        unknown_from(list, known, 0) is None <==> forall|name: Seq<char>|
            (#[trigger] found(list, name)) is Some ==> known.contains(name),
{
    lemma_unknown_at(list, known, 0);
    if unknown_from(list, known, 0) is None {
        assert forall|name: Seq<char>| (#[trigger] found(list, name)) is Some implies known.contains(
            name,
        ) by {
            lemma_behind(list, name, list.len());
            let k = choose|k: int| 0 <= k < list.len() && (#[trigger] list[k]).0 == name;
            assert(known.contains(list[k].0));
        }
    } else {
        let k = choose|k: int| 0 <= k < list.len() && !known.contains((#[trigger] list[k]).0);
        lemma_behind(list, list[k].0, list.len());
        assert(found(list, list[k].0) is Some);
    }
}

proof fn lemma_names()
    ensures
        strs(SECTIONS@) =~= seq!["keys"@, "theme"@, "llm"@],
        strs(THEME_FIELDS@) =~= seq!["name"@],
        strs(LLM_FIELDS@) =~= seq!["provider"@, "model"@, "api_key"@, "base_url"@],
        "keys"@ != "llm"@,
        "theme"@ != "llm"@,
{
    reveal_strlit("keys");
    reveal_strlit("theme");
    reveal_strlit("llm");
    assert("keys"@[0] == 'k');
    assert("theme"@[0] == 't');
    assert("llm"@[0] == 'l');
}

/// The two ways to look a name up in a list of texts agree.
proof fn lemma_found_field(section: Seq<(Seq<char>, Seq<char>)>, name: Seq<char>, k: nat)
    ensures
        behind(section, name, k) == field(section, name, k),
    decreases k,
{
    if 0 < k <= section.len() {
        lemma_found_field(section, name, (k - 1) as nat);
    }
}

/// Whether a table holds these texts and nothing else.
pub open spec fn holds_texts(
    fields: Seq<(Seq<char>, FieldView)>,
    entries: Seq<(Seq<char>, Seq<char>)>,
) -> bool {
    forall|name: Seq<char>| #[trigger]
        found(fields, name) == (match found(entries, name) {
            Some(text) => Some(FieldView::Text(text)),
            None => None,
        })
}

/// Whether what is seen of a document is what is seen of another one with a
/// table of these texts behind a name, and all else as it was.
pub open spec fn replaces(
    before: Seq<(Seq<char>, ValueView)>,
    after: Seq<(Seq<char>, ValueView)>,
    table: Seq<char>,
    entries: Seq<(Seq<char>, Seq<char>)>,
) -> bool {
    &&& found(after, table) matches Some(ValueView::Table(fields)) && holds_texts(fields, entries)
    &&& forall|name: Seq<char>|
        name != table ==> #[trigger] found(after, name) == found(before, name)
}

/// A table of settings reads back as the settings.
proof fn lemma_llm_fields(fields: Seq<(Seq<char>, FieldView)>, llm: LlmView)
    requires
        holds_texts(fields, llm_section(llm)),
    ensures
        ({
            let s = llm_section(llm);
            section_texts(Some(ValueView::Table(fields)), "llm"@, strs(LLM_FIELDS@)) == Ok::<
                Seq<Option<Seq<char>>>,
                ConfigErrorView,
            >(
                seq![
                    field(s, "provider"@, s.len()),
                    field(s, "model"@, s.len()),
                    field(s, "api_key"@, s.len()),
                    field(s, "base_url"@, s.len()),
                ],
            )
        }),
{
    let s = llm_section(llm);
    let names = strs(LLM_FIELDS@);
    let v = ValueView::Table(fields);
    lemma_names();
    assert forall|name: Seq<char>| (#[trigger] found(fields, name)) is Some implies names.contains(
        name,
    ) by {
        lemma_behind(s, name, s.len());
        let k = choose|k: int| 0 <= k < s.len() && (#[trigger] s[k]).0 == name;
        assert(names[k] == name);
    }
    lemma_found_is_known(fields, names);
    lemma_found_field(s, "provider"@, s.len());
    lemma_found_field(s, "model"@, s.len());
    lemma_found_field(s, "api_key"@, s.len());
    lemma_found_field(s, "base_url"@, s.len());
    assert(field_text(v, names, 0) == Ok::<Option<Seq<char>>, ConfigErrorView>(
        field(s, "provider"@, s.len()),
    ));
    assert(field_text(v, names, 1) == Ok::<Option<Seq<char>>, ConfigErrorView>(
        field(s, "model"@, s.len()),
    ));
    assert(field_text(v, names, 2) == Ok::<Option<Seq<char>>, ConfigErrorView>(
        field(s, "api_key"@, s.len()),
    ));
    assert(field_text(v, names, 3) == Ok::<Option<Seq<char>>, ConfigErrorView>(
        field(s, "base_url"@, s.len()),
    ));
    reveal_with_fuel(texts_upto, 5);
    assert(texts_upto(v, names, 4)->Ok_0 =~= seq![
        field(s, "provider"@, s.len()),
        field(s, "model"@, s.len()),
        field(s, "api_key"@, s.len()),
        field(s, "base_url"@, s.len()),
    ]);
}

/// A document with another `[llm]` section asks for those settings, and else
/// for what it asked for before.
proof fn lemma_replaced_file(
    before: Seq<(Seq<char>, ValueView)>,
    after: Seq<(Seq<char>, ValueView)>,
    llm: LlmView,
)
    requires
        file_of(before) is Ok,
        replaces(before, after, "llm"@, llm_section(llm)),
    ensures
        file_of(after) == Ok::<FileView, ConfigErrorView>(
            with_llm_section(file_of(before)->Ok_0, llm_section(llm)),
        ),
{
    let sections = strs(SECTIONS@);
    lemma_names();
    lemma_found_is_known(before, sections);
    assert forall|name: Seq<char>| (#[trigger] found(after, name)) is Some implies sections.contains(
        name,
    ) by {
        if name == "llm"@ {
            assert(sections[2] == name);
        } else {
            assert(found(before, name) is Some);
        }
    }
    lemma_found_is_known(after, sections);
    lemma_llm_fields(found(after, "llm"@)->0->Table_0, llm);
}

/// Whether a field of a table is a text or a list of texts.
spec fn is_flat_field(field: FieldView) -> bool {
    match field {
        FieldView::Text(_) => true,
        FieldView::List(items) => all_texts(items),
        FieldView::Other => false,
    }
}

/// A text or a list of texts is not nested deeply.
proof fn lemma_flat_nests(value: TomlTree)
    requires
        is_flat_field(seen_field(value)),
    ensures
        nests_within(value, (NESTING_LIMIT - 1) as nat),
{
    reveal_with_fuel(nests_within, 2);
    if let TomlTree::List(items) = value {
        let seen = items.map_values(|t: TomlTree| text_item(t));
        assert forall|i: int| 0 <= i < items.len() implies nests_within(
            #[trigger] items[i],
            (NESTING_LIMIT - 2) as nat,
        ) by {
            assert(seen[i] is Some);
        }
    }
}

/// The actions of bindings that are read are bound, and each to keys.
proof fn lemma_bindings_are_flat(fields: Seq<(Seq<char>, FieldView)>, k: nat, i: int)
    requires
        bindings_upto(fields, k) is Ok,
        0 <= i < k <= fields.len(),
    ensures
        bindings_upto(fields, k)->Ok_0.len() == k,
        bindings_upto(fields, k)->Ok_0[i].0 == fields[i].0,
        is_flat_field(fields[i].1),
    decreases k,
{
    if i < k - 1 {
        lemma_bindings_are_flat(fields, (k - 1) as nat, i);
    } else if k > 1 {
        lemma_bindings_are_flat(fields, (k - 1) as nat, 0);
    } else {
        assert(bindings_upto(fields, 0)->Ok_0.len() == 0);
    }
}

proof fn lemma_bound_action(entries: Seq<(Seq<char>, Seq<Seq<char>>)>, k: nat, i: int)
    requires
        bound(entries, k) is Ok,
        0 <= i < k <= entries.len(),
    ensures
        entries[i].0 != DATE_NAME@,
    decreases k,
{
    if i < k - 1 {
        lemma_bound_action(entries, (k - 1) as nat, i);
    } else {
        let view = bound(entries, (k - 1) as nat)->Ok_0;
        let keys = parsed_keys(entries[i].1, entries[i].1.len())->Ok_0;
        lemma_date_is_no_action(view, keys);
    }
}

/// Whether the `[theme]` section, if it is a list, holds texts and nothing else.
pub open spec fn theme_is_texts(doc: Seq<(Seq<char>, ValueView)>) -> bool {
    found(doc, "theme"@) matches Some(ValueView::List(items)) ==> all_texts(items)
}

/// The `[keys]` section of a configuration is not nested deeply.
proof fn lemma_keys_nest(value: TomlTree)
    requires
        bindings_of(Some(seen_value(value))) is Ok,
        bound(
            bindings_of(Some(seen_value(value)))->Ok_0,
            bindings_of(Some(seen_value(value)))->Ok_0.len(),
        ) is Ok,
    ensures
        nests_within(value, NESTING_LIMIT as nat),
{
    let fields = value->Table_0;
    let seen = fields.map_values(|e: (Seq<char>, TomlTree)| (e.0, seen_field(e.1)));
    assert(seen_value(value) == ValueView::Table(seen));
    let entries = bindings_of(Some(seen_value(value)))->Ok_0;
    reveal_with_fuel(nests_within, 1);
    assert forall|i: int| 0 <= i < fields.len() implies (#[trigger] fields[i]).0 != DATE_NAME@
        && nests_within(fields[i].1, (NESTING_LIMIT - 1) as nat) by {
        assert(seen[i] == (fields[i].0, seen_field(fields[i].1)));
        lemma_bindings_are_flat(seen, seen.len(), i);
        lemma_bound_action(entries, entries.len(), i);
        lemma_flat_nests(fields[i].1);
    }
}

/// The `[theme]` section of a configuration is not nested deeply.
proof fn lemma_theme_nests(value: TomlTree)
    requires
        section_texts(Some(seen_value(value)), "theme"@, strs(THEME_FIELDS@)) is Ok,
        seen_value(value) matches ValueView::List(items) ==> all_texts(items),
        value matches TomlTree::Table(fields) ==> in_order(fields),
    ensures
        nests_within(value, NESTING_LIMIT as nat),
{
    let names = strs(THEME_FIELDS@);
    lemma_names();
    match value {
        TomlTree::Table(fields) => {
            let seen = fields.map_values(|e: (Seq<char>, TomlTree)| (e.0, seen_field(e.1)));
            let v = ValueView::Table(seen);
            assert(seen_value(value) == v);
            reveal_with_fuel(texts_upto, 2);
            assert(field_text(v, names, 0) is Ok);
            lemma_unknown_at(seen, names, 0);
            assert forall|i: int| 0 <= i < fields.len() implies (#[trigger] fields[i]).0
                != DATE_NAME@ && nests_within(fields[i].1, (NESTING_LIMIT - 1) as nat) by {
                assert(names.contains(seen[i].0));
                assert(fields[i].0 == "name"@);
                reveal_strlit("name");
                reveal_strlit("$__toml_private_datetime");
                assert(DATE_NAME@.len() == 24);
                lemma_found_at(fields, "name"@);
                lemma_seen_field(fields, "name"@, fields.len());
                assert(found(seen, "name"@) == Some(seen_field(fields[i].1)));
            }
        },
        TomlTree::List(items) => {
            let seen = items.map_values(|t: TomlTree| text_item(t));
            assert(seen_value(value) == ValueView::List(seen));
            assert forall|i: int| 0 <= i < items.len() implies nests_within(
                #[trigger] items[i],
                (NESTING_LIMIT - 1) as nat,
            ) by {
                assert(seen[i] is Some);
            }
        },
        _ => {},
    }
}

/// Settings are not nested deeply.
proof fn lemma_settings_nest(llm: LlmView)
    ensures
        nests_within(
            TomlTree::Table(tree_of_texts(llm_section(llm), llm_section(llm).len())),
            NESTING_LIMIT as nat,
        ),
{
    let s = llm_section(llm);
    let fields = tree_of_texts(s, s.len());
    lemma_tree_of_texts(s, s.len());
    reveal_strlit("provider");
    reveal_strlit("model");
    reveal_strlit("api_key");
    reveal_strlit("base_url");
    reveal_strlit("$__toml_private_datetime");
    assert(DATE_NAME@.len() == 24);
    assert forall|i: int| 0 <= i < fields.len() implies (#[trigger] fields[i]).0 != DATE_NAME@
        && nests_within(fields[i].1, (NESTING_LIMIT - 1) as nat) by {
        lemma_found_at(fields, fields[i].0);
        assert(found(fields, fields[i].0) is Some);
        lemma_behind(s, fields[i].0, s.len());
        let k = choose|k: int| 0 <= k < s.len() && (#[trigger] s[k]).0 == fields[i].0;
        assert(s[k].0.len() < 24);
    }
}

/// A configuration file with other settings can be read again once it is
/// written.
proof fn lemma_saved_rereads(doc: Seq<(Seq<char>, TomlTree)>, llm: LlmView)
    requires
        is_ordered(doc),
        file_of(seen(doc)) is Ok,
        ConfigView::of(file_of(seen(doc))->Ok_0) is Ok,
        theme_is_texts(seen(doc)),
    ensures
        is_rereadable(with_table(doc, "llm"@, llm_section(llm))),
{
    let s = llm_section(llm);
    let value = TomlTree::Table(tree_of_texts(s, s.len()));
    let after = with_table(doc, "llm"@, s);
    let sections = strs(SECTIONS@);
    lemma_names();
    law_entry_replaces(doc, "llm"@, value);
    lemma_found_is_known(seen(doc), sections);
    assert forall|i: int| 0 <= i < after.len() implies nests_within(
        (#[trigger] after[i]).1,
        NESTING_LIMIT as nat,
    ) by {
        let name = after[i].0;
        lemma_found_at(after, name);
        if name == "llm"@ {
            lemma_settings_nest(llm);
        } else {
            assert(found(doc, name) == Some(after[i].1));
            lemma_seen_found(doc, name, doc.len());
            assert(found(seen(doc), name) == Some(seen_value(after[i].1)));
            assert(sections.contains(name));
            lemma_behind(doc, name, doc.len());
            let k = choose|k: int|
                0 <= k < doc.len() && (#[trigger] doc[k]).0 == name && doc[k].1 == after[i].1;
            assert(tables_in_order(doc[k].1));
            if name == "keys"@ {
                lemma_keys_nest(after[i].1);
            } else {
                assert(name == "theme"@);
                lemma_theme_nests(after[i].1);
            }
        }
    }
}

/// A document with another `[llm]` section is seen as that.
proof fn lemma_seen_replaces(
    before: Seq<(Seq<char>, TomlTree)>,
    after: Seq<(Seq<char>, TomlTree)>,
    llm: LlmView,
)
    requires
        differs_behind(
            before,
            after,
            "llm"@,
            TomlTree::Table(tree_of_texts(llm_section(llm), llm_section(llm).len())),
        ),
    ensures
        replaces(seen(before), seen(after), "llm"@, llm_section(llm)),
{
    let s = llm_section(llm);
    let fields = tree_of_texts(s, s.len());
    let seen_fields = fields.map_values(|e: (Seq<char>, TomlTree)| (e.0, seen_field(e.1)));
    lemma_seen_found(after, "llm"@, after.len());
    lemma_tree_of_texts(s, s.len());
    assert forall|name: Seq<char>| #[trigger]
        found(seen_fields, name) == (match found(s, name) {
            Some(text) => Some(FieldView::Text(text)),
            None => None,
        }) by {
        lemma_seen_field(fields, name, fields.len());
        assert(found(fields, name) == match behind(s, name, s.len()) {
            Some(text) => Some(TomlTree::Text(text)),
            None => None,
        });
    }
    assert forall|name: Seq<char>| name != "llm"@ implies #[trigger] found(seen(after), name)
        == found(seen(before), name) by {
        lemma_seen_found(after, name, after.len());
        lemma_seen_found(before, name, before.len());
        assert(found(after, name) == found(before, name));
    }
}

/// Whether a saved text reads as the file with the settings in it.
pub open spec fn reads_as(existing: Seq<char>, saved: Seq<char>, llm: LlmView) -> bool {
    toml_tree(saved) == Ok::<Seq<(Seq<char>, TomlTree)>, Seq<char>>(
        with_table(toml_tree(existing)->Ok_0, "llm"@, llm_section(llm)),
    )
}

/// Saved settings are what is read from the file from then on, and keys and
/// theme are what they were: if the file could be read before, the provider is
/// a known one as it is written, no text has white space around it, and neither
/// model nor base URL is empty. (A theme that is spelled as a list may hold
/// something behind its name that is nested too deeply to be read again; this
/// then holds only where the saved text is read as it was written.)
pub proof fn law_save_keeps_the_rest(existing: Seq<char>, saved: Seq<char>, llm: LlmView)
    requires
        ConfigView::of_text(existing) is Ok,
        became(existing, saved, "llm"@, llm_section(llm)),
        theme_is_texts(toml_document(existing)->Ok_0) || reads_as(existing, saved, llm),
        known_provider(llm.provider),
        provider_name(llm.provider) == llm.provider,
        llm.model.len() > 0,
        trimmed(llm.model) == llm.model,
        trimmed(llm.api_key) == llm.api_key,
        llm.base_url matches Some(url) ==> url.len() > 0 && trimmed(url) == url,
    ensures
        ConfigView::of_text(saved) == Ok::<ConfigView, ConfigErrorView>(
            (ConfigView { llm, ..ConfigView::of_text(existing)->Ok_0 }),
        ),
{
    let before = toml_tree(existing)->Ok_0;
    let after = with_table(before, "llm"@, llm_section(llm));
    if theme_is_texts(seen(before)) {
        lemma_saved_rereads(before, llm);
    }
    assert(toml_tree(saved)->Ok_0 == after);
    lemma_seen_replaces(before, after, llm);
    lemma_replaced_file(seen(before), seen(after), llm);
    law_saved_llm_reads_back(file_of(seen(before))->Ok_0, llm);
}

} // verus!
