//! The texts of the user interface, kept by language and by key.

use vstd::prelude::*;
use crate::scan::{index_where, lemma_index_where_unique};

verus! {

/// A language of the user interface.
#[derive(Debug, Clone, Copy, PartialEq, Eq, Structural)]
pub enum Lang {
    Francais,
    English,
}

impl Lang {
    /// The key under which the texts of this language are kept.
    pub open spec fn code(self) -> Seq<char> {
        match self {
            Lang::Francais => "fr"@,
            Lang::English => "en"@,
        }
    }

    pub fn get_code(&self) -> (code: String)
        ensures
            code@ == self.code(),
    {
        match self {
            Lang::Francais => "fr".to_owned(),
            Lang::English => "en".to_owned(),
        }
    }
}

/// A tree of texts: a text, a table of named trees, or nothing.
#[derive(Debug, PartialEq, Eq)]
pub enum Value {
    Null,
    Text(String),
    Table(Vec<(String, Value)>),
}

/// The predicate "is the entry named `key`".
pub open spec fn is_named(key: Seq<char>) -> spec_fn((String, Value)) -> bool {
    |entry: (String, Value)| entry.0@ == key
}

/// The key of the text that is shown when a text is not found.
pub open spec fn not_found_index() -> Seq<char> {
    "not_found"@
}

impl Value {
    /// What a table keeps under `key`: the value of its first entry with
    /// that name. A table without such an entry keeps nothing there, and
    /// neither does a value that is no table.
    pub open spec fn entry(self, key: Seq<char>) -> Option<Value> {
        match self {
            Value::Table(entries) => {
                let k = index_where(entries@, is_named(key));
                if k < entries@.len() {
                    Some(entries@[k].1)
                } else {
                    None
                }
            },
            _ => None,
        }
    }

    /// What is kept under `key`, or `Null`.
    pub open spec fn at(self, key: Seq<char>) -> Value {
        match self.entry(key) {
            Some(value) => value,
            None => Value::Null,
        }
    }

    /// What is found by going down from this value key by key, if every key
    /// leads somewhere.
    pub open spec fn lookup(self, keys: Seq<Seq<char>>) -> Option<Value>
        decreases keys.len(),
    {
        if keys.len() == 0 {
            Some(self)
        } else {
            match self.entry(keys[0]) {
                Some(value) => value.lookup(keys.drop_first()),
                None => None,
            }
        }
    }

    /// The text that this value shows: its own where it is a text, and none
    /// where it is a table or nothing.
    pub open spec fn text(self) -> Seq<char> {
        match self {
            Value::Text(text) => text@,
            _ => Seq::empty(),
        }
    }

    /// The value kept under `key`, if this is a table that has one.
    pub fn get(&self, key: &str) -> (found: Option<&Value>)
        ensures
            match found {
                Some(value) => self.entry(key@) == Some(*value),
                None => self.entry(key@) is None,
            },
    {
        match self {
            Value::Table(entries) => {
                let name = key.to_owned();
                let mut k: usize = 0;
                while k < entries.len()
                    invariant
                        k <= entries.len(),
                        name@ == key@,
                        *self == Value::Table(*entries),
                        forall|j: int| 0 <= j < k ==> !is_named(key@)(#[trigger] entries@[j]),
                    decreases entries.len() - k,
                {
                    if entries[k].0 == name {
                        proof {
                            lemma_index_where_unique(entries@, is_named(key@), k as int);
                        }
                        return Some(&entries[k].1);
                    }
                    k += 1;
                }
                proof {
                    lemma_index_where_unique(entries@, is_named(key@), k as int);
                }
                None
            },
            _ => None,
        }
    }

    /// The text that this value shows.
    pub fn to_string(&self) -> (text: String)
        ensures
            text@ == self.text(),
    {
        match self {
            Value::Text(text) => text.clone(),
            _ => String::new(),
        }
    }
}

/// What a slice of keys stands for.
pub open spec fn keys_view(indexes: Seq<&str>) -> Seq<Seq<char>> {
    Seq::new(indexes.len(), |i: int| indexes[i]@)
}

/// The text that `text` holds for `lang` at the end of the way that
/// `indexes` describes, or, where that way leads nowhere, the text that the
/// language keeps under `not_found`.
pub open spec fn content(text: Value, lang: Lang, indexes: Seq<Seq<char>>) -> Seq<char> {
    let table = text.at(lang.code());
    match table.lookup(indexes) {
        Some(value) => value.text(),
        None => table.at(not_found_index()).text(),
    }
}

/// Looks up a text of the user interface: in `text`, under the code of
/// `lang`, and from there down key by key along `indexes`. Where a key
/// leads nowhere, the result is the text kept for the language under
/// `not_found`.
#[must_use]
pub fn search_content(text: &Value, lang: Lang, indexes: &[&str]) -> (found: String)
    ensures
        found@ == content(*text, lang, keys_view(indexes@)),
{
    let ghost keys = keys_view(indexes@);
    let code = lang.get_code();
    let table: &Value = match text.get(code.as_str()) {
        Some(table) => table,
        None => {
            return String::new();
        },
    };
    let mut result: &Value = table;
    let mut i: usize = 0;
    assert(keys.skip(0) =~= keys);
    while i < indexes.len()
        invariant
            i <= indexes.len(),
            keys == keys_view(indexes@),
            text.at(lang.code()) == *table,
            table.lookup(keys) == result.lookup(keys.skip(i as int)),
        decreases indexes.len() - i,
    {
        assert(keys.skip(i as int).drop_first() =~= keys.skip(i + 1));
        match result.get(indexes[i]) {
            Some(value) => {
                result = value;
            },
            None => {
                return match table.get("not_found") {
                    Some(value) => value.to_string(),
                    None => String::new(),
                };
            },
        }
        i += 1;
    }
    result.to_string()
}

} // verus!
