use guit::{search_content, Lang, Value};

fn text(s: &str) -> Value {
    Value::Text(s.to_owned())
}

fn table(entries: Vec<(&str, Value)>) -> Value {
    Value::Table(entries.into_iter().map(|(k, v)| (k.to_owned(), v)).collect())
}

fn catalogue() -> Value {
    table(vec![
        (
            "fr",
            table(vec![
                ("not_found", text("Texte introuvable")),
                ("open_folder", text("Ouvrir un dossier")),
                ("file_dialog", table(vec![("title", text("Choisir")), ("open", text("Ouvrir"))])),
            ]),
        ),
        (
            "en",
            table(vec![
                ("not_found", text("Text not found")),
                ("open_folder", text("Open folder")),
                ("open_folder", text("shadowed")),
                ("file_dialog", table(vec![("title", text("Choose"))])),
                ("nothing", Value::Null),
            ]),
        ),
    ])
}

#[test]
fn language_codes() {
    assert_eq!(Lang::Francais.get_code(), "fr");
    assert_eq!(Lang::English.get_code(), "en");
}

#[test]
fn text_is_found_by_key() {
    let c = catalogue();
    assert_eq!(search_content(&c, Lang::Francais, &["open_folder"]), "Ouvrir un dossier");
    assert_eq!(search_content(&c, Lang::English, &["open_folder"]), "Open folder");
}

#[test]
fn text_is_found_along_nested_keys() {
    let c = catalogue();
    assert_eq!(search_content(&c, Lang::Francais, &["file_dialog", "open"]), "Ouvrir");
    assert_eq!(search_content(&c, Lang::English, &["file_dialog", "title"]), "Choose");
}

#[test]
fn missing_key_gives_the_not_found_text_of_the_language() {
    let c = catalogue();
    assert_eq!(search_content(&c, Lang::Francais, &["absent"]), "Texte introuvable");
    assert_eq!(search_content(&c, Lang::English, &["file_dialog", "open"]), "Text not found");
    assert_eq!(search_content(&c, Lang::English, &["open_folder", "deeper"]), "Text not found");
    assert_eq!(search_content(&c, Lang::English, &["nothing", "deeper"]), "Text not found");
}

#[test]
fn value_that_is_no_text_shows_nothing() {
    let c = catalogue();
    assert_eq!(search_content(&c, Lang::English, &["file_dialog"]), "");
    assert_eq!(search_content(&c, Lang::English, &["nothing"]), "");
    assert_eq!(search_content(&c, Lang::English, &[]), "");
}

#[test]
fn catalogue_without_the_language_shows_nothing() {
    let only_french = table(vec![("fr", table(vec![("not_found", text("Introuvable"))]))]);
    assert_eq!(search_content(&only_french, Lang::English, &["open_folder"]), "");
    assert_eq!(search_content(&only_french, Lang::English, &[]), "");
    assert_eq!(search_content(&Value::Null, Lang::Francais, &["open_folder"]), "");
    assert_eq!(search_content(&text("fr"), Lang::Francais, &[]), "");
}

#[test]
fn language_without_not_found_text_shows_nothing_for_a_missing_key() {
    let c = table(vec![("en", table(vec![("a", text("A"))]))]);
    assert_eq!(search_content(&c, Lang::English, &["b"]), "");
    assert_eq!(search_content(&c, Lang::English, &["a"]), "A");
}

#[test]
fn get_returns_the_first_entry_of_that_name() {
    let t = table(vec![("k", text("one")), ("k", text("two")), ("other", Value::Null)]);
    assert_eq!(t.get("k"), Some(&text("one")));
    assert_eq!(t.get("other"), Some(&Value::Null));
    assert_eq!(t.get("absent"), None);
    assert_eq!(text("k").get("k"), None);
    assert_eq!(Value::Null.get("k"), None);
}

#[test]
fn value_to_string() {
    assert_eq!(text("héllo").to_string(), "héllo");
    assert_eq!(Value::Null.to_string(), "");
    assert_eq!(table(vec![("k", text("v"))]).to_string(), "");
}
