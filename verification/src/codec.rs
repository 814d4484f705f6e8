use vstd::prelude::*;

use crate::menu::{meals_view, Meal, MealView};

verus! {

/// The text of the backing file for a catalog holding the given records: a
/// pretty-printed JSON array with one object per record, carrying the
/// record's `name` as a string and its `tags` as an array of strings.  The
/// exact text is serde_json's; the library states only how it is produced
/// and that it decodes back to the same records.
pub uninterp spec fn catalog_json(entries: Seq<MealView>) -> Seq<char>;

/// Relies on `serde_json::to_string_pretty`, applied to a
/// `serde_json::Value` built one-for-one from the records.  The text is a
/// function of the records alone, and serializing a `Value` (whose object
/// keys are strings) into a `String` cannot fail.
#[verifier::external_body]
pub(crate) fn encode_catalog(book: &Vec<Meal>) -> (r: String)
    ensures
        r@ == catalog_json(meals_view(book@)),
{
    let mut items: Vec<serde_json::Value> = Vec::new();
    for m in book.iter() {
        let mut obj = serde_json::Map::new();
        obj.insert("name".to_string(), serde_json::Value::String(m.name.clone()));
        let tags: Vec<serde_json::Value> =
            m.tags.iter().map(|t| serde_json::Value::String(t.clone())).collect();
        obj.insert("tags".to_string(), serde_json::Value::Array(tags));
        items.push(serde_json::Value::Object(obj));
    }
    serde_json::to_string_pretty(&serde_json::Value::Array(items))
        .expect("a JSON value always serializes")
}

/// Relies on `serde_json::from_str` and `serde_json::from_value`: the text is
/// parsed as an array of objects and each object's `name` (a string) and
/// `tags` (an array of strings, absent meaning empty) are taken out; any
/// other shape is reported with serde_json's own message.  serde_json parses
/// the exact text it pretty-printed back to the same values, so text that
/// `encode_catalog` produced decodes to the records it was produced from;
/// and it parses `[]` as the empty array.
#[verifier::external_body]
pub(crate) fn decode_catalog(text: &str) -> (r: Result<Vec<Meal>, String>)
    ensures
        forall|m: Seq<MealView>| text@ == catalog_json(m) ==> r is Ok && meals_view(r->Ok_0@) == m,
        text@ == "[]"@ ==> r is Ok && r->Ok_0@.len() == 0,
{
    let objects: Vec<serde_json::Map<String, serde_json::Value>> =
        serde_json::from_str(text).map_err(|e| e.to_string())?;
    let mut book: Vec<Meal> = Vec::new();
    for mut obj in objects {
        let name_value = obj.remove("name").unwrap_or(serde_json::Value::Null);
        let name: String = serde_json::from_value(name_value).map_err(|e| e.to_string())?;
        let tags: Vec<String> = match obj.remove("tags") {
            Some(v) => serde_json::from_value(v).map_err(|e| e.to_string())?,
            None => Vec::new(),
        };
        book.push(Meal { name, tags });
    }
    Ok(book)
}

/// Containment of `pat` in `text` as a literal, contiguous substring; the
/// empty sequence is contained in everything.
pub open spec fn is_substring(pat: Seq<char>, text: Seq<char>) -> bool {
    exists|i: int|
        0 <= i && i + pat.len() <= text.len() && #[trigger] text.subrange(i, i + pat.len()) == pat
}

/// Relies on `str::contains` with a `&str` pattern: true exactly when the
/// pattern occurs as a literal substring of the text.
#[verifier::external_body]
pub(crate) fn str_contains(text: &str, pat: &str) -> (r: bool)
    ensures
        r == is_substring(pat@, text@),
{
    text.contains(pat)
}

} // verus!
