//! What clients send to the recipe server, and what the server derives
//! from it before it touches the disk or the network.

use vstd::prelude::*;
use crate::paths::RequestError;
use crate::text::{alphanumeric, is_alphanumeric, trimmed, trim, lowercase_of, lowercase, push_char,
    joined};

verus! {

/// A search for recipes.
#[derive(Clone, Debug, PartialEq, Eq)]
pub struct SearchQuery {
    /// The words to search for.
    pub q: String,
}

/// A recipe to store, already in recipe syntax.
#[derive(Clone, Debug, PartialEq, Eq)]
pub struct SaveRecipeRequest {
    pub title: Option<String>,
    pub content: String,
}

/// A recipe in plain words, to be converted to recipe syntax and stored.
#[derive(Clone, Debug, PartialEq, Eq)]
pub struct PlainTextRecipeRequest {
    pub title: Option<String>,
    pub content: String,
}

/// A character of a title as it goes into a file name: letters, digits and
/// spaces stay, anything else becomes a hyphen.
pub open spec fn safe_char(c: char) -> char {
    if alphanumeric(c) || c == ' ' {
        c
    } else {
        '-'
    }
}

/// A title with every character made safe.
pub open spec fn safe_title(title: Seq<char>) -> Seq<char> {
    Seq::new(title.len(), |i: int| safe_char(title[i]))
}

/// A text with a hyphen in place of every space.
pub open spec fn hyphenated(s: Seq<char>) -> Seq<char> {
    Seq::new(
        s.len(),
        |i: int|
            if s[i] == ' ' {
                '-'
            } else {
                s[i]
            },
    )
}

/// The file name for a recipe with a title: the safe title, trimmed, with
/// hyphens for spaces, in lowercase, and the extension of recipe files.
pub open spec fn titled_file_name(title: Seq<char>) -> Seq<char> {
    lowercase_of(hyphenated(trimmed(safe_title(title)))) + ".cook"@
}

/// The file name for a recipe without a title, stored at the time
/// `timestamp`.
pub open spec fn stamped_file_name(timestamp: Seq<char>) -> Seq<char> {
    "recipe-"@ + timestamp + ".cook"@
}

/// The file name under which a recipe is stored.
pub open spec fn file_name_spec(title: Option<Seq<char>>, timestamp: Seq<char>) -> Seq<char> {
    match title {
        Some(t) => titled_file_name(t),
        None => stamped_file_name(timestamp),
    }
}

/// A title with every character made safe.
fn make_safe(title: &str) -> (r: String)
    ensures
        r@ == safe_title(title@),
{
    let n: usize = title.unicode_len();
    let mut r = String::new();
    let mut i: usize = 0;
    while i < n
        invariant
            i <= n,
            n == title@.len(),
            r@ == safe_title(title@).take(i as int),
        decreases n - i,
    {
        let c = title.get_char(i);
        let safe = if is_alphanumeric(c) || c == ' ' {
            c
        } else {
            '-'
        };
        push_char(&mut r, safe);
        assert(r@ =~= safe_title(title@).take(i + 1));
        i += 1;
    }
    assert(safe_title(title@).take(n as int) =~= safe_title(title@));
    r
}

/// A text with a hyphen in place of every space.
fn hyphenate(s: &str) -> (r: String)
    ensures
        r@ == hyphenated(s@),
{
    let n: usize = s.unicode_len();
    let mut r = String::new();
    let mut i: usize = 0;
    while i < n
        invariant
            i <= n,
            n == s@.len(),
            r@ == hyphenated(s@).take(i as int),
        decreases n - i,
    {
        let c = s.get_char(i);
        let d = if c == ' ' {
            '-'
        } else {
            c
        };
        push_char(&mut r, d);
        assert(r@ =~= hyphenated(s@).take(i + 1));
        i += 1;
    }
    assert(hyphenated(s@).take(n as int) =~= hyphenated(s@));
    r
}

/// The file name under which a recipe is stored: made from its title where
/// it has one, else from the time of storing, given as `timestamp`.
pub fn recipe_file_name(title: Option<&str>, timestamp: &str) -> (r: String)
    ensures
        r@ == file_name_spec(
            match title {
                Some(t) => Some(t@),
                None => None,
            },
            timestamp@,
        ),
{
    match title {
        Some(t) => {
            let safe = make_safe(t);
            let cut = trim(safe.as_str());
            let dashed = hyphenate(cut.as_str());
            let lower = lowercase(dashed.as_str());
            joined(lower.as_str(), ".cook")
        },
        None => {
            let head = joined("recipe-", timestamp);
            joined(head.as_str(), ".cook")
        },
    }
}

impl SaveRecipeRequest {
    /// The file name under which the recipe is stored.
    pub fn file_name(&self, timestamp: &str) -> (r: String)
        ensures
            r@ == file_name_spec(
                match self.title {
                    Some(t) => Some(t@),
                    None => None,
                },
                timestamp@,
            ),
    {
        match &self.title {
            Some(t) => recipe_file_name(Some(t.as_str()), timestamp),
            None => recipe_file_name(None, timestamp),
        }
    }
}

/// What the conversion service is told before the recipe.
pub open spec fn prompt_head() -> Seq<char> {
    "Convert this recipe to cooklang format (https://cooklang.org/).\nInclude metadata section with title and servings if available.\nMark ingredients with @ and cookware with #.\nExample format:\n---\ntitle: \"Classic Chocolate Chip Cookies\"\nservings: \"24 cookies\"\n---\nPreheat #oven{} to 375°F.\nIn a #large bowl{}, cream together @butter{1%cup} and @sugar{1%cup}.\n\nHere's the recipe to convert:\n"@
}

/// What the conversion service is told after the recipe.
pub open spec fn prompt_tail() -> Seq<char> {
    "\nReturn only the cooklang recipe text, no other text."@
}

/// The request for converting the recipe `content`, in words.
pub fn conversion_prompt(content: &str) -> (r: String)
    ensures
        r@ == prompt_head() + content@ + prompt_tail(),
{
    let head = joined(
        "Convert this recipe to cooklang format (https://cooklang.org/).\nInclude metadata section with title and servings if available.\nMark ingredients with @ and cookware with #.\nExample format:\n---\ntitle: \"Classic Chocolate Chip Cookies\"\nservings: \"24 cookies\"\n---\nPreheat #oven{} to 375°F.\nIn a #large bowl{}, cream together @butter{1%cup} and @sugar{1%cup}.\n\nHere's the recipe to convert:\n",
        content,
    );
    joined(head.as_str(), "\nReturn only the cooklang recipe text, no other text.")
}

impl PlainTextRecipeRequest {
    /// Accepts a request that has something to convert: an empty content is
    /// a bad request.
    pub fn validate(&self) -> (r: Result<(), RequestError>)
        ensures
            self.content@.len() > 0 ==> r == Ok::<(), RequestError>(()),
            self.content@.len() == 0 ==> r == Err::<(), RequestError>(RequestError::BadRequest),
    {
        if self.content.as_str().unicode_len() == 0 {
            Err(RequestError::BadRequest)
        } else {
            Ok(())
        }
    }

    /// The file name under which the converted recipe is stored.
    pub fn file_name(&self, timestamp: &str) -> (r: String)
        ensures
            r@ == file_name_spec(
                match self.title {
                    Some(t) => Some(t@),
                    None => None,
                },
                timestamp@,
            ),
    {
        match &self.title {
            Some(t) => recipe_file_name(Some(t.as_str()), timestamp),
            None => recipe_file_name(None, timestamp),
        }
    }

    /// The request for converting the recipe, in words.
    pub fn prompt(&self) -> (r: String)
        ensures
            r@ == prompt_head() + self.content@ + prompt_tail(),
    {
        conversion_prompt(self.content.as_str())
    }
}

/// A JSON document as the JSON library holds it.
#[verifier::external_type_specification]
#[verifier::external_body]
pub struct ExJsonValue(serde_json::Value);

/// The JSON document that a text spells; `None` where the text is not
/// JSON.
pub uninterp spec fn parsed(text: Seq<char>) -> Option<serde_json::Value>;

/// The member of a JSON object under the name `key`; `None` where the
/// document is no object or has no such member.
pub uninterp spec fn member_of(document: serde_json::Value, key: Seq<char>) -> Option<
    serde_json::Value,
>;

/// The item of a JSON array at the position `index`; `None` where the
/// document is no array or is shorter.
pub uninterp spec fn item_of(document: serde_json::Value, index: nat) -> Option<serde_json::Value>;

/// The text that a JSON document is; `None` where it is anything but a
/// text.
pub uninterp spec fn text_of_json(document: serde_json::Value) -> Option<Seq<char>>;

/// Calls `serde_json::from_str`: the document that `text` spells, or `None`
/// where `text` is not JSON. The document depends on the characters of
/// `text` alone.
#[verifier::external_body]
pub(crate) fn parse_json(text: &str) -> (r: Option<serde_json::Value>)
    ensures
        r == parsed(text@),
{
    serde_json::from_str(text).ok()
}

/// Calls `serde_json::Value::get` with a name: the member of the object
/// `document` under the name `key`, or `None` where `document` is no object
/// or has no such member.
#[verifier::external_body]
pub(crate) fn json_member<'a>(document: &'a serde_json::Value, key: &str) -> (r: Option<
    &'a serde_json::Value,
>)
    ensures
        match r {
            Some(found) => member_of(*document, key@) == Some(*found),
            None => member_of(*document, key@) is None,
        },
{
    document.get(key)
}

/// Calls `serde_json::Value::get` with a position: the item of the array
/// `document` at `index`, or `None` where `document` is no array or is
/// shorter.
#[verifier::external_body]
pub(crate) fn json_item<'a>(document: &'a serde_json::Value, index: usize) -> (r: Option<
    &'a serde_json::Value,
>)
    ensures
        match r {
            Some(found) => item_of(*document, index as nat) == Some(*found),
            None => item_of(*document, index as nat) is None,
        },
{
    document.get(index)
}

/// Calls `serde_json::Value::as_str`: the text that `document` is, or
/// `None` where it is anything but a text.
#[verifier::external_body]
pub(crate) fn json_text(document: &serde_json::Value) -> (r: Option<String>)
    ensures
        match r {
            Some(text) => text_of_json(*document) == Some(text@),
            None => text_of_json(*document) is None,
        },
{
    document.as_str().map(|text| text.to_owned())
}

/// What the server makes of the text found in the reply: the recipe, or an
/// internal error where the reply held none.
pub fn recipe_or_error(found: Option<String>) -> (r: Result<String, RequestError>)
    ensures
        r == match found {
            Some(text) => Ok::<String, RequestError>(text),
            None => Err::<String, RequestError>(RequestError::Internal),
        },
{
    match found {
        Some(text) => Ok(text),
        None => Err(RequestError::Internal),
    }
}

/// The text that a reply holds as the text of the first item of its
/// content: the reply is an object, its member `content` an array, the
/// first item of that an object, and its member `text` a text.
pub open spec fn recipe_in(reply: serde_json::Value) -> Option<Seq<char>> {
    match member_of(reply, "content"@) {
        Some(content) => match item_of(content, 0) {
            Some(first) => match member_of(first, "text"@) {
                Some(text) => text_of_json(text),
                None => None,
            },
            None => None,
        },
        None => None,
    }
}

/// The converted recipe in a reply: the text of the first item of the
/// content of the reply, read as JSON. A reply that is not JSON, or holds no
/// text there, is an internal error.
pub open spec fn converted_recipe_spec(reply: Seq<char>) -> Result<Seq<char>, RequestError> {
    match parsed(reply) {
        Some(document) => match recipe_in(document) {
            Some(text) => Ok(text),
            None => Err(RequestError::Internal),
        },
        None => Err(RequestError::Internal),
    }
}

/// The text of the first item of the content of a reply.
fn recipe_text(reply: &serde_json::Value) -> (r: Option<String>)
    ensures
        match r {
            Some(text) => recipe_in(*reply) == Some(text@),
            None => recipe_in(*reply) is None,
        },
{
    match json_member(reply, "content") {
        Some(content) => match json_item(content, 0) {
            Some(first) => match json_member(first, "text") {
                Some(text) => json_text(text),
                None => None,
            },
            None => None,
        },
        None => None,
    }
}

/// The converted recipe in the reply of the conversion service: the text of
/// the first item of the reply's content. A reply that is not JSON or has
/// no such text is an internal error.
pub fn converted_recipe(reply: &str) -> (r: Result<String, RequestError>)
    ensures
        match (r, converted_recipe_spec(reply@)) {
            (Ok(text), Ok(wanted)) => text@ == wanted,
            (Err(e), Err(f)) => e == f,
            _ => false,
        },
{
    match parse_json(reply) {
        Some(document) => recipe_or_error(recipe_text(&document)),
        None => Err(RequestError::Internal),
    }
}

} // verus!
