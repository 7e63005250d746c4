//! The custom input formats (JSON and YAML language maps, `.langcodec`
//! resource arrays): naming them, and recognising them from a file's path and
//! content.

use vstd::prelude::*;
use vstd::string::*;
use crate::paths::{extension_of, path_extension};
use crate::text::{
    ascii_lower, cat, cat4, chars_eq_str, chars_of, owned, str_eq, trim,
    trim_chars, trim_lower,
};

verus! {

broadcast use vstd::string::group_string_axioms;

/// Custom formats that only convert one way, into resources.
#[derive(Debug, Clone, Copy, PartialEq, Eq, Structural)]
pub enum CustomFormat {
    /// A JSON object mapping language codes (and `key`) to translations.
    JSONLanguageMap,
    /// A YAML mapping of language codes (and `key`) to translations.
    YAMLLanguageMap,
    /// A JSON array of language-map objects.
    JSONArrayLanguageMap,
    /// A JSON array of resource objects, each with `metadata` and `entries`.
    LangcodecResourceArray,
}

pub open spec fn is_format_separator(c: char) -> bool {
    c == '-' || c == '_'
}

/// `s` with every `-` and `_` removed.
pub open spec fn without_separators(s: Seq<char>) -> Seq<char>
    decreases s.len(),
{
    if s.len() == 0 {
        s
    } else if is_format_separator(s.last()) {
        without_separators(s.drop_last())
    } else {
        without_separators(s.drop_last()).push(s.last())
    }
}

/// The spelling a custom format name is matched in: trimmed, ASCII-lowercased,
/// without `-` and `_`.
pub open spec fn format_key(s: Seq<char>) -> Seq<char> {
    without_separators(ascii_lower(trim(s)))
}

pub open spec fn custom_format_from_key(k: Seq<char>) -> Option<CustomFormat> {
    if k == "jsonlanguagemap"@ {
        Some(CustomFormat::JSONLanguageMap)
    } else if k == "jsonarraylanguagemap"@ {
        Some(CustomFormat::JSONArrayLanguageMap)
    } else if k == "yamllanguagemap"@ {
        Some(CustomFormat::YAMLLanguageMap)
    } else if k == "langcodecresourcearray"@ {
        Some(CustomFormat::LangcodecResourceArray)
    } else {
        None
    }
}

pub open spec fn supported_custom_formats_text() -> Seq<char> {
    "json-language-map, json-array-language-map, yaml-language-map, langcodec-resource-array"@
}

pub open spec fn unknown_custom_format_message(s: Seq<char>) -> Seq<char> {
    "Unknown custom format: '"@ + s + "'. Supported formats: "@ + supported_custom_formats_text()
}

/// A list of all supported custom formats for help messages.
pub fn get_supported_custom_formats() -> (r: &'static str)
    ensures
        r@ == supported_custom_formats_text(),
{
    "json-language-map, json-array-language-map, yaml-language-map, langcodec-resource-array"
}

fn remove_separators(v: &[char]) -> (r: Vec<char>)
    ensures
        r@ == without_separators(v@),
{
    let mut r: Vec<char> = Vec::new();
    let mut i: usize = 0;
    while i < v.len()
        invariant
            i <= v@.len(),
            r@ == without_separators(v@.take(i as int)),
        decreases v.len() - i,
    {
        let c = v[i];
        assert(v@.take(i + 1).drop_last() =~= v@.take(i as int));
        if c != '-' && c != '_' {
            r.push(c);
        }
        i = i + 1;
    }
    assert(v@.take(v@.len() as int) =~= v@);
    r
}

/// Parses a custom format name. Case, surrounding whitespace, `-` and `_` do
/// not matter: `json-language-map`, `JSON_LANGUAGE_MAP` and `jsonlanguagemap`
/// all name the same format.
pub fn parse_custom_format(s: &str) -> (r: Result<CustomFormat, String>)
    ensures
        match custom_format_from_key(format_key(s@)) {
            Some(f) => r == Ok::<CustomFormat, String>(f),
            None => r matches Err(e) && e@ == unknown_custom_format_message(s@),
        },
{
    let lowered = trim_lower(s);
    let k = remove_separators(lowered.as_slice());
    if chars_eq_str(k.as_slice(), "jsonlanguagemap") {
        Ok(CustomFormat::JSONLanguageMap)
    } else if chars_eq_str(k.as_slice(), "jsonarraylanguagemap") {
        Ok(CustomFormat::JSONArrayLanguageMap)
    } else if chars_eq_str(k.as_slice(), "yamllanguagemap") {
        Ok(CustomFormat::YAMLLanguageMap)
    } else if chars_eq_str(k.as_slice(), "langcodecresourcearray") {
        Ok(CustomFormat::LangcodecResourceArray)
    } else {
        Err(cat4("Unknown custom format: '", s, "'. Supported formats: ", get_supported_custom_formats()))
    }
}

impl core::str::FromStr for CustomFormat {
    type Err = String;

    /// The format `parse_custom_format` reads from `s`, or its error.
    fn from_str(s: &str) -> (r: Result<Self, Self::Err>)
        ensures
            match custom_format_from_key(format_key(s@)) {
                Some(f) => r == Ok::<CustomFormat, String>(f),
                None => r matches Err(e) && e@ == unknown_custom_format_message(s@),
            },
    {
        parse_custom_format(s)
    }
}

/// The top level of a JSON document, as far as format detection reads it.
pub enum JsonTop {
    /// Not valid JSON, with the parser's error message.
    Invalid(String),
    /// An array; for each item, the keys of the item when it is an object.
    Array(Vec<Option<Vec<String>>>),
    /// An object, with its keys.
    Object(Vec<String>),
    /// Any other valid JSON value.
    Scalar,
}

/// The mathematical view of [`JsonTop`].
pub enum JsonTopView {
    Invalid(Seq<char>),
    Array(Seq<Option<Seq<Seq<char>>>>),
    Object(Seq<Seq<char>>),
    Scalar,
}

pub open spec fn keys_view(keys: Vec<String>) -> Seq<Seq<char>> {
    keys@.map_values(|k: String| k@)
}

impl View for JsonTop {
    type V = JsonTopView;

    open spec fn view(&self) -> JsonTopView {
        match self {
            JsonTop::Invalid(e) => JsonTopView::Invalid(e@),
            JsonTop::Array(items) => JsonTopView::Array(
                items@.map_values(
                    |o: Option<Vec<String>>|
                        match o {
                            Some(k) => Some(keys_view(k)),
                            None => None,
                        },
                ),
            ),
            JsonTop::Object(keys) => JsonTopView::Object(keys_view(*keys)),
            JsonTop::Scalar => JsonTopView::Scalar,
        }
    }
}

/// What `serde_json::from_str::<serde_json::Value>` makes of a text, read down
/// to the top-level shape and the keys of objects at the first two levels; for
/// a text it refuses, the error's message (its `Display`).
pub uninterp spec fn json_top_level(content: Seq<char>) -> JsonTopView;

/// Whether `serde_yaml::from_str::<serde_yaml::Value>` accepts a text.
pub uninterp spec fn yaml_parses(content: Seq<char>) -> bool;

/// Parses `content` with `serde_json` and reports its top-level shape, or the
/// parse error's message. The contract claims only that the result is what
/// that parse gives.
#[verifier::external_body]
pub(crate) fn json_top(content: &str) -> (r: JsonTop)
    ensures
        r@ == json_top_level(content@),
{
    let keys = |m: &serde_json::Map<String, serde_json::Value>| m.keys().cloned().collect();
    match serde_json::from_str::<serde_json::Value>(content) {
        Err(e) => JsonTop::Invalid(e.to_string()),
        Ok(serde_json::Value::Array(items)) => JsonTop::Array(
            items.iter().map(|item| item.as_object().map(keys)).collect(),
        ),
        Ok(serde_json::Value::Object(map)) => JsonTop::Object(keys(&map)),
        Ok(_) => JsonTop::Scalar,
    }
}

/// Whether `serde_yaml` parses `content` as a YAML value. The contract claims
/// only that the result is what that parse gives.
#[verifier::external_body]
pub(crate) fn yaml_is_valid(content: &str) -> (r: bool)
    ensures
        r == yaml_parses(content@),
{
    serde_yaml::from_str::<serde_yaml::Value>(content).is_ok()
}

pub open spec fn keys_contain(keys: Seq<Seq<char>>, k: Seq<char>) -> bool {
    exists|i: int| 0 <= i < keys.len() && keys[i] == k
}

/// The content is a JSON array whose first item is an object with both a
/// `metadata` and an `entries` key.
pub open spec fn is_resource_array(content: Seq<char>) -> bool {
    match json_top_level(content) {
        JsonTopView::Array(items) => items.len() > 0 && match items[0] {
            Some(keys) => keys_contain(keys, "metadata"@) && keys_contain(keys, "entries"@),
            None => false,
        },
        _ => false,
    }
}

/// The content is a non-empty JSON object.
pub open spec fn is_language_map(content: Seq<char>) -> bool {
    match json_top_level(content) {
        JsonTopView::Object(keys) => keys.len() > 0,
        _ => false,
    }
}

/// The content is a JSON array.
pub open spec fn is_json_array(content: Seq<char>) -> bool {
    json_top_level(content) is Array
}

/// The extension of a path in Unicode lowercase (`str::to_lowercase`), empty
/// when it has none.
pub open spec fn lower_extension(path: Seq<char>) -> Seq<char> {
    match path_extension(path) {
        Some(e) => crate::editor::unicode_lowercase(e),
        None => Seq::empty(),
    }
}

/// The custom format a file is recognised as, from its extension and content.
pub open spec fn detected_format(path: Seq<char>, content: Seq<char>) -> Option<CustomFormat> {
    let ext = lower_extension(path);
    if ext == "langcodec"@ && is_resource_array(content) {
        Some(CustomFormat::LangcodecResourceArray)
    } else if ext == "json"@ && is_language_map(content) {
        Some(CustomFormat::JSONLanguageMap)
    } else if ext == "json"@ && is_json_array(content) {
        Some(CustomFormat::JSONArrayLanguageMap)
    } else if (ext == "yaml"@ || ext == "yml"@) && yaml_parses(content) {
        Some(CustomFormat::YAMLLanguageMap)
    } else {
        None
    }
}

fn keys_have(keys: &Vec<String>, k: &str) -> (r: bool)
    ensures
        r == keys_contain(keys_view(*keys), k@),
{
    let mut i: usize = 0;
    while i < keys.len()
        invariant
            i <= keys@.len(),
            forall|j: int| 0 <= j < i ==> keys@[j]@ != k@,
        decreases keys.len() - i,
    {
        if str_eq(keys[i].as_str(), k) {
            assert(keys_view(*keys)[i as int] == k@);
            return true;
        }
        i = i + 1;
    }
    assert forall|j: int| 0 <= j < keys_view(*keys).len() implies keys_view(*keys)[j] != k@ by {
        assert(keys_view(*keys)[j] == keys@[j]@);
    }
    false
}

/// The lowercased extension of `path` (empty when there is none).
pub fn lowered_extension(path: &str) -> (r: Vec<char>)
    ensures
        r@ == lower_extension(path@),
{
    match extension_of(path) {
        Some(e) => {
            let l = crate::editor::to_lowercase(e.as_str());
            chars_of(l.as_str())
        },
        None => Vec::new(),
    }
}

/// Detects the custom format of a file from its extension and content: a
/// `.langcodec` resource array, a `.json` language map (object) or array of
/// language maps, or a `.yaml`/`.yml` language map. `None` when none applies.
///
/// The extension is compared after ASCII lowercasing; since none of the
/// recognised extensions holds a `k`, this agrees with full Unicode
/// lowercasing.
pub fn detect_custom_format(file_path: &str, file_content: &str) -> (r: Option<CustomFormat>)
    ensures
        r == detected_format(file_path@, file_content@),
{
    proof {
        reveal_strlit("langcodec");
        reveal_strlit("json");
        reveal_strlit("yaml");
        reveal_strlit("yml");
        assert("yaml"@.len() == 4 && "yml"@.len() == 3 && "json"@.len() == 4);
        assert("langcodec"@.len() == 9);
        assert("yaml"@[0] == 'y' && "json"@[0] == 'j');
    }
    let ext = lowered_extension(file_path);
    let is_langcodec = chars_eq_str(ext.as_slice(), "langcodec");
    let is_json = chars_eq_str(ext.as_slice(), "json");
    let is_yaml = chars_eq_str(ext.as_slice(), "yaml") || chars_eq_str(ext.as_slice(), "yml");
    if !(is_langcodec || is_json || is_yaml) {
        return None;
    }
    if is_yaml {
        if yaml_is_valid(file_content) {
            return Some(CustomFormat::YAMLLanguageMap);
        }
        return None;
    }
    let top = json_top(file_content);
    if is_langcodec {
        let found = match &top {
            JsonTop::Array(items) => {
                if items.len() > 0 {
                    match &items[0] {
                        Some(keys) => keys_have(keys, "metadata") && keys_have(keys, "entries"),
                        None => false,
                    }
                } else {
                    false
                }
            },
            _ => false,
        };
        if found {
            Some(CustomFormat::LangcodecResourceArray)
        } else {
            None
        }
    } else {
        match &top {
            JsonTop::Object(keys) => {
                if keys.len() > 0 {
                    Some(CustomFormat::JSONLanguageMap)
                } else {
                    None
                }
            },
            JsonTop::Array(_) => Some(CustomFormat::JSONArrayLanguageMap),
            _ => None,
        }
    }
}

pub open spec fn undetected_format_message() -> Seq<char> {
    "Could not detect custom format from file content. Supported formats: "@
        + supported_custom_formats_text()
}

/// Validates custom format file content: blank content is refused, otherwise
/// the detected format is returned, or an error naming the supported formats.
pub fn validate_custom_format_content(file_path: &str, file_content: &str) -> (r: Result<
    CustomFormat,
    String,
>)
    ensures
        trim(file_content@).len() == 0 ==> (r matches Err(e) && e@ == "File content is empty"@),
        trim(file_content@).len() != 0 ==> match detected_format(file_path@, file_content@) {
            Some(f) => r == Ok::<CustomFormat, String>(f),
            None => r matches Err(e) && e@ == undetected_format_message(),
        },
{
    let v = chars_of(file_content);
    let t = trim_chars(v.as_slice());
    if t.len() == 0 {
        return Err(owned("File content is empty"));
    }
    match detect_custom_format(file_path, file_content) {
        Some(f) => Ok(f),
        None => Err(cat("Could not detect custom format from file content. Supported formats: ", get_supported_custom_formats())),
    }
}

/// What reading content as an explicitly named custom format refuses before
/// any entry is read: a JSON format (the language maps and the resource
/// array) needs valid JSON, and the YAML language map valid YAML.
pub open spec fn named_format_parse_error(format: CustomFormat, content: Seq<char>) -> Option<Seq<char>> {
    match format {
        CustomFormat::YAMLLanguageMap => if yaml_parses(content) {
            None
        } else {
            Some("Error parsing YAML content"@)
        },
        _ => match json_top_level(content) {
            JsonTopView::Invalid(e) => Some("Error parsing JSON: "@ + e),
            _ => None,
        },
    }
}

/// Checks that content parses as the syntax of an explicitly named custom
/// format, whatever the file's extension.
pub fn check_named_format_content(format: CustomFormat, content: &str) -> (r: Result<(), String>)
    ensures
        match named_format_parse_error(format, content@) {
            Some(e) => r matches Err(m) && m@ == e,
            None => r is Ok,
        },
{
    match format {
        CustomFormat::YAMLLanguageMap => if yaml_is_valid(content) {
            Ok(())
        } else {
            Err(owned("Error parsing YAML content"))
        },
        _ => match json_top(content) {
            JsonTop::Invalid(e) => Err(cat("Error parsing JSON: ", e.as_str())),
            _ => Ok(()),
        },
    }
}

} // verus!
