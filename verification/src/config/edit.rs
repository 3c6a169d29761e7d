//! Changes to the config file that keep its comments and formatting.
use vstd::prelude::*;

verus! {

/// The document `text` with the section `section` replaced by one that holds
/// the string `value` under `key` and nothing else, or the message why the
/// text is no document.
pub uninterp spec fn section_replaced(
    text: Seq<char>,
    section: Seq<char>,
    key: Seq<char>,
    value: Seq<char>,
) -> Result<Seq<char>, Seq<char>>;

/// Parses `text` as a `toml_edit::DocumentMut`, assigns a fresh
/// `toml_edit::Table` that holds `value` under `key` to the document's entry
/// `section`, and prints the document with its own `to_string`. An error is
/// the parser's message. The result depends on the four texts alone; what
/// `toml_edit` prints for the rest of the document is not stated.
#[verifier::external_body]
fn replace_section(text: &str, section: &str, key: &str, value: &str) -> (r: Result<String, String>)
    ensures
        match r {
            Ok(t) => section_replaced(text@, section@, key@, value@) == Ok::<Seq<char>, Seq<char>>(
                t@,
            ),
            Err(e) => section_replaced(text@, section@, key@, value@) == Err::<
                Seq<char>,
                Seq<char>,
            >(e@),
        },
{
    let mut doc = match text.parse::<toml_edit::DocumentMut>() {
        Ok(doc) => doc,
        Err(e) => return Err(e.to_string()),
    };
    let mut table = toml_edit::Table::new();
    table[key] = toml_edit::value(value);
    doc[section] = toml_edit::Item::Table(table);
    Ok(doc.to_string())
}

/// What an edit of the config file comes to.
pub open spec fn edit_result(edited: Result<Seq<char>, Seq<char>>) -> Result<Seq<char>, Seq<char>> {
    match edited {
        Ok(t) => Ok(t),
        Err(e) => Err("couldn't edit config: "@ + e),
    }
}

/// The text of a result.
pub open spec fn result_text(r: Result<String, String>) -> Result<Seq<char>, Seq<char>> {
    match r {
        Ok(t) => Ok(t@),
        Err(e) => Err(e@),
    }
}

/// What an edit of the config file comes to: its new text, or a message.
pub fn finish_edit(edited: Result<String, String>) -> (r: Result<String, String>)
    ensures
        result_text(r) == edit_result(result_text(edited)),
{
    match edited {
        Ok(t) => Ok(t),
        Err(e) => {
            let mut out = "couldn't edit config: ".to_owned();
            out.push_str(e.as_str());
            Err(out)
        },
    }
}

/// Rewrite the `[colors]` section of config.toml to just the chosen preset,
/// preserving the rest of the file's comments and formatting. Explicit color
/// keys are dropped deliberately: they override presets, so leaving them
/// would make the newly chosen theme a no-op.
pub fn persist_preset(text: &str, name: &str) -> (r: Result<String, String>)
    ensures
        result_text(r) == edit_result(section_replaced(text@, "colors"@, "preset"@, name@)),
{
    finish_edit(replace_section(text, "colors", "preset", name))
}

/// The message for a config file that could not be written.
pub fn config_unwritable(message: &str) -> (r: String)
    ensures
        r@ == "couldn't write config: "@ + message@,
{
    let mut out = "couldn't write config: ".to_owned();
    out.push_str(message);
    out
}

} // verus!
