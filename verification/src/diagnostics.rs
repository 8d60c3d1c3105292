//! What the diagnostics report of the editor's external-browser setting.
use crate::text::{chars_of, opt_view, push_str_chars, string_of};
use vstd::prelude::*;

verus! {

/// `serde_json::Value`, carried opaquely.
#[verifier::external_type_specification]
#[verifier::external_body]
pub struct ExJsonValue(serde_json::Value);

/// `serde_json::Error`, carried opaquely.
#[verifier::external_type_specification]
#[verifier::external_body]
pub struct ExJsonError(serde_json::Error);

/// Whether `serde_json::from_str::<Value>` accepts the text.
pub uninterp spec fn json_parses(text: Seq<char>) -> bool;

/// The member `key` of the JSON value parsed from `text`, as `Value::get`
/// finds it, written out as JSON text (`None` when there is no such member).
pub uninterp spec fn json_member_text(text: Seq<char>, key: Seq<char>) -> Option<Seq<char>>;

/// A JSON value together with the text it was parsed from.
pub struct ParsedJson {
    value: serde_json::Value,
    source: Ghost<Seq<char>>,
}

impl View for ParsedJson {
    type V = Seq<char>;

    closed spec fn view(&self) -> Seq<char> {
        self.source@
    }
}

/// `serde_json::from_str::<serde_json::Value>`: succeeds exactly when the
/// text parses; the parsed value remembers its text.
#[verifier::external_body]
fn parse_json(text: &str) -> (r: Result<ParsedJson, serde_json::Error>)
    ensures
        r is Ok <==> json_parses(text@),
        r matches Ok(j) ==> j@ == text@,
{
    match serde_json::from_str::<serde_json::Value>(text) {
        Ok(value) => Ok(ParsedJson { value, source: Ghost(text@) }),
        Err(e) => Err(e),
    }
}

/// `serde_json::Value::get` with a key, the member found rendered by the
/// value's `Display` (compact JSON); named `json_member_text` of the parsed
/// text and the key.
#[verifier::external_body]
fn json_member(doc: &ParsedJson, key: &str) -> (r: Option<String>)
    ensures
        opt_view(r) == json_member_text(doc@, key@),
{
    doc.value.get(key).map(|member| member.to_string())
}

/// The settings key holding the editor's external browser.
pub const EXTERNAL_BROWSER_KEY: &'static str = "workbench.externalBrowser";

/// The report line for the external-browser setting, given the setting as
/// JSON text (`None` when unset).
pub open spec fn external_browser_line_spec(member: Option<Seq<char>>) -> Seq<char> {
    match member {
        Some(b) => "VS Code externalBrowser: "@ + b,
        None => "VS Code externalBrowser: <unset>"@,
    }
}

/// The report line for the external-browser setting, given the setting as
/// JSON text (`None` when unset).
pub fn external_browser_line(member: Option<String>) -> (r: String)
    ensures
        r@ == external_browser_line_spec(opt_view(member)),
{
    let mut v: Vec<char> = Vec::new();
    match member {
        Some(b) => {
            push_str_chars(&mut v, "VS Code externalBrowser: ");
            push_str_chars(&mut v, b.as_str());
        },
        None => {
            push_str_chars(&mut v, "VS Code externalBrowser: <unset>");
        },
    }
    proof {
        assert(Seq::<char>::empty() + "VS Code externalBrowser: <unset>"@ =~= "VS Code externalBrowser: <unset>"@);
        assert(Seq::<char>::empty() + "VS Code externalBrowser: "@ =~= "VS Code externalBrowser: "@);
    }
    string_of(&v)
}

/// What the diagnostics print of a settings file's text: nothing when it is
/// not JSON, else the external-browser line.
pub open spec fn vscode_report_spec(settings: Seq<char>) -> Option<Seq<char>> {
    if json_parses(settings) {
        Some(external_browser_line_spec(json_member_text(settings, EXTERNAL_BROWSER_KEY@)))
    } else {
        None
    }
}

/// The line the diagnostics print for the editor's settings text: `None`
/// when the text is not JSON, else the value of `workbench.externalBrowser`
/// or `<unset>`.
pub fn vscode_browser_report(settings: &str) -> (r: Option<String>)
    ensures
        opt_view(r) == vscode_report_spec(settings@),
{
    match parse_json(settings) {
        Ok(doc) => {
            let member = json_member(&doc, EXTERNAL_BROWSER_KEY);
            Some(external_browser_line(member))
        },
        Err(_) => None,
    }
}

} // verus!
