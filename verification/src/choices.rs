//! What the module's functions decide from their arguments alone.

use vstd::prelude::*;

use crate::text::{push_all, string_of, to_chars};

verus! {

/// The two encodings of Roblox files.
#[derive(Clone, Copy, PartialEq, Eq, Debug)]
pub enum FileFormat {
    Binary,
    Xml,
}

/// The encoding that a file is written in: XML where `as_xml` is
/// `Some(true)`, binary otherwise.
pub open spec fn output_format_of(as_xml: Option<bool>) -> FileFormat {
    if as_xml == Some(true) {
        FileFormat::Xml
    } else {
        FileFormat::Binary
    }
}

/// The encoding that a file is written in: XML where `as_xml` is
/// `Some(true)`, binary otherwise.
pub fn output_format(as_xml: Option<bool>) -> (f: FileFormat)
    ensures
        f == output_format_of(as_xml),
{
    match as_xml {
        Some(true) => FileFormat::Xml,
        _ => FileFormat::Binary,
    }
}

/// Which form of the Roblox authentication cookie is read.
#[derive(Clone, Copy, PartialEq, Eq, Debug)]
pub enum CookieForm {
    /// The bare value of `.ROBLOSECURITY`.
    RawValue,
    /// The whole cookie, `.ROBLOSECURITY=` and the value.
    Cookie,
}

/// The bare value where `raw` is `Some(true)`, the whole cookie otherwise.
pub fn cookie_form(raw: Option<bool>) -> (f: CookieForm)
    ensures
        f == (if raw == Some(true) {
            CookieForm::RawValue
        } else {
            CookieForm::Cookie
        }),
{
    match raw {
        Some(true) => CookieForm::RawValue,
        _ => CookieForm::Cookie,
    }
}

/// The error that setting a property without a setter raises.
pub fn read_only_message(property_name: &str) -> (m: String)
    ensures
        m@ == "Property '"@ + property_name@ + "' is read-only"@,
{
    let mut v = to_chars("Property '");
    push_all(&mut v, &to_chars(property_name));
    push_all(&mut v, &to_chars("' is read-only"));
    string_of(&v)
}

} // verus!
