use lune_std_roblox::choices::{
    cookie_form, output_format, read_only_message, CookieForm, FileFormat,
};

#[test]
fn xml_only_when_asked() {
    assert_eq!(output_format(Some(true)), FileFormat::Xml);
    assert_eq!(output_format(Some(false)), FileFormat::Binary);
    assert_eq!(output_format(None), FileFormat::Binary);
}

#[test]
fn raw_cookie_only_when_asked() {
    assert_eq!(cookie_form(Some(true)), CookieForm::RawValue);
    assert_eq!(cookie_form(Some(false)), CookieForm::Cookie);
    assert_eq!(cookie_form(None), CookieForm::Cookie);
}

#[test]
fn read_only_property_message() {
    assert_eq!(read_only_message("Health"), "Property 'Health' is read-only");
}
