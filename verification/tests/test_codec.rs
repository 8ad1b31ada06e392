use wiserone::quotes::{Quote, QuoteError};

fn quote(text: &str, author: &str, date: &str, url: &str) -> Quote {
    Quote {
        quote_text: text.to_string(),
        author: author.to_string(),
        date_added: date.to_string(),
        image_url: url.to_string(),
    }
}

/// The rendering has the fixed canonical shape.
#[test]
fn test_to_json_shape() {
    let q = quote("Be kind.", "A", "2024-01-05", "http://example.com/a.jpg");
    assert_eq!(
        q.to_json(),
        "{\"quote_text\":\"Be kind.\",\"author\":\"A\",\"date_added\":\"2024-01-05\",\
         \"image_url\":\"http://example.com/a.jpg\"}"
    );
}

/// Quotes and backslashes in field values are escaped, and unescaped
/// back on parsing.
#[test]
fn test_round_trip_with_escapes() {
    let q = quote("She said \"go\" \\ twice", "A\\B", "2024-01-05", "http://example.com/a.jpg");
    let rendered = q.to_json();
    let parsed = Quote::from_json(&rendered).unwrap();
    assert_eq!(parsed, q);
}

/// Empty field values round-trip too.
#[test]
fn test_round_trip_empty_fields() {
    let q = quote("", "", "", "");
    let parsed = Quote::from_json(&q.to_json()).unwrap();
    assert_eq!(parsed, q);
}

/// Text of any other shape is rejected as a parse error.
#[test]
fn test_from_json_rejects_other_shapes() {
    for bad in [
        "",
        "{}",
        "{\"quote_text\":\"x\"}",
        "{\"quote_text\":\"unterminated",
        "{\"quote_text\":\"x\",\"author\":\"a\",\"date_added\":\"d\",\"image_url\":\"u\"} ",
        "{\"quote_text\":\"bad \\n escape\",\"author\":\"a\",\"date_added\":\"d\",\"image_url\":\"u\"}",
    ] {
        match Quote::from_json(bad) {
            Ok(_) => panic!("Expected a parse error for {:?}", bad),
            Err(e) => assert!(matches!(e, QuoteError::ParseError(_))),
        }
    }
}
