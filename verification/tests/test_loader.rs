use wiserone::loader::read_quotes_from_file;
use wiserone::quotes::QuoteError;

const JSON_TWO: &str = r#"{"quotes":[
  {"quote_text":"Stay curious.","author":"A","date_added":"2024-01-02T00:00:00","image_url":"http://example.com/a.jpg"},
  {"quote_text":"Keep going.","author":"B","date_added":"2024-01-01T00:00:00","image_url":"http://example.com/b.jpg"}
]}"#;

/// A JSON document maps to a collection in source order.
#[test]
fn test_load_json_collection() {
    let quotes = read_quotes_from_file("quotes.json", JSON_TWO).unwrap();
    assert_eq!(quotes.quotes.len(), 2);
    assert_eq!(quotes.quotes[0].quote_text, "Stay curious.");
    assert_eq!(quotes.quotes[0].author, "A");
    assert_eq!(quotes.quotes[0].date_added, "2024-01-02T00:00:00");
    assert_eq!(quotes.quotes[0].image_url, "http://example.com/a.jpg");
    assert_eq!(quotes.quotes[1].quote_text, "Keep going.");
    assert_eq!(quotes.used, vec![false, false]);
}

/// A freshly loaded two-entry collection lists oldest first.
#[test]
fn test_load_json_then_select_all() {
    let quotes = read_quotes_from_file("quotes.json", JSON_TWO).unwrap();
    let all = quotes.select_all_quotes().unwrap();
    assert_eq!(all[0].date_added, "2024-01-01T00:00:00");
    assert_eq!(all[1].date_added, "2024-01-02T00:00:00");
}

/// Extra fields in a quote object are ignored; missing ones fail.
#[test]
fn test_load_json_missing_field() {
    let content = r#"{"quotes":[{"quote_text":"X","author":"A","date_added":"2024-01-01"}]}"#;
    match read_quotes_from_file("quotes.json", content) {
        Ok(_) => panic!("Expected a parse error for a missing field"),
        Err(e) => assert!(matches!(e, QuoteError::ParseError(_))),
    }
}

/// Malformed JSON fails with a parse error.
#[test]
fn test_load_json_malformed() {
    match read_quotes_from_file("quotes.json", "{not json") {
        Ok(_) => panic!("Expected a parse error for malformed JSON"),
        Err(e) => assert!(matches!(e, QuoteError::ParseError(_))),
    }
}

/// A JSON document without a `quotes` array fails with a parse error.
#[test]
fn test_load_json_no_quotes_array() {
    match read_quotes_from_file("quotes.json", r#"{"other":1}"#) {
        Ok(_) => panic!("Expected a parse error without a quotes array"),
        Err(e) => assert!(matches!(e, QuoteError::ParseError(_))),
    }
}

/// CSV columns are mapped by header name, not by position.
#[test]
fn test_load_csv_header_driven() {
    let content = "author,image_url,quote_text,date_added\n\
                   A,http://example.com/a.jpg,Stay curious.,2024-01-02\n\
                   B,http://example.com/b.jpg,Keep going.,2024-01-01\n";
    let quotes = read_quotes_from_file("quotes.csv", content).unwrap();
    assert_eq!(quotes.quotes.len(), 2);
    assert_eq!(quotes.quotes[0].quote_text, "Stay curious.");
    assert_eq!(quotes.quotes[0].author, "A");
    assert_eq!(quotes.quotes[0].date_added, "2024-01-02");
    assert_eq!(quotes.quotes[0].image_url, "http://example.com/a.jpg");
    assert_eq!(quotes.quotes[1].author, "B");
    assert_eq!(quotes.used, vec![false, false]);
}

/// A CSV file without one of the four headers fails.
#[test]
fn test_load_csv_missing_column() {
    let content = "author,quote_text,date_added\nA,X,2024-01-01\n";
    match read_quotes_from_file("quotes.csv", content) {
        Ok(_) => panic!("Expected a parse error for a missing column"),
        Err(e) => assert!(matches!(e, QuoteError::ParseError(_))),
    }
}

/// A CSV record with too few fields fails.
#[test]
fn test_load_csv_short_record() {
    let content = "quote_text,author,date_added,image_url\nX,A\n";
    match read_quotes_from_file("quotes.csv", content) {
        Ok(_) => panic!("Expected a parse error for a short record"),
        Err(e) => assert!(matches!(e, QuoteError::ParseError(_))),
    }
}

/// Any extension other than `.json` or `.csv` is rejected before the
/// content is looked at.
#[test]
fn test_load_unsupported_extension() {
    for path in ["quotes.txt", "quotes", ".json", "dir.json/quotes"] {
        match read_quotes_from_file(path, JSON_TWO) {
            Ok(_) => panic!("Expected an unsupported-format error for {}", path),
            Err(e) => assert_eq!(e.message(), "Parse Error: Unsupported file format"),
        }
    }
}

/// The extension is taken from the last path component.
#[test]
fn test_load_extension_in_path() {
    let quotes = read_quotes_from_file("data.d/today.json", JSON_TWO).unwrap();
    assert_eq!(quotes.quotes.len(), 2);
}

/// Trailing separators are ignored when the extension is taken.
#[test]
fn test_load_extension_trailing_slash() {
    let quotes = read_quotes_from_file("quotes.json/", JSON_TWO).unwrap();
    assert_eq!(quotes.quotes.len(), 2);
    let quotes = read_quotes_from_file("data.d/today.json//", JSON_TWO).unwrap();
    assert_eq!(quotes.quotes.len(), 2);
}

/// An empty quotes array loads as an empty collection, which then
/// refuses both selections.
#[test]
fn test_load_json_empty_array() {
    let quotes = read_quotes_from_file("quotes.json", r#"{"quotes":[]}"#).unwrap();
    assert_eq!(quotes.quotes.len(), 0);
    assert!(matches!(
        quotes.select_all_quotes(),
        Err(QuoteError::NoQuotesAvailable)
    ));
}
