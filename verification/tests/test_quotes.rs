use std::collections::HashSet;

use wiserone::quotes::{Quote, QuoteError, Quotes};

/// Test the creation and field access of the Quote struct.
#[test]
fn test_quote_struct() {
    let quote = Quote {
        quote_text: "Test quote".to_string(),
        author: "Test author".to_string(),
        date_added: "2024-01-21".to_string(),
        image_url: "http://example.com/image.jpg".to_string(),
    };

    assert_eq!(quote.quote_text, "Test quote");
    assert_eq!(quote.author, "Test author");
    assert_eq!(quote.date_added, "2024-01-21");
    assert_eq!(quote.image_url, "http://example.com/image.jpg");
}

/// Test the initialization of the Quotes struct.
#[test]
fn test_quotes_struct_initialization() {
    let quotes_vec = vec![
        Quote {
            quote_text: "Quote 1".to_string(),
            author: "Author 1".to_string(),
            date_added: "2024-01-21".to_string(),
            image_url: "http://example.com/image1.jpg".to_string(),
        },
        Quote {
            quote_text: "Quote 2".to_string(),
            author: "Author 2".to_string(),
            date_added: "2024-01-22".to_string(),
            image_url: "http://example.com/image2.jpg".to_string(),
        },
    ];

    let quotes = Quotes::new(quotes_vec.clone());
    assert_eq!(quotes.quotes, quotes_vec);
}

/// Test the selection of a random quote from the Quotes struct.
#[test]
fn test_random_quote_selection() {
    let quotes_vec = vec![Quote {
        quote_text: "Test quote 1".to_string(),
        author: "Author 1".to_string(),
        date_added: "2024-01-01".to_string(),
        image_url: "http://example.com/image1.jpg".to_string(),
    }];

    let mut quotes = Quotes::new(quotes_vec);

    let selected_quote_text = match quotes.select_random_quote() {
        Ok(quote) => quote.quote_text.clone(),
        Err(e) => panic!("Failed to select a random quote: {}", e.message()),
    };

    let quotes_texts: HashSet<_> = quotes.quotes.iter().map(|q| &q.quote_text).collect();

    assert!(quotes_texts.contains(&selected_quote_text));
}

/// Test the selection of all quotes from the Quotes struct.
#[test]
fn test_all_quotes_selection() {
    let quotes_vec = vec![
        Quote {
            quote_text: "Test quote 1".to_string(),
            author: "Author 1".to_string(),
            date_added: "2024-01-01".to_string(),
            image_url: "http://example.com/image1.jpg".to_string(),
        },
        Quote {
            quote_text: "Test quote 2".to_string(),
            author: "Author 2".to_string(),
            date_added: "2024-01-02".to_string(),
            image_url: "http://example.com/image2.jpg".to_string(),
        },
    ];
    let quotes = Quotes::new(quotes_vec.clone());
    let all_quotes = match quotes.select_all_quotes() {
        Ok(quotes) => quotes,
        Err(e) => panic!("Failed to select all quotes: {}", e.message()),
    };
    assert_eq!(all_quotes.len(), quotes_vec.len());
    assert_eq!(all_quotes[0].quote_text, quotes_vec[0].quote_text);
    assert_eq!(all_quotes[1].quote_text, quotes_vec[1].quote_text);
    assert_eq!(all_quotes[0].author, quotes_vec[0].author);
    assert_eq!(all_quotes[1].author, quotes_vec[1].author);
    assert_eq!(all_quotes[0].date_added, quotes_vec[0].date_added);
    assert_eq!(all_quotes[1].date_added, quotes_vec[1].date_added);
    assert_eq!(all_quotes[0].image_url, quotes_vec[0].image_url);
    assert_eq!(all_quotes[1].image_url, quotes_vec[1].image_url);
}

/// Test the equality and inequality of Quote structs.
#[test]
fn test_quote_equality() {
    let quote1 = Quote {
        quote_text: "Same quote".to_string(),
        author: "Same author".to_string(),
        date_added: "2024-01-21".to_string(),
        image_url: "http://example.com/image.jpg".to_string(),
    };

    let quote2 = quote1.clone();

    assert_eq!(quote1, quote2);

    let quote3 = Quote {
        quote_text: "Different quote".to_string(),
        author: "Same author".to_string(),
        date_added: "2024-01-21".to_string(),
        image_url: "http://example.com/image.jpg".to_string(),
    };

    assert_ne!(quote1, quote3);
}

/// Test selecting a random quote when the vector is empty.
#[test]
fn test_select_random_quote_empty_vector() {
    let mut quotes = Quotes::new(Vec::new());
    assert!(matches!(quotes.select_random_quote(), Err(_)));
}

/// Test selecting all quotes when the vector is empty.
#[test]
fn test_select_all_quotes_empty_vector() {
    let quotes = Quotes::new(Vec::new());

    match quotes.select_all_quotes() {
        Ok(_) => panic!("Expected an error for empty quotes vector, but got Ok"),
        Err(e) => assert_eq!(e.message(), "No available quotes"),
    }
}

/// Test the serialization and deserialization of Quote structs.
#[test]
fn test_quote_serialization_deserialization() {
    let quote = Quote {
        quote_text: "Test quote".to_string(),
        author: "Test author".to_string(),
        date_added: "2024-01-21".to_string(),
        image_url: "http://example.com/image.jpg".to_string(),
    };

    let serialized = quote.to_json();
    let deserialized: Quote = Quote::from_json(&serialized).unwrap();

    assert_eq!(quote, deserialized);
}

/// Test the creation of an invalid quote with empty fields.
#[test]
fn test_invalid_quote_creation() {
    let quote = Quote {
        quote_text: "".to_string(),
        author: "".to_string(),
        date_added: "2024-01-21".to_string(),
        image_url: "http://example.com/image.jpg".to_string(),
    };

    assert_eq!(quote.quote_text, "");
    assert_eq!(quote.author, "");
}

fn sample(text: &str, date: &str) -> Quote {
    Quote {
        quote_text: text.to_string(),
        author: "Author".to_string(),
        date_added: date.to_string(),
        image_url: "http://example.com/image.jpg".to_string(),
    }
}

/// A two-entry collection loaded out of date order lists in date order.
#[test]
fn test_select_all_quotes_sorted_by_date() {
    let quotes = Quotes::new(vec![
        sample("Second", "2024-01-02"),
        sample("First", "2024-01-01"),
    ]);
    let all = quotes.select_all_quotes().unwrap();
    assert_eq!(all.len(), 2);
    assert_eq!(all[0].date_added, "2024-01-01");
    assert_eq!(all[1].date_added, "2024-01-02");
    assert_eq!(all[0].quote_text, "First");
    assert_eq!(all[1].quote_text, "Second");
}

/// Ties on the date keep each entry in arrival order: the sort is
/// stable.
#[test]
fn test_select_all_quotes_equal_dates() {
    let quotes = Quotes::new(vec![
        sample("A", "2024-01-01"),
        sample("B", "2024-01-01"),
        sample("Later", "2024-01-02"),
        sample("C", "2024-01-01"),
    ]);
    let all = quotes.select_all_quotes().unwrap();
    assert_eq!(all.len(), 4);
    assert_eq!(all[0].quote_text, "A");
    assert_eq!(all[1].quote_text, "B");
    assert_eq!(all[2].quote_text, "C");
    assert_eq!(all[3].quote_text, "Later");
}

/// Three selections from a three-quote collection are pairwise
/// distinct and cover all entries; the fourth fails.
#[test]
fn test_random_selection_without_replacement() {
    let mut quotes = Quotes::new(vec![
        sample("One", "2024-01-01"),
        sample("Two", "2024-01-02"),
        sample("Three", "2024-01-03"),
    ]);
    let mut seen = Vec::new();
    for _ in 0..3 {
        let q = quotes.select_random_quote().unwrap();
        seen.push(q.quote_text.clone());
    }
    let distinct: HashSet<_> = seen.iter().collect();
    assert_eq!(distinct.len(), 3);
    for text in ["One", "Two", "Three"] {
        assert!(seen.iter().any(|t| t == text));
    }
    match quotes.select_random_quote() {
        Ok(_) => panic!("Expected exhaustion after three selections"),
        Err(e) => assert!(matches!(e, QuoteError::NoQuotesAvailable)),
    }
}

/// A selection marks exactly one quote as used and reorders nothing.
#[test]
fn test_random_selection_marks_one_flag() {
    let mut quotes = Quotes::new(vec![
        sample("One", "2024-01-01"),
        sample("Two", "2024-01-02"),
    ]);
    assert_eq!(quotes.used, vec![false, false]);
    let picked = quotes.select_random_quote().unwrap();
    assert_eq!(quotes.used.iter().filter(|u| **u).count(), 1);
    assert_eq!(quotes.quotes.len(), 2);
    let marked = quotes.used.iter().position(|u| *u).unwrap();
    assert_eq!(quotes.quotes[marked], picked);
}

/// Exhausting random selection leaves the full listing untouched.
#[test]
fn test_select_all_ignores_usage_flags() {
    let mut quotes = Quotes::new(vec![
        sample("One", "2024-01-01"),
        sample("Two", "2024-01-02"),
    ]);
    quotes.select_random_quote().unwrap();
    quotes.select_random_quote().unwrap();
    assert!(quotes.select_random_quote().is_err());
    let all = quotes.select_all_quotes().unwrap();
    assert_eq!(all.len(), 2);
}

/// Error messages render as the callers expect them.
#[test]
fn test_error_messages() {
    assert_eq!(
        QuoteError::IOError("file vanished".to_string()).message(),
        "I/O Error: file vanished"
    );
    assert_eq!(
        QuoteError::ParseError("bad row".to_string()).message(),
        "Parse Error: bad row"
    );
    assert_eq!(QuoteError::NoQuotesAvailable.message(), "No available quotes");
}
