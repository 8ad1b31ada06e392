//! Loading a quote collection from JSON or CSV text. The format is
//! chosen by the source path's extension; parsing of the raw text is
//! done by `serde_json` and `csv` behind trusted declarations, and the
//! mapping from the parsed shape to `Quote` records is verified here.

use vstd::prelude::*;
use vstd::string::StrSliceExecFns;
use vstd::string::StringExecFns;

use crate::quotes::{Quote, QuoteError, Quotes};
use crate::strutil::str_eq;

verus! {

#[verifier::external_type_specification]
#[verifier::external_body]
pub struct ExJsonValue(serde_json::Value);

/// The JSON document that a text parses to, when it is valid JSON.
pub uninterp spec fn json_doc_of(s: Seq<char>) -> Option<serde_json::Value>;

/// The value stored under a string key, when the receiver is a JSON
/// object that has that key.
pub uninterp spec fn json_field_of(v: serde_json::Value, key: Seq<char>) -> Option<
    serde_json::Value,
>;

/// The elements, in order, when the receiver is a JSON array.
pub uninterp spec fn json_array_of(v: serde_json::Value) -> Option<Seq<serde_json::Value>>;

/// The character content, when the receiver is a JSON string.
pub uninterp spec fn json_str_of(v: serde_json::Value) -> Option<Seq<char>>;

/// The string content under `key`: present exactly when the object has
/// the field and the field is a string.
pub open spec fn json_string_field(v: serde_json::Value, key: Seq<char>) -> Option<Seq<char>> {
    match json_field_of(v, key) {
        Some(f) => json_str_of(f),
        None => None,
    }
}

/// Relies on `serde_json::from_str::<Value>`: parses arbitrary JSON
/// text, or reports why it is malformed. The outcome is a function of
/// the text alone.
#[verifier::external_body]
fn json_parse(content: &str) -> (r: Result<serde_json::Value, String>)
    ensures
        r matches Ok(v) ==> json_doc_of(content@) == Some(v),
        r is Err ==> json_doc_of(content@) is None,
{
    serde_json::from_str::<serde_json::Value>(content).map_err(|e| e.to_string())
}

/// Relies on `serde_json::Value::get` with a string index: `Some` of
/// the value under that key when the receiver is an object that has
/// it, `None` otherwise.
#[verifier::external_body]
fn json_get<'a>(v: &'a serde_json::Value, key: &str) -> (r: Option<&'a serde_json::Value>)
    ensures
        r matches Some(f) ==> json_field_of(*v, key@) == Some(*f),
        r is None ==> json_field_of(*v, key@) is None,
{
    v.get(key)
}

/// Relies on `serde_json::Value::as_array`: `Some` of the elements
/// when the receiver is an array, `None` otherwise.
#[verifier::external_body]
fn json_as_array<'a>(v: &'a serde_json::Value) -> (r: Option<&'a Vec<serde_json::Value>>)
    ensures
        r matches Some(a) ==> json_array_of(*v) == Some(a@),
        r is None ==> json_array_of(*v) is None,
{
    v.as_array()
}

/// Relies on `serde_json::Value::as_str`: `Some` of the content when
/// the receiver is a string, `None` otherwise.
#[verifier::external_body]
fn json_as_str<'a>(v: &'a serde_json::Value) -> (r: Option<&'a str>)
    ensures
        r matches Some(s) ==> json_str_of(*v) == Some(s@),
        r is None ==> json_str_of(*v) is None,
{
    v.as_str()
}

/// Reads the string content under `key`, owned.
fn json_string(v: &serde_json::Value, key: &str) -> (r: Option<String>)
    ensures
        r matches Some(s) ==> json_string_field(*v, key@) == Some(s@),
        r is None ==> json_string_field(*v, key@) is None,
{
    match json_get(v, key) {
        Some(f) => match json_as_str(f) {
            Some(s) => Some(String::from_str(s)),
            None => None,
        },
        None => None,
    }
}

/// The JSON value is a usable quote object: it has all four fields,
/// each a string.
pub open spec fn json_quote_ok(v: serde_json::Value) -> bool {
    &&& json_string_field(v, "quote_text"@) is Some
    &&& json_string_field(v, "author"@) is Some
    &&& json_string_field(v, "date_added"@) is Some
    &&& json_string_field(v, "image_url"@) is Some
}

/// The quote's fields are exactly the object's four string fields.
pub open spec fn json_quote_fields(v: serde_json::Value, q: Quote) -> bool {
    &&& json_string_field(v, "quote_text"@) == Some(q.quote_text@)
    &&& json_string_field(v, "author"@) == Some(q.author@)
    &&& json_string_field(v, "date_added"@) == Some(q.date_added@)
    &&& json_string_field(v, "image_url"@) == Some(q.image_url@)
}

/// Reads one quote from a JSON object with the four string fields;
/// fails with a parse error exactly when a field is missing or not a
/// string.
pub fn quote_from_json(v: &serde_json::Value) -> (r: Result<Quote, QuoteError>)
    ensures
        (r is Ok) <==> json_quote_ok(*v),
        r matches Ok(q) ==> json_quote_fields(*v, q),
        r matches Err(e) ==> e matches QuoteError::ParseError(_),
{
    let quote_text = match json_string(v, "quote_text") {
        Some(s) => s,
        None => {
            return Err(quote_field_error());
        },
    };
    let author = match json_string(v, "author") {
        Some(s) => s,
        None => {
            return Err(quote_field_error());
        },
    };
    let date_added = match json_string(v, "date_added") {
        Some(s) => s,
        None => {
            return Err(quote_field_error());
        },
    };
    let image_url = match json_string(v, "image_url") {
        Some(s) => s,
        None => {
            return Err(quote_field_error());
        },
    };
    Ok(Quote { quote_text, author, date_added, image_url })
}

/// The parse error reported for a malformed quote object.
fn quote_field_error() -> (r: QuoteError)
    ensures
        r matches QuoteError::ParseError(_),
{
    QuoteError::ParseError(String::from_str("missing or non-string field in quote object"))
}

/// Every element of the array is a usable quote object.
pub open spec fn json_all_quotes_ok(arr: Seq<serde_json::Value>) -> bool {
    forall|i: int| 0 <= i < arr.len() ==> json_quote_ok(#[trigger] arr[i])
}

/// The quotes are built field-for-field from the array's elements, in
/// document order.
pub open spec fn json_quotes_match(arr: Seq<serde_json::Value>, qs: Seq<Quote>) -> bool {
    &&& qs.len() == arr.len()
    &&& forall|i: int| 0 <= i < arr.len() ==> json_quote_fields(#[trigger] arr[i], qs[i])
}

/// Reads the quote list from the elements of the JSON `quotes` array;
/// fails exactly when some element is not a usable quote object.
pub fn quotes_from_json_array(arr: &Vec<serde_json::Value>) -> (r: Result<Vec<Quote>, QuoteError>)
    ensures
        (r is Ok) <==> json_all_quotes_ok(arr@),
        r matches Ok(qs) ==> json_quotes_match(arr@, qs@),
        r matches Err(e) ==> e matches QuoteError::ParseError(_),
{
    let mut out: Vec<Quote> = Vec::new();
    let mut k: usize = 0;
    while k < arr.len()
        invariant
            0 <= k <= arr@.len(),
            out@.len() == k,
            forall|i: int| 0 <= i < k ==> json_quote_ok(#[trigger] arr@[i]),
            forall|i: int| 0 <= i < k ==> json_quote_fields(#[trigger] arr@[i], out@[i]),
        decreases arr@.len() - k,
    {
        match quote_from_json(&arr[k]) {
            Ok(q) => out.push(q),
            Err(e) => {
                return Err(e);
            },
        }
        k = k + 1;
    }
    Ok(out)
}

/// The `quotes` array of the document that the text parses to.
pub open spec fn json_quotes_array(s: Seq<char>) -> Option<Seq<serde_json::Value>> {
    match json_doc_of(s) {
        Some(doc) => match json_field_of(doc, "quotes"@) {
            Some(f) => json_array_of(f),
            None => None,
        },
        None => None,
    }
}

/// The text is a loadable JSON collection: a document with a `quotes`
/// array whose every element is a usable quote object.
pub open spec fn json_collection_ok(s: Seq<char>) -> bool {
    match json_quotes_array(s) {
        Some(arr) => json_all_quotes_ok(arr),
        None => false,
    }
}

/// The collection holds one quote per array element of the text's
/// `quotes` array, built field-for-field, in document order.
pub open spec fn json_collection_fields(s: Seq<char>, qs: Quotes) -> bool {
    match json_quotes_array(s) {
        Some(arr) => json_quotes_match(arr, qs.quotes@),
        None => false,
    }
}

/// Reads a collection from JSON text: a document holding a `quotes`
/// array of quote objects. Succeeds exactly on such text, yielding one
/// quote per array element, field for field, with all usage flags
/// unset.
pub fn read_quotes_from_json(content: &str) -> (r: Result<Quotes, QuoteError>)
    ensures
        (r is Ok) <==> json_collection_ok(content@),
        r matches Ok(qs) ==> qs.wf() && qs.none_used() && json_collection_fields(content@, qs),
        r matches Err(e) ==> e matches QuoteError::ParseError(_),
{
    let doc = match json_parse(content) {
        Ok(v) => v,
        Err(m) => {
            return Err(QuoteError::ParseError(m));
        },
    };
    let field = match json_get(&doc, "quotes") {
        Some(f) => f,
        None => {
            return Err(QuoteError::ParseError(String::from_str("missing `quotes` array")));
        },
    };
    let arr = match json_as_array(field) {
        Some(a) => a,
        None => {
            return Err(QuoteError::ParseError(String::from_str("`quotes` is not an array")));
        },
    };
    proof {
        assert(json_quotes_array(content@) == Some(arr@));
    }
    let list = match quotes_from_json_array(arr) {
        Ok(l) => l,
        Err(e) => {
            return Err(e);
        },
    };
    Ok(Quotes::new(list))
}

/// The views of a sequence of strings.
pub open spec fn views(s: Seq<String>) -> Seq<Seq<char>> {
    s.map_values(|x: String| x@)
}

/// The views of a table of strings.
pub open spec fn table_views(rows: Seq<Vec<String>>) -> Seq<Seq<Seq<char>>> {
    rows.map_values(|row: Vec<String>| views(row@))
}

/// The header row and the records that a text parses to as CSV, when
/// every record is well formed and as wide as the header row.
pub uninterp spec fn csv_table_of(s: Seq<char>) -> Option<(Seq<Seq<char>>, Seq<Seq<Seq<char>>>)>;

/// Relies on `csv::Reader::from_reader` with its defaults: parses CSV
/// text whose first record is the header row; a record whose field
/// count differs from the header's is reported as an error, so a fully
/// successful read yields rows that all have the header's width. The
/// outcome is a function of the text alone.
#[verifier::external_body]
fn csv_rows(content: &str) -> (r: Result<(Vec<String>, Vec<Vec<String>>), String>)
    ensures
        r matches Ok(p) ==> csv_table_of(content@) == Some((views(p.0@), table_views(p.1@))),
        r matches Ok(p) ==> forall|i: int|
            0 <= i < p.1@.len() ==> (#[trigger] p.1@[i])@.len() == p.0@.len(),
        r is Err ==> csv_table_of(content@) is None,
{
    let mut rdr = csv::Reader::from_reader(content.as_bytes());
    let headers: Vec<String> = match rdr.headers() {
        Ok(h) => h.iter().map(String::from).collect(),
        Err(e) => return Err(e.to_string()),
    };
    let mut rows: Vec<Vec<String>> = Vec::new();
    for record in rdr.records() {
        match record {
            Ok(rec) => rows.push(rec.iter().map(String::from).collect()),
            Err(e) => return Err(e.to_string()),
        }
    }
    Ok((headers, rows))
}

/// `i` is the position of the first header equal to `name`.
pub open spec fn is_col(h: Seq<Seq<char>>, name: Seq<char>, i: int) -> bool {
    &&& 0 <= i < h.len()
    &&& h[i] == name
    &&& forall|j: int| 0 <= j < i ==> h[j] != name
}

/// Some header equals `name`.
pub open spec fn has_col(h: Seq<Seq<char>>, name: Seq<char>) -> bool {
    exists|i: int| is_col(h, name, i)
}

/// The position of the first header equal to `name`.
pub open spec fn col_of(h: Seq<Seq<char>>, name: Seq<char>) -> int {
    choose|i: int| is_col(h, name, i)
}

/// Finds the first header equal to `name`.
fn find_col(headers: &Vec<String>, name: &str) -> (r: Option<usize>)
    ensures
        r matches Some(i) ==> has_col(views(headers@), name@) && col_of(views(headers@), name@)
            == i as int && i < headers@.len(),
        (r is Some) <==> has_col(views(headers@), name@),
{
    let ghost hv = views(headers@);
    let n = headers.len();
    let mut k: usize = 0;
    while k < n
        invariant
            n == headers@.len(),
            hv == views(headers@),
            hv.len() == n,
            0 <= k <= n,
            forall|j: int| 0 <= j < k ==> hv[j] != name@,
        decreases n - k,
    {
        if str_eq(headers[k].as_str(), name) {
            proof {
                assert(hv[k as int] == headers@[k as int]@);
                assert(is_col(hv, name@, k as int));
                let w = col_of(hv, name@);
                assert(is_col(hv, name@, w));
                if w != k as int {
                    assert(hv[k as int] == name@ && hv[w] == name@);
                }
            }
            return Some(k);
        }
        k = k + 1;
    }
    proof {
        if has_col(hv, name@) {
            let w = choose|i: int| is_col(hv, name@, i);
            assert(hv[w] != name@);
        }
    }
    None
}

/// Every field column lies within the row.
pub open spec fn row_wide_enough(h: Seq<Seq<char>>, row: Seq<Seq<char>>) -> bool {
    &&& col_of(h, "quote_text"@) < row.len()
    &&& col_of(h, "author"@) < row.len()
    &&& col_of(h, "date_added"@) < row.len()
    &&& col_of(h, "image_url"@) < row.len()
}

/// The quote's fields are the row's cells in the four header-named
/// columns.
pub open spec fn csv_quote_fields(h: Seq<Seq<char>>, row: Seq<Seq<char>>, q: Quote) -> bool {
    &&& row[col_of(h, "quote_text"@)] == q.quote_text@
    &&& row[col_of(h, "author"@)] == q.author@
    &&& row[col_of(h, "date_added"@)] == q.date_added@
    &&& row[col_of(h, "image_url"@)] == q.image_url@
}

/// All four quote fields appear among the headers.
pub open spec fn csv_headers_ok(h: Seq<Seq<char>>) -> bool {
    &&& has_col(h, "quote_text"@)
    &&& has_col(h, "author"@)
    &&& has_col(h, "date_added"@)
    &&& has_col(h, "image_url"@)
}

/// Every row reaches all the named columns.
pub open spec fn csv_rows_wide(h: Seq<Seq<char>>, rows: Seq<Seq<Seq<char>>>) -> bool {
    forall|i: int| 0 <= i < rows.len() ==> row_wide_enough(h, #[trigger] rows[i])
}

/// The quotes are taken from the rows by header name, in row order.
pub open spec fn csv_rows_match(h: Seq<Seq<char>>, rows: Seq<Seq<Seq<char>>>, qs: Seq<Quote>) -> bool {
    &&& qs.len() == rows.len()
    &&& forall|i: int| 0 <= i < rows.len() ==> csv_quote_fields(h, #[trigger] rows[i], qs[i])
}

/// Builds quotes from header-driven CSV rows: each row contributes one
/// quote, taking each field from the column whose header names it.
/// Fails exactly when a field header is missing or some row is too
/// short to hold all named columns.
pub fn quotes_from_rows(headers: &Vec<String>, rows: &Vec<Vec<String>>) -> (r: Result<
    Vec<Quote>,
    QuoteError,
>)
    ensures
        (r is Ok) <==> (csv_headers_ok(views(headers@)) && csv_rows_wide(
            views(headers@),
            table_views(rows@),
        )),
        r matches Ok(qs) ==> csv_rows_match(views(headers@), table_views(rows@), qs@),
        r matches Err(e) ==> e matches QuoteError::ParseError(_),
{
    let ghost hv = views(headers@);
    let ghost tv = table_views(rows@);
    let ti = match find_col(headers, "quote_text") {
        Some(i) => i,
        None => {
            return Err(column_error());
        },
    };
    let ai = match find_col(headers, "author") {
        Some(i) => i,
        None => {
            return Err(column_error());
        },
    };
    let di = match find_col(headers, "date_added") {
        Some(i) => i,
        None => {
            return Err(column_error());
        },
    };
    let ui = match find_col(headers, "image_url") {
        Some(i) => i,
        None => {
            return Err(column_error());
        },
    };
    let mut out: Vec<Quote> = Vec::new();
    let mut k: usize = 0;
    while k < rows.len()
        invariant
            hv == views(headers@),
            tv == table_views(rows@),
            tv.len() == rows@.len(),
            csv_headers_ok(hv),
            col_of(hv, "quote_text"@) == ti as int,
            col_of(hv, "author"@) == ai as int,
            col_of(hv, "date_added"@) == di as int,
            col_of(hv, "image_url"@) == ui as int,
            0 <= k <= rows@.len(),
            out@.len() == k,
            forall|i: int| 0 <= i < k ==> row_wide_enough(hv, #[trigger] tv[i]),
            forall|i: int| 0 <= i < k ==> csv_quote_fields(hv, #[trigger] tv[i], out@[i]),
        decreases rows@.len() - k,
    {
        let row = &rows[k];
        proof {
            assert(tv[k as int] == views(rows@[k as int]@));
            assert(views(row@).len() == row@.len());
            assert(forall|j: int| 0 <= j < row@.len() ==> views(row@)[j] == row@[j]@);
        }
        if !(ti < row.len() && ai < row.len() && di < row.len() && ui < row.len()) {
            proof {
                assert(!row_wide_enough(hv, tv[k as int]));
            }
            return Err(QuoteError::ParseError(String::from_str("record is missing a field")));
        }
        out.push(
            Quote {
                quote_text: row[ti].clone(),
                author: row[ai].clone(),
                date_added: row[di].clone(),
                image_url: row[ui].clone(),
            },
        );
        k = k + 1;
    }
    Ok(out)
}

/// The parse error reported when a field header is absent.
fn column_error() -> (r: QuoteError)
    ensures
        r matches QuoteError::ParseError(_),
{
    QuoteError::ParseError(String::from_str("missing quote field column"))
}

/// The text is a loadable CSV collection: a well-formed table whose
/// headers name all four fields and whose rows reach all named
/// columns.
pub open spec fn csv_collection_ok(s: Seq<char>) -> bool {
    match csv_table_of(s) {
        Some(t) => csv_headers_ok(t.0) && csv_rows_wide(t.0, t.1),
        None => false,
    }
}

/// The collection holds one quote per record of the text's table,
/// taken by header name, in row order.
pub open spec fn csv_collection_fields(s: Seq<char>, qs: Quotes) -> bool {
    match csv_table_of(s) {
        Some(t) => csv_rows_match(t.0, t.1, qs.quotes@),
        None => false,
    }
}

/// Reads a collection from CSV text with a header row. Succeeds
/// exactly on a well-formed table that names all four fields, yielding
/// one quote per record, header-mapped, with all usage flags unset.
pub fn read_quotes_from_csv(content: &str) -> (r: Result<Quotes, QuoteError>)
    ensures
        (r is Ok) <==> csv_collection_ok(content@),
        r matches Ok(qs) ==> qs.wf() && qs.none_used() && csv_collection_fields(content@, qs),
        r matches Err(e) ==> e matches QuoteError::ParseError(_),
{
    let parts = match csv_rows(content) {
        Ok(p) => p,
        Err(m) => {
            return Err(QuoteError::ParseError(m));
        },
    };
    let (headers, rows) = parts;
    let list = match quotes_from_rows(&headers, &rows) {
        Ok(l) => l,
        Err(e) => {
            return Err(e);
        },
    };
    Ok(Quotes::new(list))
}

/// `i` is the position of the last occurrence of `c`.
pub open spec fn is_last_at(s: Seq<char>, c: char, i: int) -> bool {
    &&& 0 <= i < s.len()
    &&& s[i] == c
    &&& forall|j: int| i < j < s.len() ==> s[j] != c
}

/// `c` occurs in `s`.
pub open spec fn has_char(s: Seq<char>, c: char) -> bool {
    exists|i: int| 0 <= i < s.len() && s[i] == c
}

/// The position of the last occurrence of `c`.
pub open spec fn last_at(s: Seq<char>, c: char) -> int {
    choose|i: int| is_last_at(s, c, i)
}

/// The text with any trailing `/` separators removed.
pub open spec fn strip_trailing_slashes(s: Seq<char>) -> Seq<char>
    decreases s.len(),
{
    if s.len() > 0 && s.last() == '/' {
        strip_trailing_slashes(s.drop_last())
    } else {
        s
    }
}

/// The extension of a source path: the part after the last `.` of the
/// path's last `/`-separated component, when that dot is not the
/// component's first character. Trailing separators are ignored.
/// `None` for a component with no dot, or whose only dot leads it.
pub open spec fn spec_extension(s: Seq<char>) -> Option<Seq<char>> {
    let t = strip_trailing_slashes(s);
    let start = if has_char(t, '/') {
        last_at(t, '/') + 1
    } else {
        0
    };
    let name = t.skip(start);
    if has_char(name, '.') && last_at(name, '.') > 0 {
        Some(name.skip(last_at(name, '.') + 1))
    } else {
        None
    }
}

/// Finds the position of the last occurrence of `c` in `s`.
fn find_last(s: &str, c: char) -> (r: Option<usize>)
    ensures
        r matches Some(i) ==> is_last_at(s@, c, i as int) && has_char(s@, c) && last_at(s@, c)
            == i as int,
        (r is Some) <==> has_char(s@, c),
{
    let n = s.unicode_len();
    let mut found: Option<usize> = None;
    let mut k: usize = 0;
    while k < n
        invariant
            n == s@.len(),
            0 <= k <= n,
            found matches Some(i) ==> 0 <= i < k && s@[i as int] == c && (forall|j: int|
                i < j < k ==> s@[j] != c),
            found is None ==> forall|j: int| 0 <= j < k ==> s@[j] != c,
        decreases n - k,
    {
        if s.get_char(k) == c {
            found = Some(k);
        }
        k = k + 1;
    }
    proof {
        match found {
            Some(i) => {
                assert(is_last_at(s@, c, i as int));
                let w = last_at(s@, c);
                assert(is_last_at(s@, c, w));
                if w != i as int {
                    assert(s@[w] == c && s@[i as int] == c);
                }
            },
            None => {
                if has_char(s@, c) {
                    let w = choose|j: int| 0 <= j < s@.len() && s@[j] == c;
                    assert(s@[w] != c);
                }
            },
        }
    }
    found
}

/// Computes the extension of a source path, as `spec_extension`
/// describes it.
pub fn path_extension(path: &str) -> (r: Option<String>)
    ensures
        r matches Some(e) ==> spec_extension(path@) == Some(e@),
        r is None ==> spec_extension(path@) is None,
{
    let n = path.unicode_len();
    let mut end: usize = n;
    proof {
        assert(path@.subrange(0, n as int) =~= path@);
    }
    while end > 0
        invariant
            n == path@.len(),
            0 <= end <= n,
            strip_trailing_slashes(path@) == strip_trailing_slashes(
                path@.subrange(0, end as int),
            ),
        ensures
            0 <= end <= n,
            strip_trailing_slashes(path@) == path@.subrange(0, end as int),
        decreases end,
    {
        if path.get_char(end - 1) != '/' {
            proof {
                assert(path@.subrange(0, end as int).last() == path@[end - 1]);
            }
            break;
        }
        proof {
            assert(path@.subrange(0, end as int).last() == path@[end - 1]);
            assert(path@.subrange(0, end as int).drop_last() =~= path@.subrange(0, end - 1));
        }
        end = end - 1;
    }
    let trimmed = path.substring_char(0, end);
    proof {
        assert(trimmed@ == strip_trailing_slashes(path@));
    }
    let m = trimmed.unicode_len();
    let start = match find_last(trimmed, '/') {
        Some(i) => i + 1,
        None => 0,
    };
    let name = trimmed.substring_char(start, m);
    let len = name.unicode_len();
    match find_last(name, '.') {
        Some(d) => {
            if d > 0 {
                Some(String::from_str(name.substring_char(d + 1, len)))
            } else {
                None
            }
        },
        None => None,
    }
}

/// Reads and parses quotes from the content of a JSON or CSV file.
/// The path decides the format by its extension; any other extension
/// is rejected as unsupported before the content is looked at. A JSON
/// path succeeds exactly on a loadable JSON collection and a CSV path
/// exactly on a loadable CSV table, each yielding the content's quotes
/// field for field, with all usage flags unset.
pub fn read_quotes_from_file(file_path: &str, content: &str) -> (r: Result<Quotes, QuoteError>)
    ensures
        r matches Ok(qs) ==> qs.wf() && qs.none_used(),
        r matches Err(e) ==> e matches QuoteError::ParseError(_),
        spec_extension(file_path@) == Some("json"@) ==> (((r is Ok) <==> json_collection_ok(
            content@,
        )) && (r matches Ok(qs) ==> json_collection_fields(content@, qs))),
        spec_extension(file_path@) == Some("csv"@) ==> (((r is Ok) <==> csv_collection_ok(content@))
            && (r matches Ok(qs) ==> csv_collection_fields(content@, qs))),
        spec_extension(file_path@) != Some("json"@) && spec_extension(file_path@) != Some("csv"@)
            ==> (r matches Err(e) && e matches QuoteError::ParseError(m) && m@
            == "Unsupported file format"@),
{
    proof {
        reveal_strlit("json");
        reveal_strlit("csv");
    }
    match path_extension(file_path) {
        Some(ext) => {
            if str_eq(ext.as_str(), "json") {
                proof {
                    assert(("json"@).len() == 4);
                    assert(("csv"@).len() == 3);
                }
                read_quotes_from_json(content)
            } else if str_eq(ext.as_str(), "csv") {
                read_quotes_from_csv(content)
            } else {
                Err(QuoteError::ParseError(String::from_str("Unsupported file format")))
            }
        },
        None => Err(QuoteError::ParseError(String::from_str("Unsupported file format"))),
    }
}

} // verus!
