//! The canonical JSON codec for a single quote record: a fixed-shape
//! object with the four string fields, quotes and backslashes escaped.
//! Rendering and parsing are both verified, and parsing a rendered
//! quote is proved to give back exactly the original fields.

use vstd::prelude::*;
use vstd::string::StrSliceExecFns;
use vstd::string::StringExecFns;

use crate::quotes::{Quote, QuoteError};

verus! {

/// The escaped form of one character inside a JSON string: a quote or
/// a backslash takes a leading backslash, every other character stands
/// as itself.
pub open spec fn escape_char(c: char) -> Seq<char> {
    if c == '"' {
        seq!['\\', '"']
    } else if c == '\\' {
        seq!['\\', '\\']
    } else {
        seq![c]
    }
}

/// The escaped form of a whole string body.
pub open spec fn spec_escape(s: Seq<char>) -> Seq<char>
    decreases s.len(),
{
    if s.len() == 0 {
        Seq::empty()
    } else {
        escape_char(s[0]) + spec_escape(s.drop_first())
    }
}

/// The canonical JSON rendering of a quote record: the four fields in
/// fixed order, each value escaped.
pub open spec fn spec_quote_json(q: Quote) -> Seq<char> {
    "{\"quote_text\":\""@ + spec_escape(q.quote_text@) + "\""@ + ",\"author\":\""@ + spec_escape(
        q.author@,
    ) + "\""@ + ",\"date_added\":\""@ + spec_escape(q.date_added@) + "\""@ + ",\"image_url\":\""@
        + spec_escape(q.image_url@) + "\""@ + "}"@
}

/// Consumes `lit` from the front of `s`: the rest of `s`, when `s`
/// starts with `lit`.
pub open spec fn expect_lit(s: Seq<char>, lit: Seq<char>) -> Option<Seq<char>> {
    if s.len() >= lit.len() && s.subrange(0, lit.len() as int) == lit {
        Some(s.skip(lit.len() as int))
    } else {
        None
    }
}

/// Consumes an escaped string body up to and including its closing
/// quote: the unescaped body and the rest of `s`. `None` when the
/// string never closes or a backslash precedes anything but a quote or
/// a backslash.
pub open spec fn scan_string(s: Seq<char>) -> Option<(Seq<char>, Seq<char>)>
    decreases s.len(),
{
    if s.len() == 0 {
        None
    } else if s[0] == '"' {
        Some((Seq::empty(), s.drop_first()))
    } else if s[0] == '\\' {
        if s.len() >= 2 && (s[1] == '"' || s[1] == '\\') {
            match scan_string(s.skip(2)) {
                Some(p) => Some((seq![s[1]] + p.0, p.1)),
                None => None,
            }
        } else {
            None
        }
    } else {
        match scan_string(s.drop_first()) {
            Some(p) => Some((seq![s[0]] + p.0, p.1)),
            None => None,
        }
    }
}

/// What a rendered quote denotes: its four field values, when the text
/// has exactly the canonical shape.
pub open spec fn spec_parse_quote(s: Seq<char>) -> Option<(Seq<char>, Seq<char>, Seq<char>, Seq<char>)> {
    match expect_lit(s, "{\"quote_text\":\""@) {
        None => None,
        Some(s1) => match scan_string(s1) {
            None => None,
            Some((text, s2)) => match expect_lit(s2, ",\"author\":\""@) {
                None => None,
                Some(s3) => match scan_string(s3) {
                    None => None,
                    Some((author, s4)) => match expect_lit(s4, ",\"date_added\":\""@) {
                        None => None,
                        Some(s5) => match scan_string(s5) {
                            None => None,
                            Some((date, s6)) => match expect_lit(s6, ",\"image_url\":\""@) {
                                None => None,
                                Some(s7) => match scan_string(s7) {
                                    None => None,
                                    Some((url, s8)) => if s8 == "}"@ {
                                        Some((text, author, date, url))
                                    } else {
                                        None
                                    },
                                },
                            },
                        },
                    },
                },
            },
        },
    }
}

/// Scanning an escaped body followed by its closing quote gives back
/// the body and leaves the rest untouched.
proof fn lemma_scan_escaped(t: Seq<char>, rest: Seq<char>)
    ensures
        scan_string(spec_escape(t) + seq!['"'] + rest) == Some((t, rest)),
    decreases t.len(),
{
    let s = spec_escape(t) + seq!['"'] + rest;
    if t.len() == 0 {
        assert(s =~= seq!['"'] + rest);
        assert(s.drop_first() =~= rest);
        assert(scan_string(s) == Some((Seq::<char>::empty(), rest)));
        assert(t =~= Seq::<char>::empty());
    } else {
        let c = t[0];
        let inner = spec_escape(t.drop_first()) + seq!['"'] + rest;
        lemma_scan_escaped(t.drop_first(), rest);
        if c == '"' || c == '\\' {
            assert(s =~= seq!['\\', c] + inner);
            assert(s.skip(2) =~= inner);
            assert(seq![s[1]] + t.drop_first() =~= t);
        } else {
            assert(s =~= seq![c] + inner);
            assert(s.drop_first() =~= inner);
            assert(seq![s[0]] + t.drop_first() =~= t);
        }
    }
}

/// A text that begins with `lit` loses exactly that prefix.
proof fn lemma_expect_lit(lit: Seq<char>, rest: Seq<char>)
    ensures
        expect_lit(lit + rest, lit) == Some(rest),
{
    let s = lit + rest;
    assert(s.subrange(0, lit.len() as int) =~= lit);
    assert(s.skip(lit.len() as int) =~= rest);
}

/// Round-trip law: parsing the canonical rendering of any quote gives
/// back exactly its four field values.
pub proof fn lemma_quote_json_round_trip(q: Quote)
    ensures
        spec_parse_quote(spec_quote_json(q)) == Some(
            (q.quote_text@, q.author@, q.date_added@, q.image_url@),
        ),
{
    reveal_strlit("\"");
    reveal_strlit("}");
    let l1 = "{\"quote_text\":\""@;
    let l2 = ",\"author\":\""@;
    let l3 = ",\"date_added\":\""@;
    let l4 = ",\"image_url\":\""@;
    let q1 = spec_escape(q.quote_text@);
    let q2 = spec_escape(q.author@);
    let q3 = spec_escape(q.date_added@);
    let q4 = spec_escape(q.image_url@);
    let s = spec_quote_json(q);
    assert(("\""@) =~= seq!['"']);
    let r4 = "}"@;
    let r3 = l4 + q4 + seq!['"'] + r4;
    let r2 = l3 + q3 + seq!['"'] + r3;
    let r1 = l2 + q2 + seq!['"'] + r2;
    assert(s =~= l1 + (q1 + seq!['"'] + r1));
    lemma_expect_lit(l1, q1 + seq!['"'] + r1);
    assert(expect_lit(s, l1) == Some(q1 + seq!['"'] + r1));
    lemma_scan_escaped(q.quote_text@, r1);
    assert(r1 =~= l2 + (q2 + seq!['"'] + r2));
    lemma_expect_lit(l2, q2 + seq!['"'] + r2);
    lemma_scan_escaped(q.author@, r2);
    assert(r2 =~= l3 + (q3 + seq!['"'] + r3));
    lemma_expect_lit(l3, q3 + seq!['"'] + r3);
    lemma_scan_escaped(q.date_added@, r3);
    assert(r3 =~= l4 + (q4 + seq!['"'] + r4));
    lemma_expect_lit(l4, q4 + seq!['"'] + r4);
    lemma_scan_escaped(q.image_url@, r4);
}

/// Appends the escaped form of `s` to `out`.
fn append_escaped(out: &mut String, s: &str)
    ensures
        final(out)@ == old(out)@ + spec_escape(s@),
{
    let n = s.unicode_len();
    let mut i: usize = 0;
    proof {
        assert(s@.skip(0) =~= s@);
    }
    while i < n
        invariant
            n == s@.len(),
            0 <= i <= n,
            old(out)@ + spec_escape(s@) =~= out@ + spec_escape(s@.skip(i as int)),
        decreases n - i,
    {
        let c = s.get_char(i);
        if c == '"' {
            proof {
                reveal_strlit("\\\"");
                assert(("\\\""@) =~= seq!['\\', '"']);
            }
            out.append("\\\"");
        } else if c == '\\' {
            proof {
                reveal_strlit("\\\\");
                assert(("\\\\"@) =~= seq!['\\', '\\']);
            }
            out.append("\\\\");
        } else {
            out.append(s.substring_char(i, i + 1));
            proof {
                assert(s@.subrange(i as int, i + 1) =~= seq![s@[i as int]]);
            }
        }
        proof {
            assert(s@.skip(i as int).drop_first() =~= s@.skip(i + 1));
        }
        i = i + 1;
    }
    proof {
        assert(spec_escape(s@.skip(n as int)) =~= Seq::<char>::empty());
        assert(out@ =~= old(out)@ + spec_escape(s@));
    }
}

impl Quote {
    /// Renders the quote in its canonical JSON form.
    pub fn to_json(&self) -> (r: String)
        ensures
            r@ == spec_quote_json(*self),
    {
        let mut out = String::new();
        out.append("{\"quote_text\":\"");
        append_escaped(&mut out, self.quote_text.as_str());
        out.append("\"");
        out.append(",\"author\":\"");
        append_escaped(&mut out, self.author.as_str());
        out.append("\"");
        out.append(",\"date_added\":\"");
        append_escaped(&mut out, self.date_added.as_str());
        out.append("\"");
        out.append(",\"image_url\":\"");
        append_escaped(&mut out, self.image_url.as_str());
        out.append("\"");
        out.append("}");
        proof {
            assert(out@ =~= spec_quote_json(*self));
        }
        out
    }

    /// Parses a quote from its canonical JSON form; fails with a parse
    /// error exactly on text of any other shape.
    pub fn from_json(s: &str) -> (r: Result<Quote, QuoteError>)
        ensures
            (r is Ok) <==> spec_parse_quote(s@) is Some,
            r matches Ok(q) ==> spec_parse_quote(s@) == Some(
                (q.quote_text@, q.author@, q.date_added@, q.image_url@),
            ),
            r matches Err(e) ==> e matches QuoteError::ParseError(_),
    {
        let n = s.unicode_len();
        let i1 = match expect_lit_at(s, 0, "{\"quote_text\":\"") {
            Some(j) => j,
            None => {
                proof {
                    assert(s@.skip(0) =~= s@);
                }
                return Err(shape_error());
            },
        };
        proof {
            assert(s@.skip(0) =~= s@);
        }
        let (quote_text, i2) = match scan_string_at(s, i1) {
            Some(p) => p,
            None => {
                return Err(shape_error());
            },
        };
        let i3 = match expect_lit_at(s, i2, ",\"author\":\"") {
            Some(j) => j,
            None => {
                return Err(shape_error());
            },
        };
        let (author, i4) = match scan_string_at(s, i3) {
            Some(p) => p,
            None => {
                return Err(shape_error());
            },
        };
        let i5 = match expect_lit_at(s, i4, ",\"date_added\":\"") {
            Some(j) => j,
            None => {
                return Err(shape_error());
            },
        };
        let (date_added, i6) = match scan_string_at(s, i5) {
            Some(p) => p,
            None => {
                return Err(shape_error());
            },
        };
        let i7 = match expect_lit_at(s, i6, ",\"image_url\":\"") {
            Some(j) => j,
            None => {
                return Err(shape_error());
            },
        };
        let (image_url, i8) = match scan_string_at(s, i7) {
            Some(p) => p,
            None => {
                return Err(shape_error());
            },
        };
        let tail_ok = match expect_lit_at(s, i8, "}") {
            Some(j) => j == n,
            None => false,
        };
        if !tail_ok {
            proof {
                reveal_strlit("}");
                if s@.skip(i8 as int) == "}"@ {
                    lemma_expect_lit("}"@, Seq::<char>::empty());
                    assert(("}"@) + Seq::<char>::empty() =~= ("}"@));
                    assert(expect_lit(s@.skip(i8 as int), "}"@) == Some(Seq::<char>::empty()));
                }
            }
            return Err(shape_error());
        }
        proof {
            let s8 = s@.skip(i8 as int);
            let lit = "}"@;
            assert(s@.skip(n as int) =~= Seq::<char>::empty());
            assert(s8.subrange(0, lit.len() as int) == lit);
            assert(s8.skip(lit.len() as int).len() == 0);
            assert(s8 =~= lit);
        }
        Ok(Quote { quote_text, author, date_added, image_url })
    }
}

/// The parse error reported for text that is not a canonically
/// rendered quote.
fn shape_error() -> (r: QuoteError)
    ensures
        r matches QuoteError::ParseError(_),
{
    QuoteError::ParseError(String::from_str("not a canonical quote record"))
}

/// Consumes `lit` at position `i` of `s`: the position just past it,
/// when `s` continues with `lit` there.
fn expect_lit_at(s: &str, i: usize, lit: &str) -> (r: Option<usize>)
    requires
        i <= s@.len(),
    ensures
        r matches Some(j) ==> i <= j <= s@.len() && expect_lit(s@.skip(i as int), lit@) == Some(
            s@.skip(j as int),
        ),
        r is None ==> expect_lit(s@.skip(i as int), lit@) is None,
{
    let n = s.unicode_len();
    let m = lit.unicode_len();
    if n - i < m {
        return None;
    }
    let mut k: usize = 0;
    while k < m
        invariant
            n == s@.len(),
            m == lit@.len(),
            i + m <= n,
            0 <= k <= m,
            forall|t: int| 0 <= t < k ==> s@[i + t] == lit@[t],
        decreases m - k,
    {
        if s.get_char(i + k) != lit.get_char(k) {
            proof {
                let tail = s@.skip(i as int);
                assert(tail[k as int] == s@[i + k]);
                if tail.len() >= lit@.len() && tail.subrange(0, lit@.len() as int) == lit@ {
                    assert(tail.subrange(0, lit@.len() as int)[k as int] == lit@[k as int]);
                }
            }
            return None;
        }
        k = k + 1;
    }
    proof {
        let tail = s@.skip(i as int);
        assert(tail.subrange(0, m as int) =~= lit@);
        assert(tail.skip(m as int) =~= s@.skip(i + m));
    }
    Some(i + m)
}

/// Scans an escaped string body starting at position `i` of `s`: the
/// unescaped body and the position just past the closing quote.
fn scan_string_at(s: &str, i: usize) -> (r: Option<(String, usize)>)
    requires
        i <= s@.len(),
    ensures
        r matches Some(p) ==> p.1 <= s@.len() && scan_string(s@.skip(i as int)) == Some(
            (p.0@, s@.skip(p.1 as int)),
        ),
        r is None ==> scan_string(s@.skip(i as int)) is None,
{
    let n = s.unicode_len();
    let mut out = String::new();
    let mut j: usize = i;
    while j < n
        invariant
            n == s@.len(),
            i <= j <= n,
            scan_string(s@.skip(i as int)) == scan_cont(out@, s@.skip(j as int)),
        decreases n - j,
    {
        let c = s.get_char(j);
        if c == '"' {
            proof {
                assert(s@.skip(j as int).drop_first() =~= s@.skip(j + 1));
            }
            return Some((out, j + 1));
        }
        if c == '\\' {
            if j + 1 >= n {
                return None;
            }
            let e = s.get_char(j + 1);
            if e == '"' || e == '\\' {
                out.append(s.substring_char(j + 1, j + 2));
                proof {
                    assert(s@.subrange(j + 1, j + 2) =~= seq![s@[j + 1]]);
                    assert(s@.skip(j as int).skip(2) =~= s@.skip(j + 2));
                    assert(s@.skip(j as int)[1] == s@[j + 1]);
                }
                j = j + 2;
            } else {
                proof {
                    assert(s@.skip(j as int)[1] == s@[j + 1]);
                }
                return None;
            }
        } else {
            out.append(s.substring_char(j, j + 1));
            proof {
                assert(s@.subrange(j as int, j + 1) =~= seq![s@[j as int]]);
                assert(s@.skip(j as int).drop_first() =~= s@.skip(j + 1));
            }
            j = j + 1;
        }
    }
    proof {
        assert(s@.skip(j as int).len() == 0);
    }
    None
}

/// The continuation of a scan: what the whole scan yields when `pre`
/// has already been unescaped and `rest` is still to be read.
pub open spec fn scan_cont(pre: Seq<char>, rest: Seq<char>) -> Option<(Seq<char>, Seq<char>)> {
    match scan_string(rest) {
        Some(p) => Some((pre + p.0, p.1)),
        None => None,
    }
}

} // verus!
