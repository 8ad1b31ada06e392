//! The quote collection: random selection without replacement, and the
//! date-sorted full listing.

use vstd::prelude::*;
use vstd::pervasive::VecAdditionalExecFns;
use vstd::string::StringExecFns;

use crate::strutil::{lex_le, lemma_lex_le_total, lemma_lex_le_trans, str_le};

verus! {

/// A single attributed quote record.
#[derive(Debug, PartialEq)]
pub struct Quote {
    /// The text of the quote.
    pub quote_text: String,
    /// The author of the quote.
    pub author: String,
    /// The date when the quote was added to the source file.
    pub date_added: String,
    /// The URL of the image associated with the quote.
    pub image_url: String,
}

impl Clone for Quote {
    /// A clone is equal to the original, field for field.
    fn clone(&self) -> (r: Quote)
        ensures
            r == *self,
    {
        Quote {
            quote_text: self.quote_text.clone(),
            author: self.author.clone(),
            date_added: self.date_added.clone(),
            image_url: self.image_url.clone(),
        }
    }
}

/// A collection of quotes together with a parallel sequence of usage
/// flags: `used[i]` records whether `quotes[i]` has already been handed
/// out by random selection.
#[derive(Debug)]
pub struct Quotes {
    /// The loaded quotes, in source order; never reordered after
    /// construction.
    pub quotes: Vec<Quote>,
    /// One flag per quote, index-aligned with `quotes`.
    pub used: Vec<bool>,
}

/// Some index of the collection still carries an unset usage flag.
pub open spec fn some_unused(used: Seq<bool>) -> bool {
    exists|i: int| 0 <= i < used.len() && !used[i]
}

/// A successful random selection: some index was free in `pre`, its
/// quote is the returned one, and `post` differs from `pre` exactly in
/// that index's flag.
pub open spec fn selection_ok(pre: Quotes, post: Quotes, q: Quote) -> bool {
    exists|i: int| selected_at(pre, post, q, i)
}

/// A successful random selection at index `i`: it was free in `pre`,
/// its quote is the returned one, and `post` differs from `pre`
/// exactly in that flag.
pub open spec fn selected_at(pre: Quotes, post: Quotes, q: Quote, i: int) -> bool {
    &&& 0 <= i < pre.quotes@.len()
    &&& !pre.used@[i]
    &&& q == pre.quotes@[i]
    &&& post.quotes == pre.quotes
    &&& post.used@ == pre.used@.update(i, true)
}

/// The first `n` entries are sorted non-decreasing by their `date_added`
/// string.
pub open spec fn sorted_by_date_upto(s: Seq<Quote>, n: int) -> bool {
    forall|a: int, b: int|
        0 <= a < b < n && b < s.len() ==> lex_le(s[a].date_added@, s[b].date_added@)
}

/// The whole sequence is sorted non-decreasing by `date_added`.
pub open spec fn sorted_by_date(s: Seq<Quote>) -> bool {
    sorted_by_date_upto(s, s.len() as int)
}

impl Quotes {
    /// The usage flags line up one-to-one with the quotes.
    pub open spec fn wf(&self) -> bool {
        self.used@.len() == self.quotes@.len()
    }

    /// No quote has been dispensed yet.
    pub open spec fn none_used(&self) -> bool {
        forall|i: int| 0 <= i < self.used@.len() ==> !self.used@[i]
    }

    /// Initializes a new collection holding the provided quotes, none
    /// of them used yet.
    pub fn new(quotes: Vec<Quote>) -> (r: Quotes)
        ensures
            r.quotes == quotes,
            r.wf(),
            r.none_used(),
    {
        let n = quotes.len();
        let used: Vec<bool> = vec![false; n];
        Quotes { quotes, used }
    }

    /// Selects a random quote that has not been dispensed before and
    /// marks it used; fails with `NoQuotesAvailable` when the
    /// collection is empty or every quote has been dispensed.
    ///
    /// The draw is uniform over the indices whose usage flag is still
    /// unset, which dispenses each quote exactly once before the
    /// collection is exhausted.
    pub fn select_random_quote(&mut self) -> (r: Result<Quote, QuoteError>)
        requires
            old(self).wf(),
            old(self).quotes@.len() <= i32::MAX as usize,
        ensures
            final(self).wf(),
            final(self).quotes == old(self).quotes,
            (r is Ok) <==> some_unused(old(self).used@),
            r matches Err(e) ==> e == QuoteError::NoQuotesAvailable && *final(self) == *old(self),
            r matches Ok(q) ==> selection_ok(*old(self), *final(self), q),
    {
        let n = self.quotes.len();
        let mut unused: Vec<usize> = Vec::new();
        let mut k: usize = 0;
        while k < n
            invariant
                *self == *old(self),
                self.wf(),
                n == self.quotes@.len(),
                0 <= k <= n,
                unused@.len() <= k,
                forall|t: int|
                    0 <= t < unused@.len() ==> (unused@[t] < k && !self.used@[#[trigger] unused@[t] as int]),
                forall|j: int| 0 <= j < k && !self.used@[j] ==> unused@.contains(j as usize),
            decreases n - k,
        {
            let ghost prev = unused@;
            if !self.used[k] {
                unused.push(k);
            }
            proof {
                assert forall|j: int| 0 <= j < k + 1 && !self.used@[j] implies unused@.contains(
                    j as usize,
                ) by {
                    if j < k {
                        let t = choose|t: int| 0 <= t < prev.len() && prev[t] == j as usize;
                        assert(unused@[t] == j as usize);
                    } else {
                        assert(unused@[unused@.len() - 1] == k);
                    }
                }
            }
            k = k + 1;
        }
        if unused.len() == 0 {
            proof {
                assert forall|j: int| 0 <= j < self.used@.len() implies self.used@[j] by {
                    if !self.used@[j] {
                        assert(unused@.contains(j as usize));
                    }
                }
            }
            return Err(QuoteError::NoQuotesAvailable);
        }
        let hi: i32 = (unused.len() - 1) as i32;
        let j = random_int(0, hi) as usize;
        let i = unused[j];
        let q = self.quotes[i].clone();
        self.used.set(i, true);
        proof {
            assert(selected_at(*old(self), *self, q, i as int));
            assert(selection_ok(*old(self), *self, q));
        }
        Ok(q)
    }

    /// Returns all quotes, sorted ascending by their `date_added`
    /// string (lexicographic comparison, stable for ties); fails with
    /// `NoQuotesAvailable` when the collection is empty. Usage flags
    /// play no part and are not changed.
    pub fn select_all_quotes(&self) -> (r: Result<Vec<Quote>, QuoteError>)
        ensures
            (r is Err) <==> self.quotes@.len() == 0,
            r matches Err(e) ==> e == QuoteError::NoQuotesAvailable,
            r matches Ok(v) ==> {
                &&& v@ == spec_sort_by_date(self.quotes@)
                &&& v@.len() == self.quotes@.len()
                &&& sorted_by_date(v@)
                &&& v@.to_multiset() == self.quotes@.to_multiset()
            },
    {
        if self.quotes.len() == 0 {
            return Err(QuoteError::NoQuotesAvailable);
        }
        let n = self.quotes.len();
        let mut v: Vec<Quote> = Vec::new();
        let mut k: usize = 0;
        while k < n
            invariant
                n == self.quotes@.len(),
                0 <= k <= n,
                v@ =~= self.quotes@.subrange(0, k as int),
            decreases n - k,
        {
            v.push(self.quotes[k].clone());
            proof {
                assert(v@ =~= self.quotes@.subrange(0, k + 1));
            }
            k = k + 1;
        }
        proof {
            assert(v@ =~= self.quotes@);
        }
        sort_by_date(&mut v);
        Ok(v)
    }
}

/// Where a newly arrived entry goes in a sorted listing: after every
/// entry whose date compares `<=` its own. Entries with equal dates
/// therefore keep their arrival order, which makes the sort stable.
pub open spec fn spec_insert_by_date(sorted: Seq<Quote>, x: Quote) -> Seq<Quote>
    decreases sorted.len(),
{
    if sorted.len() == 0 {
        seq![x]
    } else if !lex_le(sorted[0].date_added@, x.date_added@) {
        seq![x] + sorted
    } else {
        seq![sorted[0]] + spec_insert_by_date(sorted.drop_first(), x)
    }
}

/// The stable date sort of a listing: each entry inserted in arrival
/// order, after its equals.
pub open spec fn spec_sort_by_date(s: Seq<Quote>) -> Seq<Quote>
    decreases s.len(),
{
    if s.len() == 0 {
        Seq::empty()
    } else {
        spec_insert_by_date(spec_sort_by_date(s.drop_last()), s.last())
    }
}

proof fn lemma_insert_by_date_len(sorted: Seq<Quote>, x: Quote)
    ensures
        spec_insert_by_date(sorted, x).len() == sorted.len() + 1,
    decreases sorted.len(),
{
    if sorted.len() != 0 && lex_le(sorted[0].date_added@, x.date_added@) {
        lemma_insert_by_date_len(sorted.drop_first(), x);
    }
}

proof fn lemma_sort_by_date_len(s: Seq<Quote>)
    ensures
        spec_sort_by_date(s).len() == s.len(),
    decreases s.len(),
{
    if s.len() != 0 {
        lemma_sort_by_date_len(s.drop_last());
        lemma_insert_by_date_len(spec_sort_by_date(s.drop_last()), s.last());
    }
}

/// Inserting at the position that `insert_pos` finds — past every
/// entry that compares `<=` and before every one that does not — is
/// exactly the stable insertion.
proof fn lemma_insert_by_date_at(w: Seq<Quote>, x: Quote, p: int)
    requires
        0 <= p <= w.len(),
        forall|k: int| 0 <= k < p ==> lex_le(w[k].date_added@, x.date_added@),
        forall|k: int| p <= k < w.len() ==> !lex_le(w[k].date_added@, x.date_added@),
    ensures
        spec_insert_by_date(w, x) == w.insert(p, x),
    decreases w.len(),
{
    if w.len() == 0 {
        assert(w.insert(0, x) =~= seq![x]);
    } else if p == 0 {
        assert(w.insert(0, x) =~= seq![x] + w);
    } else {
        assert(forall|k: int| 0 <= k < p - 1 ==> w.drop_first()[k] == w[k + 1]);
        assert(forall|k: int| p - 1 <= k < w.len() - 1 ==> w.drop_first()[k] == w[k + 1]);
        lemma_insert_by_date_at(w.drop_first(), x, p - 1);
        assert(w.insert(p, x) =~= seq![w[0]] + w.drop_first().insert(p - 1, x));
    }
}

/// Sorts the quotes in place, non-decreasing by `date_added`, by
/// stable insertion: the result is the stable date sort of the input,
/// and in particular a permutation of it.
fn sort_by_date(v: &mut Vec<Quote>)
    ensures
        final(v)@ == spec_sort_by_date(old(v)@),
        final(v)@.len() == old(v)@.len(),
        sorted_by_date(final(v)@),
        final(v)@.to_multiset() == old(v)@.to_multiset(),
{
    if v.len() == 0 {
        proof {
            assert(v@ =~= spec_sort_by_date(old(v)@));
        }
        return;
    }
    proof {
        assert(old(v)@.subrange(0, 1).drop_last() =~= Seq::<Quote>::empty());
        assert(old(v)@.subrange(0, 1).last() == old(v)@[0]);
        assert(spec_sort_by_date(Seq::<Quote>::empty()) =~= Seq::<Quote>::empty());
        assert(spec_insert_by_date(Seq::<Quote>::empty(), old(v)@[0]) =~= seq![old(v)@[0]]);
        assert(spec_sort_by_date(old(v)@.subrange(0, 1)) =~= seq![old(v)@[0]]);
        assert(v@ =~= spec_sort_by_date(old(v)@.subrange(0, 1)) + old(v)@.skip(1));
    }
    let mut i: usize = 1;
    while i < v.len()
        invariant
            1 <= i <= v@.len(),
            v@.len() == old(v)@.len(),
            sorted_by_date_upto(v@, i as int),
            v@.to_multiset() == old(v)@.to_multiset(),
            v@ =~= spec_sort_by_date(old(v)@.subrange(0, i as int)) + old(v)@.skip(i as int),
        decreases v@.len() - i,
    {
        let ghost orig = old(v)@;
        let ghost si = spec_sort_by_date(orig.subrange(0, i as int));
        proof {
            lemma_sort_by_date_len(orig.subrange(0, i as int));
        }
        let ghost pre = v@;
        let x = v.remove(i);
        proof {
            assert(forall|k: int| 0 <= k < i ==> v@[k] == pre[k]);
            assert(x == orig[i as int]);
            assert(v@ =~= si + orig.skip(i + 1));
        }
        let p = insert_pos(v, i, &x);
        let ghost w = v@;
        proof {
            assert forall|k: int| p <= k < i implies lex_le(
                x.date_added@,
                v@[k].date_added@,
            ) by {
                lemma_lex_le_total(v@[k].date_added@, x.date_added@);
            }
            vstd::seq_lib::to_multiset_remove(pre, i as int);
            vstd::seq_lib::to_multiset_insert(w, p as int, x);
            vstd::seq_lib::to_multiset_contains(pre, x);
            assert(pre.contains(x));
            assert(pre.to_multiset().remove(x).insert(x) =~= pre.to_multiset());
        }
        v.insert(p, x);
        proof {
            assert(forall|k: int| 0 <= k < p ==> v@[k] == w[k]);
            assert(v@[p as int] == x);
            assert(forall|k: int| p < k < v@.len() ==> v@[k] == w[k - 1]);
            assert forall|a: int, b: int| 0 <= a < b < i + 1 && b < v@.len() implies lex_le(
                v@[a].date_added@,
                v@[b].date_added@,
            ) by {
                if b < p {
                } else if a < p && b == p {
                } else if a == p {
                    assert(v@[b] == w[b - 1]);
                } else if a < p {
                    assert(v@[b] == w[b - 1]);
                    assert(lex_le(w[a].date_added@, w[b - 1].date_added@));
                } else {
                    assert(v@[a] == w[a - 1] && v@[b] == w[b - 1]);
                    assert(lex_le(w[a - 1].date_added@, w[b - 1].date_added@));
                }
            }
            assert(forall|k: int| 0 <= k < i ==> w[k] == si[k]);
            lemma_insert_by_date_at(si, x, p as int);
            assert(v@ =~= si.insert(p as int, x) + orig.skip(i + 1));
            assert(orig.subrange(0, i + 1).drop_last() =~= orig.subrange(0, i as int));
            assert(orig.subrange(0, i + 1).last() == orig[i as int]);
            assert(spec_sort_by_date(orig.subrange(0, i + 1)) == spec_insert_by_date(si, x));
            assert(v@ =~= spec_sort_by_date(orig.subrange(0, i + 1)) + orig.skip(i + 1));
        }
        i = i + 1;
    }
    proof {
        assert(old(v)@.subrange(0, old(v)@.len() as int) =~= old(v)@);
        assert(old(v)@.skip(old(v)@.len() as int) =~= Seq::<Quote>::empty());
        assert(v@ =~= spec_sort_by_date(old(v)@));
    }
}

/// Finds the position, within the sorted prefix of length `n`, at
/// which `x` belongs: every earlier entry compares `<= x` and every
/// later one compares strictly greater.
fn insert_pos(v: &Vec<Quote>, n: usize, x: &Quote) -> (p: usize)
    requires
        n <= v@.len(),
        sorted_by_date_upto(v@, n as int),
    ensures
        p <= n,
        forall|k: int| 0 <= k < p ==> lex_le(v@[k].date_added@, x.date_added@),
        forall|k: int| p <= k < n ==> !lex_le(v@[k].date_added@, x.date_added@),
    {
    let mut p: usize = 0;
    while p < n
        invariant
            0 <= p <= n <= v@.len(),
            sorted_by_date_upto(v@, n as int),
            forall|k: int| 0 <= k < p ==> lex_le(v@[k].date_added@, x.date_added@),
        decreases n - p,
    {
        if !str_le(v[p].date_added.as_str(), x.date_added.as_str()) {
            proof {
                assert forall|k: int| p <= k < n implies !lex_le(
                    v@[k].date_added@,
                    x.date_added@,
                ) by {
                    if k > p && lex_le(v@[k].date_added@, x.date_added@) {
                        lemma_lex_le_trans(
                            v@[p as int].date_added@,
                            v@[k].date_added@,
                            x.date_added@,
                        );
                    }
                }
            }
            return p;
        }
        p = p + 1;
    }
    p
}

/// Custom error type for quote handling.
#[derive(Debug)]
pub enum QuoteError {
    /// An underlying read failed; carries the reported cause.
    IOError(String),
    /// Malformed content or an unsupported source format; carries a
    /// message.
    ParseError(String),
    /// The collection is empty, or random selection has exhausted it.
    NoQuotesAvailable,
}

impl QuoteError {
    /// The rendered message for each error.
    pub open spec fn spec_message(&self) -> Seq<char> {
        match self {
            QuoteError::IOError(m) => "I/O Error: "@ + m@,
            QuoteError::ParseError(m) => "Parse Error: "@ + m@,
            QuoteError::NoQuotesAvailable => "No available quotes"@,
        }
    }

    /// Renders the error as a human-readable message.
    pub fn message(&self) -> (r: String)
        ensures
            r@ == self.spec_message(),
    {
        match self {
            QuoteError::IOError(m) => {
                let mut s = String::from_str("I/O Error: ");
                s.append(m.as_str());
                s
            },
            QuoteError::ParseError(m) => {
                let mut s = String::from_str("Parse Error: ");
                s.append(m.as_str());
                s
            },
            QuoteError::NoQuotesAvailable => String::from_str("No available quotes"),
        }
    }
}

/// Relies on `vrd::Random::new` and `vrd::Random::int`: a fresh
/// entropy-seeded generator returns an `i32` in the inclusive range
/// `[lo, hi]` (`int` asserts `lo <= hi` and otherwise panics).
#[verifier::external_body]
fn random_int(lo: i32, hi: i32) -> (r: i32)
    requires
        lo <= hi,
    ensures
        lo <= r <= hi,
{
    vrd::Random::new().int(lo, hi)
}

/// No-repeat law: a successful random selection marks index `i`; any
/// index that is still free afterwards — and so could be picked by a
/// later selection — is a different one.
pub proof fn lemma_no_repeat(used: Seq<bool>, i: int, j: int)
    requires
        0 <= i < used.len(),
        !used[i],
        0 <= j < used.len(),
        !used.update(i, true)[j],
    ensures
        i != j,
{
}

/// Exhaustion law: when `i` is the last free index, the selection that
/// takes it leaves no free index, so the next selection must fail.
pub proof fn lemma_exhaustion(used: Seq<bool>, i: int)
    requires
        0 <= i < used.len(),
        !used[i],
        forall|k: int| 0 <= k < used.len() && k != i ==> used[k],
    ensures
        !some_unused(used.update(i, true)),
{
}

} // verus!
