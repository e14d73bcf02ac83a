//! The document index and the query pipeline.
//!
//! An `Index` owns a collection of documents together with derived
//! state: each document's token sequence (through a pluggable accessor
//! and tokenizer) and the corpus mean document length.  Ranking is
//! delegated to a pluggable `Scorer` strategy, which turns the corpus
//! statistics of one document into an opaque ordered score code; the
//! index computes those statistics, drops documents the strategy calls
//! not relevant, and reports the rest best first.

use vstd::prelude::*;
use vstd::pervasive::arbitrary;
use crate::rank::QueryResult;
use crate::rank::lemma_sort_results_props;
use crate::rank::sort_results;
use crate::rank::sort_results_exec;
use crate::rank::sorted;
use crate::text::spec_tokenize;
use crate::text::tokenizer;

verus! {

/// One unit of text produced by tokenization.
pub type Token = String;

/// How text splits into tokens.  The token sequence is a function of
/// the characters alone, so a document tokenizes the same way every
/// time the index reads it.
pub trait Tokenize: Sized {
    /// The tokens of a text.  The default leaves the tokenization
    /// unspecified: an implementation outside the library may keep it
    /// and promise nothing, one inside the library overrides it.
    open spec fn spec_tokens_of(&self, text: Seq<char>) -> Seq<Seq<char>> {
        arbitrary()
    }

    /// Tokenizes one text.
    fn tokens_of(&self, text: String) -> (r: Vec<Token>)
        ensures
            r.deep_view() == self.spec_tokens_of(text@),
    ;
}

/// How the text to index is read out of a document.
pub trait TextOf<T>: Sized {
    /// The text of a document.  The default leaves it unspecified, as
    /// in `Tokenize`.
    open spec fn spec_text(&self, doc: T) -> Seq<char> {
        arbitrary()
    }

    /// Reads the text of one document.
    fn text(&self, doc: &T) -> (r: String)
        ensures
            r@ == self.spec_text(*doc),
    ;
}

/// A ranking strategy.  It scores one document from corpus statistics:
/// `n` documents in the corpus, `avg_doc_len` the mean token count,
/// `dl` this document's token count, and in `kws`, for each query
/// keyword, how many documents contain it and how often it occurs in
/// this document.  The score is an opaque ordered code: a larger code
/// means a more relevant document, zero means "not relevant".
pub trait Scorer: Sized {
    /// The score as a function of the statistics alone: scoring the
    /// same statistics twice gives the same code.  The default leaves
    /// the strategy's formula unspecified, as in `Tokenize`.
    open spec fn spec_score(&self, n: usize, avg_doc_len: usize, dl: usize, kws: Seq<(usize, usize)>) -> u64 {
        arbitrary()
    }

    /// Scores one document.  A document in which no query keyword
    /// occurs at all is never relevant.
    fn score(&self, n: usize, avg_doc_len: usize, dl: usize, kws: &Vec<(usize, usize)>) -> (r: u64)
        ensures
            r == self.spec_score(n, avg_doc_len, dl, kws@),
            (forall|j: int| 0 <= j < kws@.len() ==> (#[trigger] kws@[j]).1 == 0) ==> r == 0,
    ;
}

/// The library's tokenizer as a capability value: split on single
/// spaces, then lowercase each piece.
pub struct SpaceLower;

impl Tokenize for SpaceLower {
    open spec fn spec_tokens_of(&self, text: Seq<char>) -> Seq<Seq<char>> {
        spec_tokenize(text)
    }

    fn tokens_of(&self, text: String) -> (r: Vec<Token>) {
        tokenizer(text)
    }
}

/// How often `kw` occurs among the tokens of one document: the term
/// frequency.
pub open spec fn term_freq(doc: Seq<Seq<char>>, kw: Seq<char>) -> nat
    decreases doc.len(),
{
    if doc.len() == 0 {
        0
    } else {
        term_freq(doc.drop_last(), kw) + if doc.last() == kw {
            1nat
        } else {
            0nat
        }
    }
}

/// In how many documents `kw` occurs at least once: the document
/// frequency.
pub open spec fn doc_freq(all: Seq<Seq<Seq<char>>>, kw: Seq<char>) -> nat
    decreases all.len(),
{
    if all.len() == 0 {
        0
    } else {
        doc_freq(all.drop_last(), kw) + if term_freq(all.last(), kw) > 0 {
            1nat
        } else {
            0nat
        }
    }
}

/// The token count of the whole corpus.
pub open spec fn total_len(all: Seq<Seq<Seq<char>>>) -> nat
    decreases all.len(),
{
    if all.len() == 0 {
        0
    } else {
        total_len(all.drop_last()) + all.last().len()
    }
}

/// The mean token count of a document, rounded down; zero for the
/// empty corpus, so that no statistic ever divides by zero.
pub open spec fn avg_len(all: Seq<Seq<Seq<char>>>) -> nat {
    if all.len() == 0 {
        0
    } else {
        total_len(all) / all.len()
    }
}

/// The per-keyword statistics handed to the scorer for document `i`:
/// document frequency and term frequency, one pair per query keyword.
pub open spec fn kw_stats(all: Seq<Seq<Seq<char>>>, kws: Seq<Seq<char>>, i: int) -> Seq<
    (usize, usize),
> {
    Seq::new(
        kws.len(),
        |j: int| (doc_freq(all, kws[j]) as usize, term_freq(all[i], kws[j]) as usize),
    )
}

/// The score the strategy assigns to document `i`.
pub open spec fn doc_score<S: Scorer>(
    s: S,
    all: Seq<Seq<Seq<char>>>,
    avg: usize,
    kws: Seq<Seq<char>>,
    i: int,
) -> u64 {
    s.spec_score(all.len() as usize, avg, all[i].len() as usize, kw_stats(all, kws, i))
}

/// The documents among the first `n` with a positive score, in index
/// order.
pub open spec fn candidates<S: Scorer>(
    s: S,
    all: Seq<Seq<Seq<char>>>,
    avg: usize,
    kws: Seq<Seq<char>>,
    n: int,
) -> Seq<QueryResult>
    decreases n,
{
    if n <= 0 {
        Seq::empty()
    } else {
        let rest = candidates(s, all, avg, kws, n - 1);
        let sc = doc_score(s, all, avg, kws, n - 1);
        if sc > 0 {
            rest.push(QueryResult { id: (n - 1) as usize, score: sc })
        } else {
            rest
        }
    }
}

/// Everything a query returns: the positively scored documents, best
/// first.
pub open spec fn query_spec<S: Scorer>(
    s: S,
    all: Seq<Seq<Seq<char>>>,
    avg: usize,
    kws: Seq<Seq<char>>,
) -> Seq<QueryResult> {
    sort_results(candidates(s, all, avg, kws, all.len() as int))
}

pub proof fn lemma_candidates_props<S: Scorer>(
    s: S,
    all: Seq<Seq<Seq<char>>>,
    avg: usize,
    kws: Seq<Seq<char>>,
    n: int,
)
    requires
        0 <= n <= usize::MAX,
    ensures
        candidates(s, all, avg, kws, n).len() <= n,
        forall|a: int, b: int|
            0 <= a < b < candidates(s, all, avg, kws, n).len() ==> candidates(
                s,
                all,
                avg,
                kws,
                n,
            )[a].id < candidates(s, all, avg, kws, n)[b].id,
        forall|y: QueryResult|
            #[trigger] candidates(s, all, avg, kws, n).contains(y) <==> (y.id < n && y.score
                == doc_score(s, all, avg, kws, y.id as int) && y.score > 0),
    decreases n,
{
    if n <= 0 {
    } else {
        lemma_candidates_props(s, all, avg, kws, n - 1);
        let rest = candidates(s, all, avg, kws, n - 1);
        let c = candidates(s, all, avg, kws, n);
        let sc = doc_score(s, all, avg, kws, n - 1);
        if sc > 0 {
            let x = QueryResult { id: (n - 1) as usize, score: sc };
            assert(c == rest.push(x));
            assert forall|a: int, b: int| 0 <= a < b < c.len() implies c[a].id < c[b].id by {
                if b < c.len() - 1 {
                    assert(c[a] == rest[a] && c[b] == rest[b]);
                } else {
                    assert(c[a] == rest[a]);
                    assert(rest.contains(rest[a]));
                    assert(c[b] == x);
                }
            }
            assert forall|y: QueryResult| #[trigger] c.contains(y) implies (y.id < n && y.score
                == doc_score(s, all, avg, kws, y.id as int) && y.score > 0) by {
                let i = choose|i: int| 0 <= i < c.len() && c[i] == y;
                if i < c.len() - 1 {
                    assert(rest[i] == y);
                    assert(rest.contains(y));
                } else {
                    assert(y == x);
                }
            }
            assert forall|y: QueryResult| (y.id < n && y.score == doc_score(
                s,
                all,
                avg,
                kws,
                y.id as int,
            ) && y.score > 0) implies #[trigger] c.contains(y) by {
                if y.id < n - 1 {
                    assert(rest.contains(y));
                    let i = choose|i: int| 0 <= i < rest.len() && rest[i] == y;
                    assert(c[i] == y);
                } else {
                    assert(y == x);
                    assert(c[c.len() - 1] == y);
                }
                assert(c.contains(y));
            }
        } else {
            assert(c == rest);
            assert forall|y: QueryResult| (y.id < n && y.score == doc_score(
                s,
                all,
                avg,
                kws,
                y.id as int,
            ) && y.score > 0) implies #[trigger] c.contains(y) by {
                assert(y.id != n - 1);
                assert(rest.contains(y));
            }
            assert forall|y: QueryResult| #[trigger] c.contains(y) implies (y.id < n && y.score
                == doc_score(s, all, avg, kws, y.id as int) && y.score > 0) by {
                assert(rest.contains(y));
            }
        }
    }
}

/// Querying the same corpus twice with the same query keywords and the
/// same scorer parameters yields identical ordered results.
pub proof fn lemma_query_idempotent<S: Scorer>(
    s: S,
    all: Seq<Seq<Seq<char>>>,
    avg: usize,
    kws: Seq<Seq<char>>,
    r1: Seq<QueryResult>,
    r2: Seq<QueryResult>,
)
    requires
        r1 == query_spec(s, all, avg, kws),
        r2 == query_spec(s, all, avg, kws),
    ensures
        r1 == r2,
{
}

/// Documents of equal length in which every query keyword occurs
/// equally often are scored equal: the strategy sees identical
/// statistics for both.
pub proof fn lemma_equal_stats_equal_scores<S: Scorer>(
    s: S,
    all: Seq<Seq<Seq<char>>>,
    avg: usize,
    kws: Seq<Seq<char>>,
    i: int,
    j: int,
)
    requires
        0 <= i < all.len(),
        0 <= j < all.len(),
        all[i].len() == all[j].len(),
        forall|k: int|
            0 <= k < kws.len() ==> term_freq(all[i], #[trigger] kws[k]) == term_freq(
                all[j],
                kws[k],
            ),
    ensures
        doc_score(s, all, avg, kws, i) == doc_score(s, all, avg, kws, j),
{
    assert(kw_stats(all, kws, i) =~= kw_stats(all, kws, j));
}

/// Counts how often `kw` occurs in one document's token sequence.
fn count_token(doc: &Vec<Token>, kw: &Token) -> (r: usize)
    ensures
        r as nat == term_freq(doc.deep_view(), kw@),
{
    let mut r: usize = 0;
    let mut i: usize = 0;
    while i < doc.len()
        invariant
            i <= doc@.len(),
            r <= i,
            r as nat == term_freq(doc.deep_view().take(i as int), kw@),
        decreases doc@.len() - i,
    {
        proof {
            assert(doc.deep_view().take(i + 1).drop_last() =~= doc.deep_view().take(i as int));
            assert(doc.deep_view().take(i + 1).last() == doc@[i as int]@);
        }
        if doc[i] == *kw {
            r = r + 1;
        }
        i = i + 1;
    }
    proof {
        assert(doc.deep_view().take(doc@.len() as int) =~= doc.deep_view());
    }
    r
}

/// Counts the documents in which `kw` occurs at least once.
fn count_docs_with(all: &Vec<Vec<Token>>, kw: &Token) -> (r: usize)
    ensures
        r as nat == doc_freq(all.deep_view(), kw@),
{
    let mut r: usize = 0;
    let mut i: usize = 0;
    while i < all.len()
        invariant
            i <= all@.len(),
            r <= i,
            r as nat == doc_freq(all.deep_view().take(i as int), kw@),
        decreases all@.len() - i,
    {
        proof {
            assert(all.deep_view().take(i + 1).drop_last() =~= all.deep_view().take(i as int));
            assert(all.deep_view().take(i + 1).last() == all@[i as int].deep_view());
        }
        let tf = count_token(&all[i], kw);
        if tf > 0 {
            r = r + 1;
        }
        i = i + 1;
    }
    proof {
        assert(all.deep_view().take(all@.len() as int) =~= all.deep_view());
    }
    r
}

/// An inverted-statistics index over a collection of documents: the
/// documents themselves, each document's token sequence, and the mean
/// document length, kept in sync on every mutation.
pub struct Index<T, K: Tokenize, A: TextOf<T>> {
    documents: Vec<T>,
    tokens: Vec<Vec<Token>>,
    tokenizer: K,
    accessor: A,
    avg_doc_len: usize,
}

impl<T, K: Tokenize, A: TextOf<T>> Index<T, K, A> {
    /// The indexed documents, in insertion order.
    pub closed spec fn spec_docs(&self) -> Seq<T> {
        self.documents@
    }

    /// The cached token sequences, one per document.
    pub closed spec fn spec_tokens(&self) -> Seq<Seq<Seq<char>>> {
        self.tokens.deep_view()
    }

    /// The stored mean document length.
    pub closed spec fn spec_avg(&self) -> usize {
        self.avg_doc_len
    }

    /// The stored tokenizer capability.
    pub closed spec fn spec_tokenizer(&self) -> K {
        self.tokenizer
    }

    /// The stored accessor capability.
    pub closed spec fn spec_accessor(&self) -> A {
        self.accessor
    }

    /// The derived state is in sync with the documents: one token
    /// sequence per document, each the tokenization of that document's
    /// text, and the stored average is the corpus mean token count.
    pub open spec fn wf(&self) -> bool {
        &&& self.spec_tokens().len() == self.spec_docs().len()
        &&& forall|i: int|
            0 <= i < self.spec_docs().len() ==> #[trigger] self.spec_tokens()[i]
                == self.spec_tokenizer().spec_tokens_of(
                self.spec_accessor().spec_text(self.spec_docs()[i]),
            )
        &&& self.spec_avg() as nat == avg_len(self.spec_tokens())
    }

    /// An empty index: no documents, average length zero.
    pub fn new(tokenizer: K, accessor: A) -> (r: Self)
        ensures
            r.wf(),
            r.spec_docs().len() == 0,
            r.spec_avg() == 0,
            r.spec_tokenizer() == tokenizer,
            r.spec_accessor() == accessor,
    {
        let r = Index {
            documents: Vec::new(),
            tokens: Vec::new(),
            tokenizer,
            accessor,
            avg_doc_len: 0,
        };
        proof {
            assert(r.spec_tokens() =~= Seq::<Seq<Seq<char>>>::empty());
        }
        r
    }

    /// An index over a given collection: owns the documents and
    /// immediately computes token sequences and average length.
    pub fn from(documents: Vec<T>, tokenizer: K, accessor: A) -> (r: Self)
        ensures
            r.wf(),
            r.spec_docs() == documents@,
            r.spec_tokenizer() == tokenizer,
            r.spec_accessor() == accessor,
    {
        let mut index = Index {
            documents,
            tokens: Vec::new(),
            tokenizer,
            accessor,
            avg_doc_len: 0,
        };
        index.recalc_tokens();
        index.recalc_avg_document_len();
        index
    }

    /// The number of documents indexed.
    pub fn len(&self) -> (r: usize)
        ensures
            r == self.spec_tokens().len(),
    {
        self.tokens.len()
    }

    /// Rebuilds every cached token sequence from the documents.
    fn recalc_tokens(&mut self)
        ensures
            final(self).spec_docs() == old(self).spec_docs(),
            final(self).spec_tokenizer() == old(self).spec_tokenizer(),
            final(self).spec_accessor() == old(self).spec_accessor(),
            final(self).spec_avg() == old(self).spec_avg(),
            final(self).spec_tokens().len() == old(self).spec_docs().len(),
            forall|i: int|
                0 <= i < old(self).spec_docs().len() ==> #[trigger] final(self).spec_tokens()[i]
                    == old(self).spec_tokenizer().spec_tokens_of(
                    old(self).spec_accessor().spec_text(old(self).spec_docs()[i]),
                ),
    {
        let mut toks: Vec<Vec<Token>> = Vec::new();
        let mut i: usize = 0;
        while i < self.documents.len()
            invariant
                *self == *old(self),
                i <= self.documents@.len(),
                toks@.len() == i,
                forall|j: int|
                    0 <= j < i ==> #[trigger] toks.deep_view()[j]
                        == self.spec_tokenizer().spec_tokens_of(
                        self.spec_accessor().spec_text(self.spec_docs()[j]),
                    ),
            decreases self.documents@.len() - i,
        {
            let text = self.accessor.text(&self.documents[i]);
            let toks_i = self.tokenizer.tokens_of(text);
            let ghost prev = toks.deep_view();
            proof {
                assert(toks_i.deep_view() == self.spec_tokenizer().spec_tokens_of(
                    self.spec_accessor().spec_text(self.spec_docs()[i as int]),
                ));
            }
            toks.push(toks_i);
            proof {
                assert(toks.deep_view() =~= prev.push(toks_i.deep_view()));
            }
            i = i + 1;
        }
        self.tokens = toks;
    }

    /// Recomputes the corpus mean token count.  An empty corpus has
    /// average zero: the mean is never a division by zero.
    fn recalc_avg_document_len(&mut self)
        ensures
            final(self).spec_docs() == old(self).spec_docs(),
            final(self).spec_tokens() == old(self).spec_tokens(),
            final(self).spec_tokenizer() == old(self).spec_tokenizer(),
            final(self).spec_accessor() == old(self).spec_accessor(),
            final(self).spec_avg() as nat == avg_len(final(self).spec_tokens()),
    {
        let n = self.tokens.len();
        if n == 0 {
            self.avg_doc_len = 0;
            return ;
        }
        let ghost all = self.spec_tokens();
        let mut total: u128 = 0;
        let mut i: usize = 0;
        while i < n
            invariant
                *self == *old(self),
                n == self.tokens@.len(),
                all == self.spec_tokens(),
                i <= n,
                total == total_len(all.take(i as int)),
                total <= (i as u128) * (usize::MAX as u128),
            decreases n - i,
        {
            proof {
                assert(all.take(i + 1).drop_last() =~= all.take(i as int));
                assert(all.take(i + 1).last() == all[i as int]);
            }
            let dl = self.tokens[i].len();
            proof {
                assert(all[i as int].len() == self.tokens@[i as int]@.len());
                assert(total + (dl as u128) <= ((i + 1) as u128) * (usize::MAX as u128))
                    by (nonlinear_arith)
                    requires
                        total <= (i as u128) * (usize::MAX as u128),
                        dl as u128 <= usize::MAX as u128,
                ;
                assert(((i + 1) as u128) * (usize::MAX as u128) < u128::MAX) by (nonlinear_arith)
                    requires
                        (i + 1) as u128 <= usize::MAX as u128,
                ;
            }
            total = total + (dl as u128);
            i = i + 1;
        }
        proof {
            assert(all.take(n as int) =~= all);
        }
        let q = total / (n as u128);
        proof {
            assert(q <= usize::MAX as u128) by (nonlinear_arith)
                requires
                    q == total / (n as u128),
                    1 <= n as u128,
                    total <= (n as u128) * (usize::MAX as u128),
            ;
            assert(q as nat == total_len(all) / (all.len() as nat));
        }
        self.avg_doc_len = q as usize;
    }

    /// Appends one document and recomputes the derived state.  Ids of
    /// documents already indexed are stable: the collection is
    /// append-only.
    pub fn add_document(&mut self, doc: T)
        requires
            old(self).wf(),
        ensures
            final(self).wf(),
            final(self).spec_docs() == old(self).spec_docs().push(doc),
            final(self).spec_tokens() == old(self).spec_tokens().push(
                old(self).spec_tokenizer().spec_tokens_of(
                    old(self).spec_accessor().spec_text(doc),
                ),
            ),
            final(self).spec_tokenizer() == old(self).spec_tokenizer(),
            final(self).spec_accessor() == old(self).spec_accessor(),
    {
        let text = self.accessor.text(&doc);
        let new_tokens = self.tokenizer.tokens_of(text);
        let ghost toks = new_tokens.deep_view();
        self.documents.push(doc);
        self.tokens.push(new_tokens);
        proof {
            assert(self.spec_tokens() =~= old(self).spec_tokens().push(toks));
        }
        self.recalc_avg_document_len();
    }

    /// Ranks the indexed documents against a free-text query: the
    /// query is tokenized with the index's own tokenizer, every
    /// document is scored by the strategy from its statistics, the
    /// documents scored zero are dropped, and the rest are reported
    /// best first (ties in index order).  The index is read-only: an
    /// empty corpus, or a query no document matches, yields the empty
    /// ranking rather than an error.
    pub fn query<S: Scorer>(&self, query: &str, scorer: &S) -> (r: Vec<QueryResult>)
        requires
            self.wf(),
        ensures
            ({
                let all = self.spec_tokens();
                let kws = self.spec_tokenizer().spec_tokens_of(query@);
                &&& r@ == query_spec(*scorer, all, self.spec_avg(), kws)
                &&& sorted(r@)
                &&& forall|y: QueryResult|
                    #[trigger] r@.contains(y) <==> (y.id < all.len() && y.score == doc_score(
                        *scorer,
                        all,
                        self.spec_avg(),
                        kws,
                        y.id as int,
                    ) && y.score > 0)
                &&& (forall|j: int, i: int|
                    0 <= j < kws.len() && 0 <= i < all.len() ==> term_freq(
                        #[trigger] all[i],
                        #[trigger] kws[j],
                    ) == 0) ==> r@.len() == 0
                &&& (all.len() == 0 ==> r@.len() == 0)
            }),
    {
        let kws: Vec<Token> = self.tokenizer.tokens_of(query.to_owned());
        let ghost all = self.spec_tokens();
        let ghost kwv = kws.deep_view();
        let n = self.tokens.len();
        let m = kws.len();
        let avg = self.avg_doc_len;
        let mut dfs: Vec<usize> = Vec::new();
        let mut j: usize = 0;
        while j < m
            invariant
                j <= m,
                m == kwv.len(),
                kwv == kws.deep_view(),
                m == kws@.len(),
                all == self.spec_tokens(),
                dfs@.len() == j,
                forall|k: int| 0 <= k < j ==> #[trigger] dfs@[k] as nat == doc_freq(all, kwv[k]),
            decreases m - j,
        {
            let df = count_docs_with(&self.tokens, &kws[j]);
            dfs.push(df);
            j = j + 1;
        }
        let mut cands: Vec<QueryResult> = Vec::new();
        let mut i: usize = 0;
        while i < n
            invariant
                i <= n,
                n == all.len(),
                n == self.tokens@.len(),
                m == kwv.len(),
                kwv == kws.deep_view(),
                m == kws@.len(),
                all == self.spec_tokens(),
                avg == self.spec_avg(),
                dfs@.len() == m,
                forall|k: int| 0 <= k < m ==> #[trigger] dfs@[k] as nat == doc_freq(all, kwv[k]),
                cands@ == candidates(*scorer, all, avg, kwv, i as int),
                (forall|jj: int, ii: int|
                    0 <= jj < kwv.len() && 0 <= ii < all.len() ==> term_freq(
                        #[trigger] all[ii],
                        #[trigger] kwv[jj],
                    ) == 0) ==> cands@.len() == 0,
            decreases n - i,
        {
            let mut stats: Vec<(usize, usize)> = Vec::new();
            let mut k: usize = 0;
            while k < m
                invariant
                    k <= m,
                    i < n,
                    n == all.len(),
                    n == self.tokens@.len(),
                    m == kwv.len(),
                    kwv == kws.deep_view(),
                    m == kws@.len(),
                    all == self.spec_tokens(),
                    dfs@.len() == m,
                    forall|kk: int|
                        0 <= kk < m ==> #[trigger] dfs@[kk] as nat == doc_freq(all, kwv[kk]),
                    stats@.len() == k,
                    forall|t: int|
                        0 <= t < k ==> #[trigger] stats@[t] == (
                            doc_freq(all, kwv[t]) as usize,
                            term_freq(all[i as int], kwv[t]) as usize,
                        ),
                decreases m - k,
            {
                let tf = count_token(&self.tokens[i], &kws[k]);
                stats.push((dfs[k], tf));
                k = k + 1;
            }
            proof {
                assert(stats@ =~= kw_stats(all, kwv, i as int));
            }
            let dl = self.tokens[i].len();
            let sc = scorer.score(n, avg, dl, &stats);
            proof {
                assert(all.len() as usize == n);
                assert(all[i as int].len() as usize == dl);
                assert(sc == doc_score(*scorer, all, avg, kwv, i as int));
            }
            if sc > 0 {
                cands.push(QueryResult { id: i, score: sc });
            }
            proof {
                if forall|jj: int, ii: int|
                    0 <= jj < kwv.len() && 0 <= ii < all.len() ==> term_freq(
                        #[trigger] all[ii],
                        #[trigger] kwv[jj],
                    ) == 0 {
                    assert(forall|t: int|
                        0 <= t < stats@.len() ==> (#[trigger] stats@[t]).1 == 0);
                    assert(sc == 0);
                }
            }
            i = i + 1;
        }
        proof {
            lemma_candidates_props(*scorer, all, avg, kwv, n as int);
            assert(forall|a: int, b: int|
                0 <= a < b < cands@.len() ==> cands@[a].id != cands@[b].id);
            lemma_sort_results_props(cands@);
        }
        let r = sort_results_exec(cands);
        proof {
            assert(all.len() as int == n as int);
            assert(r@ == query_spec(*scorer, all, avg, kwv));
        }
        r
    }
}

} // verus!
