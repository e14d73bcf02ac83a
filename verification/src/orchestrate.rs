//! The two-level query entry point.
//!
//! The outer index ranks whole transcripts against the query; for each
//! ranked transcript, in score order, a fresh inner index is built over
//! that transcript's caption segments, with the same tokenizer, and the
//! same query is run again to localize the best-matching segment.  A
//! transcript whose inner query returns no results is skipped entirely;
//! otherwise the transcript's identifier and its best segment's start
//! position make one final answer.  Answers keep the outer ranking
//! order.

use vstd::prelude::*;
use vstd::string::StringExecFns;
use crate::rank::QueryResult;
use crate::searcher::Index;
use crate::searcher::Scorer;
use crate::searcher::SpaceLower;
use crate::searcher::TextOf;
use crate::searcher::Tokenize;
use crate::searcher::avg_len;
use crate::searcher::query_spec;
use crate::text::dec_spec;
use crate::text::dec_str;
use crate::text::spec_tokenize;

verus! {

/// One timed caption segment: its text, and its start position as an
/// opaque code chosen by the caller (the surrounding application
/// stores the bits of its fractional start offset there and reads
/// them back; the engine only carries the code through).
pub struct Segment {
    pub text: String,
    pub start: u32,
}

impl Clone for Segment {
    fn clone(&self) -> (r: Self)
        ensures
            r == *self,
    {
        Segment { text: self.text.clone(), start: self.start }
    }
}

/// One transcript: an identifier, the concatenated full text the outer
/// index ranks, and the ordered caption segments.
pub struct Transcript {
    pub id: String,
    pub content: String,
    pub segments: Vec<Segment>,
}

impl Clone for Transcript {
    fn clone(&self) -> (r: Self)
        ensures
            r.id == self.id,
            r.content == self.content,
            r.segments@ == self.segments@,
    {
        Transcript {
            id: self.id.clone(),
            content: self.content.clone(),
            segments: clone_segments(&self.segments),
        }
    }
}

/// Copies a segment list.
fn clone_segments(segs: &Vec<Segment>) -> (r: Vec<Segment>)
    ensures
        r@ == segs@,
{
    let mut r: Vec<Segment> = Vec::new();
    let mut i: usize = 0;
    while i < segs.len()
        invariant
            i <= segs@.len(),
            r@ == segs@.take(i as int),
        decreases segs@.len() - i,
    {
        r.push(segs[i].clone());
        proof {
            assert(segs@.take(i + 1) =~= segs@.take(i as int).push(segs@[i as int]));
        }
        i = i + 1;
    }
    proof {
        assert(segs@.take(segs@.len() as int) =~= segs@);
    }
    r
}

/// Accessor for the outer index: a transcript's full concatenated
/// text.
pub struct ContentText;

impl TextOf<Transcript> for ContentText {
    open spec fn spec_text(&self, doc: Transcript) -> Seq<char> {
        doc.content@
    }

    fn text(&self, doc: &Transcript) -> (r: String) {
        doc.content.clone()
    }
}

/// Accessor for the inner per-transcript index: a segment's own text.
pub struct SegmentText;

impl TextOf<Segment> for SegmentText {
    open spec fn spec_text(&self, doc: Segment) -> Seq<char> {
        doc.text@
    }

    fn text(&self, doc: &Segment) -> (r: String) {
        doc.text.clone()
    }
}

/// One final answer: a transcript's identifier and the start code of
/// its best-matching segment.
pub struct VideoSegment {
    pub id: String,
    pub start: u32,
}

/// What `search` returns: a human-readable count summary and the
/// answers, best transcript first.
pub struct SearchResult {
    pub msg: String,
    pub videos: Vec<VideoSegment>,
}

/// The token sequences of a transcript's segments.
pub open spec fn segment_tokens(segs: Seq<Segment>) -> Seq<Seq<Seq<char>>> {
    Seq::new(segs.len(), |i: int| spec_tokenize(segs[i].text@))
}

/// The ranking of one transcript's segments against the query
/// keywords, over a fresh index built from those segments alone.
pub open spec fn inner_ranking<S: Scorer>(t: Transcript, s: S, kws: Seq<Seq<char>>) -> Seq<
    QueryResult,
> {
    query_spec(
        s,
        segment_tokens(t.segments@),
        avg_len(segment_tokens(t.segments@)) as usize,
        kws,
    )
}

/// The final answers, as (identifier, start code) pairs: one per outer
/// result whose inner ranking is non-empty, in outer ranking order,
/// each naming the top inner segment.
pub open spec fn video_matches<S: Scorer>(
    transcripts: Seq<Transcript>,
    outer: Seq<QueryResult>,
    s: S,
    kws: Seq<Seq<char>>,
) -> Seq<(Seq<char>, u32)>
    decreases outer.len(),
{
    if outer.len() == 0 {
        Seq::empty()
    } else {
        let rest = video_matches(transcripts, outer.drop_last(), s, kws);
        let t = transcripts[outer.last().id as int];
        let ir = inner_ranking(t, s, kws);
        if ir.len() > 0 {
            rest.push((t.id@, t.segments@[ir[0].id as int].start))
        } else {
            rest
        }
    }
}

/// One answer of the two-level search is accounted for by the outer
/// result at position `j`: that result's transcript has a non-empty
/// inner ranking, and the answer names that transcript and its top
/// inner segment's start.
pub open spec fn accounted_by<S: Scorer>(
    transcripts: Seq<Transcript>,
    outer: Seq<QueryResult>,
    s: S,
    kws: Seq<Seq<char>>,
    j: int,
    p: (Seq<char>, u32),
) -> bool {
    let t = transcripts[outer[j].id as int];
    let ir = inner_ranking(t, s, kws);
    ir.len() > 0 && p == (t.id@, t.segments@[ir[0].id as int].start)
}

/// The two-level search never emits an answer for a transcript whose
/// inner segment query returned no results: every answer is accounted
/// for by an outer result with a non-empty inner ranking.
pub proof fn lemma_no_match_without_inner_hit<S: Scorer>(
    transcripts: Seq<Transcript>,
    outer: Seq<QueryResult>,
    s: S,
    kws: Seq<Seq<char>>,
    v: int,
)
    requires
        0 <= v < video_matches(transcripts, outer, s, kws).len(),
    ensures
        exists|j: int|
            0 <= j < outer.len() && accounted_by(
                transcripts,
                outer,
                s,
                kws,
                j,
                video_matches(transcripts, outer, s, kws)[v],
            ),
    decreases outer.len(),
{
    let vm = video_matches(transcripts, outer, s, kws);
    let rest = video_matches(transcripts, outer.drop_last(), s, kws);
    let t = transcripts[outer.last().id as int];
    let ir = inner_ranking(t, s, kws);
    if ir.len() > 0 && v == vm.len() - 1 {
        assert(vm[v] == (t.id@, t.segments@[ir[0].id as int].start));
        assert(accounted_by(transcripts, outer, s, kws, outer.len() - 1, vm[v]));
    } else {
        assert(vm[v] == rest[v]);
        lemma_no_match_without_inner_hit(transcripts, outer.drop_last(), s, kws, v);
        let j = choose|j: int|
            0 <= j < outer.drop_last().len() && accounted_by(
                transcripts,
                outer.drop_last(),
                s,
                kws,
                j,
                rest[v],
            );
        assert(outer.drop_last()[j] == outer[j]);
        assert(accounted_by(transcripts, outer, s, kws, j, vm[v]));
    }
}

/// The library tokenizer value always splits a text as `spec_tokenize`
/// says, whichever index carries it.
proof fn lemma_space_lower_tokenize(tk: SpaceLower, q: Seq<char>)
    ensures
        tk.spec_tokens_of(q) == spec_tokenize(q),
{
}

/// What a fresh index over one transcript's segments looks like: its
/// token sequences are the segments' texts tokenized, its average is
/// their mean length, and its tokenizer splits the query as the outer
/// index does.
proof fn lemma_inner_index_model(idx: Index<Segment, SpaceLower, SegmentText>, q: Seq<char>)
    requires
        idx.wf(),
    ensures
        idx.spec_tokens() == segment_tokens(idx.spec_docs()),
        idx.spec_avg() == avg_len(segment_tokens(idx.spec_docs())) as usize,
        idx.spec_tokenizer().spec_tokens_of(q) == spec_tokenize(q),
{
    assert(idx.spec_tokens() =~~= segment_tokens(idx.spec_docs()));
    assert(idx.spec_avg() as nat == avg_len(segment_tokens(idx.spec_docs())));
}

/// The summary line reported with the answers: the count of answers,
/// "result" in the plural exactly above one, and the query echoed in
/// quotes.
pub open spec fn found_message(n: nat, q: Seq<char>) -> Seq<char> {
    "Found "@ + dec_spec(n) + " result"@ + (if n > 1 {
        "s"@
    } else {
        Seq::<char>::empty()
    }) + " for: \""@ + q + "\""@
}

/// Runs the query at both levels: ranks whole transcripts on the outer
/// index, then, per ranked transcript in score order, ranks that
/// transcript's segments on a fresh inner index with the same
/// tokenizer, skipping transcripts with an empty inner ranking and
/// reporting the rest as (identifier, best segment start) answers
/// under a count summary.  The outer index must be in sync with the
/// transcript list: one document per transcript, tokenized from its
/// full text.
pub fn search<S: Scorer>(
    query: &str,
    transcripts: &Vec<Transcript>,
    index: &Index<Transcript, SpaceLower, ContentText>,
    scorer: &S,
) -> (r: SearchResult)
    requires
        index.wf(),
        index.spec_docs().len() == transcripts@.len(),
        forall|i: int|
            0 <= i < transcripts@.len() ==> #[trigger] index.spec_tokens()[i] == spec_tokenize(
                transcripts@[i].content@,
            ),
    ensures
        ({
            let kws = spec_tokenize(query@);
            let outer = query_spec(*scorer, index.spec_tokens(), index.spec_avg(), kws);
            let vm = video_matches(transcripts@, outer, *scorer, kws);
            &&& r.videos@.len() == vm.len()
            &&& forall|i: int|
                0 <= i < vm.len() ==> (#[trigger] r.videos@[i].id@) == vm[i].0
                    && r.videos@[i].start == vm[i].1
            &&& r.msg@ == found_message(vm.len(), query@)
        }),
{
    let ghost kws = spec_tokenize(query@);
    let results = index.query(query, scorer);
    let ghost outer = results@;
    proof {
        lemma_space_lower_tokenize(index.spec_tokenizer(), query@);
        assert(outer == query_spec(*scorer, index.spec_tokens(), index.spec_avg(), kws));
    }
    let mut videos: Vec<VideoSegment> = Vec::new();
    let mut i: usize = 0;
    while i < results.len()
        invariant
            i <= results@.len(),
            kws == spec_tokenize(query@),
            outer == results@,
            outer == query_spec(*scorer, index.spec_tokens(), index.spec_avg(), kws),
            index.wf(),
            index.spec_docs().len() == transcripts@.len(),
            forall|k: int|
                0 <= k < transcripts@.len() ==> #[trigger] index.spec_tokens()[k] == spec_tokenize(
                    transcripts@[k].content@,
                ),
            forall|y: QueryResult|
                #[trigger] outer.contains(y) ==> y.id < transcripts@.len(),
            ({
                let vm = video_matches(transcripts@, outer.take(i as int), *scorer, kws);
                &&& videos@.len() == vm.len()
                &&& forall|k: int|
                    0 <= k < vm.len() ==> (#[trigger] videos@[k].id@) == vm[k].0
                        && videos@[k].start == vm[k].1
            }),
        decreases results@.len() - i,
    {
        proof {
            assert(outer.contains(outer[i as int]));
        }
        let rid = results[i].id;
        let segs = clone_segments(&transcripts[rid].segments);
        let inner = Index::from(segs, SpaceLower, SegmentText);
        let top = inner.query(query, scorer);
        let ghost t = transcripts@[rid as int];
        let ghost ir = inner_ranking(t, *scorer, kws);
        proof {
            lemma_inner_index_model(inner, query@);
            assert(inner.spec_docs() == t.segments@);
            assert(inner.spec_tokens() == segment_tokens(t.segments@));
            assert(top@ == ir);
            assert(video_matches(transcripts@, outer.take(i + 1), *scorer, kws) == ({
                let rest = video_matches(transcripts@, outer.take(i as int), *scorer, kws);
                if ir.len() > 0 {
                    rest.push((t.id@, t.segments@[ir[0].id as int].start))
                } else {
                    rest
                }
            })) by {
                assert(outer.take(i + 1).drop_last() =~= outer.take(i as int));
                assert(outer.take(i + 1).last() == outer[i as int]);
            }
        }
        if top.len() > 0 {
            proof {
                assert(top@.contains(top@[0]));
                assert(top@[0].id < segment_tokens(t.segments@).len());
            }
            let sid = top[0].id;
            videos.push(
                VideoSegment {
                    id: transcripts[rid].id.clone(),
                    start: transcripts[rid].segments[sid].start,
                },
            );
        }
        i = i + 1;
    }
    proof {
        assert(outer.take(outer.len() as int) =~= outer);
    }
    let count = videos.len();
    let count_str = dec_str(count);
    let mut msg = String::from_str("Found ");
    msg.append(count_str.as_str());
    msg.append(" result");
    if count > 1 {
        msg.append("s");
    }
    msg.append(" for: \"");
    msg.append(query);
    msg.append("\"");
    proof {
        assert(msg@ =~= found_message(count as nat, query@));
    }
    SearchResult { msg, videos }
}

} // verus!
