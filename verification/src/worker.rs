//! Per-worker matching logic: candidate encoding and hashing, batch
//! processing against the target set, match-line rendering, and the
//! worker-local output buffer with its flush and report thresholds.

use vstd::prelude::*;
use vstd::slice::slice_to_vec;
use crate::codec::{encode_hex16, encode_utf16le, hex_encode, utf16le};
use crate::lines::{
    delim, join_records, lemma_record_len_bound, lemma_records_round_trip, line_records,
    split_records,
};
use crate::md4::{md4_digest, spec_md4};
use crate::targets::TargetSet;

verus! {

/// The NTLM digest of a candidate: MD4 over its UTF-16LE widening.
pub open spec fn ntlm(pw: Seq<u8>) -> Seq<u8> {
    spec_md4(utf16le(pw))
}

/// Computes the NTLM digest of one candidate.
pub fn ntlm_hash(line: &[u8]) -> (r: [u8; 16])
    requires
        2 * line@.len() + 9 <= u64::MAX,
    ensures
        r@ == ntlm(line@),
{
    let enc = encode_utf16le(line);
    md4_digest(enc.as_slice())
}

/// A candidate hits when it is nonempty and its NTLM digest is a target.
pub open spec fn is_hit(ts: &TargetSet, line: Seq<u8>) -> bool {
    line.len() > 0 && ts.has(ntlm(line))
}

/// The candidates of `recs` that hit, in order.
pub open spec fn hits(ts: &TargetSet, recs: Seq<Seq<u8>>) -> Seq<Seq<u8>> {
    recs.filter(|l: Seq<u8>| is_hit(ts, l))
}

/// The hits of two candidate runs in a row are the hits of the first
/// run followed by the hits of the second: however the candidate
/// stream is cut into batches, the same candidates hit, so any worker
/// pool, whatever its size, finds the same matches.
pub proof fn lemma_hits_split(ts: &TargetSet, l1: Seq<Seq<u8>>, l2: Seq<Seq<u8>>)
    ensures
        hits(ts, l1 + l2) == hits(ts, l1) + hits(ts, l2),
{
    Seq::filter_distributes_over_add(l1, l2, |l: Seq<u8>| is_hit(ts, l));
}

/// The hits that a pool of workers finds over a run of packed
/// batches, concatenated in batch order.
pub open spec fn batched_hits(ts: &TargetSet, parts: Seq<Seq<Seq<u8>>>) -> Seq<Seq<u8>>
    decreases parts.len(),
{
    if parts.len() == 0 {
        Seq::empty()
    } else {
        hits(ts, line_records(join_records(parts.first()))) + batched_hits(ts, parts.skip(1))
    }
}

/// Worker-count invariance: however the candidate records are cut
/// into batches — one batch per worker pull, whatever the pool size —
/// packing each batch, splitting it again and matching yields, over
/// all batches together, exactly the hits of the whole record list.
pub proof fn lemma_batching_invariance(ts: &TargetSet, parts: Seq<Seq<Seq<u8>>>)
    requires
        forall|p: int, i: int, k: int|
            0 <= p < parts.len() && 0 <= i < parts[p].len() && 0 <= k < parts[p][i].len()
                ==> #[trigger] parts[p][i][k] != delim(),
    ensures
        batched_hits(ts, parts) == hits(ts, parts.flatten()),
    decreases parts.len(),
{
    if parts.len() == 0 {
        assert(parts.flatten() =~= Seq::<Seq<u8>>::empty());
        assert(hits(ts, parts.flatten()) =~= Seq::<Seq<u8>>::empty());
    } else {
        let first = parts.first();
        let rest = parts.skip(1);
        assert forall|i: int, k: int|
            0 <= i < first.len() && 0 <= k < first[i].len() implies #[trigger] first[i][k]
            != delim() by {
            assert(parts[0][i][k] != delim());
        };
        lemma_records_round_trip(first);
        assert forall|p: int, i: int, k: int|
            0 <= p < rest.len() && 0 <= i < rest[p].len() && 0 <= k < rest[p][i].len()
            implies #[trigger] rest[p][i][k] != delim() by {
            assert(parts[p + 1][i][k] != delim());
        };
        lemma_batching_invariance(ts, rest);
        lemma_hits_split(ts, first, rest.flatten());
        assert(parts.flatten() == first + rest.flatten());
    }
}

/// Every hit is a true positive: a nonempty candidate whose NTLM
/// digest the target set holds. What a run emits before an early exit
/// is therefore correct, however early it stops.
pub proof fn lemma_hits_true_positive(ts: &TargetSet, recs: Seq<Seq<u8>>, i: int)
    requires
        0 <= i < hits(ts, recs).len(),
    ensures
        hits(ts, recs)[i].len() > 0,
        ts.has(ntlm(hits(ts, recs)[i])),
{
    recs.lemma_filter_pred(|l: Seq<u8>| is_hit(ts, l), i);
}

/// One reported match: the candidate and its digest.
pub struct MatchRecord {
    pub line: Vec<u8>,
    pub digest: [u8; 16],
}

/// Splits a batch into candidate records and returns every hit with
/// its digest: exactly the nonempty records whose NTLM digest is a
/// target, in batch order.
pub fn process_batch(ts: &TargetSet, batch: &[u8]) -> (r: Vec<MatchRecord>)
    requires
        ts.wf(),
        2 * batch@.len() + 9 <= u64::MAX,
    ensures
        r@.len() == hits(ts, line_records(batch@)).len(),
        forall|i: int|
            0 <= i < r@.len() ==> {
                &&& (#[trigger] r@[i]).line@ == hits(ts, line_records(batch@))[i]
                &&& r@[i].digest@ == ntlm(r@[i].line@)
                &&& ts.has(r@[i].digest@)
                &&& r@[i].line@.len() <= batch@.len()
            },
{
    let recs = split_records(batch);
    let ghost lr = line_records(batch@);
    let mut out: Vec<MatchRecord> = Vec::new();
    let mut j: usize = 0;
    proof {
        assert(hits(ts, lr.take(0)) =~= Seq::<Seq<u8>>::empty());
    }
    while j < recs.len()
        invariant
            ts.wf(),
            2 * batch@.len() + 9 <= u64::MAX,
            lr == line_records(batch@),
            recs.deep_view() == lr,
            0 <= j <= recs@.len(),
            out@.len() == hits(ts, lr.take(j as int)).len(),
            forall|i: int|
                0 <= i < out@.len() ==> {
                    &&& (#[trigger] out@[i]).line@ == hits(ts, lr.take(j as int))[i]
                    &&& out@[i].digest@ == ntlm(out@[i].line@)
                    &&& ts.has(out@[i].digest@)
                    &&& out@[i].line@.len() <= batch@.len()
                },
        decreases recs@.len() - j,
    {
        proof {
            assert(recs.deep_view().len() == recs@.len());
            assert(recs.deep_view()[j as int] == recs@[j as int]@);
            lemma_record_len_bound(batch@, j as int);
        }
        let ghost prev = hits(ts, lr.take(j as int));
        let line = &recs[j];
        if line.len() > 0 {
            let h = ntlm_hash(line.as_slice());
            let rejected = ts.cheap_reject(&h);
            if !rejected {
                if ts.contains(&h) {
                    let owned = slice_to_vec(line.as_slice());
                    out.push(MatchRecord { line: owned, digest: h });
                }
            }
        }
        proof {
            reveal_with_fuel(Seq::<Seq<u8>>::filter, 2);
            assert(lr.take(j + 1).drop_last() =~= lr.take(j as int));
            assert(lr.take(j + 1).last() == lr[j as int]);
            if is_hit(ts, lr[j as int]) {
                assert(hits(ts, lr.take(j + 1)) =~= prev.push(lr[j as int]));
            } else {
                assert(hits(ts, lr.take(j + 1)) =~= prev);
            }
        }
        j = j + 1;
    }
    proof {
        assert(lr.take(recs@.len() as int) =~= lr);
    }
    out
}

/// The emitted line of one match: the candidate bytes, a colon, the
/// digest in lower-case hexadecimal, and a newline.
pub open spec fn spec_match_line(line: Seq<u8>, digest: Seq<u8>) -> Seq<u8> {
    line + seq![58u8] + hex_encode(digest) + seq![10u8]
}

/// Renders one match line.
pub fn format_match(line: &[u8], digest: &[u8; 16]) -> (r: Vec<u8>)
    requires
        line@.len() + 34 <= usize::MAX,
    ensures
        r@ == spec_match_line(line@, digest@),
{
    let mut r = slice_to_vec(line);
    r.push(58);
    let mut hx = encode_hex16(digest);
    r.append(&mut hx);
    r.push(10);
    proof {
        assert(r@ =~= spec_match_line(line@, digest@));
    }
    r
}

/// The bytes a worker emits for the hits of `hs`, in order.
pub open spec fn rendered_hits(hs: Seq<Seq<u8>>) -> Seq<u8>
    decreases hs.len(),
{
    if hs.len() == 0 {
        Seq::empty()
    } else {
        rendered_hits(hs.drop_last()) + spec_match_line(hs.last(), ntlm(hs.last()))
    }
}

/// Past this many buffered bytes a worker flushes its output.
pub open spec fn flush_limit() -> int {
    8192
}

/// How many cracks a worker gathers before reporting: one for a small
/// target set, ten in big mode to cut feedback traffic.
pub fn report_threshold(big: bool) -> (r: usize)
    ensures
        r == if big {
            10int
        } else {
            1int
        },
        r >= 1,
{
    if big {
        10
    } else {
        1
    }
}

/// Worker-local scratch state: the output buffer and the crack counter
/// with its report threshold.
pub struct Worker {
    out: Vec<u8>,
    cracked: usize,
    threshold: usize,
}

impl Worker {
    /// Bytes buffered and not yet flushed.
    pub closed spec fn pending(&self) -> Seq<u8> {
        self.out@
    }

    /// Matches counted since the last report.
    pub closed spec fn local_count(&self) -> usize {
        self.cracked
    }

    /// The report threshold this worker was built with.
    pub closed spec fn thresh(&self) -> usize {
        self.threshold
    }

    /// The buffer stays under the flush limit and the counter under
    /// the report threshold.
    pub open spec fn wf(&self) -> bool {
        &&& self.thresh() >= 1
        &&& self.local_count() < self.thresh()
        &&& self.pending().len() < flush_limit()
    }

    pub fn new(threshold: usize) -> (r: Worker)
        requires
            threshold >= 1,
        ensures
            r.wf(),
            r.pending() =~= Seq::<u8>::empty(),
            r.local_count() == 0,
            r.thresh() == threshold,
    {
        Worker { out: Vec::with_capacity(8192), cracked: 0, threshold }
    }

    /// Buffers one match line. Hands back the whole buffer once it
    /// reaches the flush limit, and a crack report of exactly the
    /// threshold once the counter reaches it.
    pub fn note_match(&mut self, line: &[u8], digest: &[u8; 16]) -> (r: (
        Option<Vec<u8>>,
        Option<usize>,
    ))
        requires
            old(self).wf(),
            old(self).pending().len() + line@.len() + 34 <= usize::MAX,
        ensures
            final(self).wf(),
            final(self).thresh() == old(self).thresh(),
            ({
                let full = old(self).pending() + spec_match_line(line@, digest@);
                match r.0 {
                    Some(f) => f@ == full && final(self).pending().len() == 0 && full.len()
                        >= flush_limit(),
                    None => final(self).pending() == full && full.len() < flush_limit(),
                }
            }),
            if old(self).local_count() + 1 == old(self).thresh() {
                r.1 == Some(old(self).thresh()) && final(self).local_count() == 0
            } else {
                r.1 is None && final(self).local_count() == old(self).local_count() + 1
            },
    {
        let mut ml = format_match(line, digest);
        self.out.append(&mut ml);
        let flushed: Option<Vec<u8>> = if self.out.len() >= 8192 {
            let f = slice_to_vec(self.out.as_slice());
            self.out.clear();
            Some(f)
        } else {
            None
        };
        self.cracked = self.cracked + 1;
        let report: Option<usize> = if self.cracked == self.threshold {
            let n = self.cracked;
            self.cracked = 0;
            Some(n)
        } else {
            None
        };
        (flushed, report)
    }

    /// Hands over whatever is buffered, as the shutdown path does.
    pub fn take_pending(&mut self) -> (r: Vec<u8>)
        ensures
            r@ == old(self).pending(),
            final(self).pending().len() == 0,
            final(self).local_count() == old(self).local_count(),
            final(self).thresh() == old(self).thresh(),
            old(self).wf() ==> final(self).wf(),
    {
        let f = slice_to_vec(self.out.as_slice());
        self.out.clear();
        f
    }

    /// Runs one batch: buffers a line for every hit, in order, and
    /// gathers the flushes and crack reports that fall due. Every
    /// emitted byte is accounted for: the flushes plus what stays
    /// buffered are exactly what was buffered before plus the rendered
    /// hits of the batch.
    pub fn run_batch(&mut self, ts: &TargetSet, batch: &[u8]) -> (r: (Vec<Vec<u8>>, Vec<usize>))
        requires
            old(self).wf(),
            ts.wf(),
            2 * batch@.len() + 9 <= u64::MAX,
            batch@.len() + 8226 <= usize::MAX,
        ensures
            final(self).wf(),
            final(self).thresh() == old(self).thresh(),
            r.0.deep_view().flatten() + final(self).pending() == old(self).pending()
                + rendered_hits(hits(ts, line_records(batch@))),
            forall|i: int| 0 <= i < r.1@.len() ==> r.1@[i] == old(self).thresh(),
            r.1@.len() * old(self).thresh() + final(self).local_count() == old(
                self,
            ).local_count() + hits(ts, line_records(batch@)).len(),
    {
        let matches = process_batch(ts, batch);
        let ghost hs = hits(ts, line_records(batch@));
        let ghost pend0 = self.pending();
        let ghost cnt0 = self.local_count();
        let ghost th0 = self.thresh();
        let mut flushes: Vec<Vec<u8>> = Vec::new();
        let mut reports: Vec<usize> = Vec::new();
        let mut i: usize = 0;
        proof {
            assert(hs.take(0) =~= Seq::<Seq<u8>>::empty());
            assert(flushes.deep_view() =~= Seq::<Seq<u8>>::empty());
            assert(Seq::<Seq<u8>>::empty().flatten() =~= Seq::<u8>::empty());
            assert(reports@.len() == 0);
            assert(reports@.len() * th0 == 0) by (nonlinear_arith)
                requires
                    reports@.len() == 0,
            ;
        }
        while i < matches.len()
            invariant
                ts.wf(),
                self.wf(),
                self.thresh() == th0,
                hs == hits(ts, line_records(batch@)),
                0 <= i <= matches@.len(),
                matches@.len() == hs.len(),
                2 * batch@.len() + 9 <= u64::MAX,
                batch@.len() + 8226 <= usize::MAX,
                forall|k: int|
                    0 <= k < matches@.len() ==> {
                        &&& (#[trigger] matches@[k]).line@ == hs[k]
                        &&& matches@[k].digest@ == ntlm(matches@[k].line@)
                        &&& matches@[k].line@.len() <= batch@.len()
                    },
                flushes.deep_view().flatten() + self.pending() == pend0 + rendered_hits(
                    hs.take(i as int),
                ),
                forall|k: int| 0 <= k < reports@.len() ==> reports@[k] == th0,
                reports@.len() * th0 + self.local_count() == cnt0 + i,
            decreases matches@.len() - i,
        {
            let m = &matches[i];
            let ghost old_pend = self.pending();
            let ghost old_flat = flushes.deep_view().flatten();
            let (fl, rep) = self.note_match(m.line.as_slice(), &m.digest);
            proof {
                assert(hs.take(i + 1).drop_last() =~= hs.take(i as int));
                assert(hs.take(i + 1).last() == hs[i as int]);
                assert(rendered_hits(hs.take(i + 1)) == rendered_hits(hs.take(i as int))
                    + spec_match_line(hs[i as int], ntlm(hs[i as int])));
            }
            match fl {
                Some(f) => {
                    let ghost old_view = flushes@;
                    let ghost old_deep = flushes.deep_view();
                    let ghost f_v = f@;
                    flushes.push(f);
                    proof {
                        assert forall|k: int| 0 <= k < flushes.deep_view().len() implies flushes
                            .deep_view()[k] == old_deep.push(f_v)[k] by {
                            if k < old_deep.len() {
                                assert(flushes@[k] == old_view[k]);
                            }
                        };
                        assert(flushes.deep_view() =~= old_deep.push(f_v));
                        old_deep.lemma_flatten_push(f_v);
                        assert(old_deep.push(f_v).flatten() == old_deep.flatten() + f_v);
                        assert(flushes.deep_view().flatten() == old_deep.flatten() + f_v);
                        assert(old_deep.flatten() == old_flat);
                        assert(f_v == old_pend + spec_match_line(
                            matches@[i as int].line@,
                            matches@[i as int].digest@,
                        ));
                        assert(matches@[i as int].digest@ == ntlm(hs[i as int]));
                        let ml = spec_match_line(hs[i as int], ntlm(hs[i as int]));
                        assert(f_v == old_pend + ml);
                        assert(old_flat + old_pend == pend0 + rendered_hits(hs.take(i as int)));
                        assert(flushes.deep_view().flatten() + self.pending() =~= old_flat + (
                        old_pend + ml));
                        assert(old_flat + (old_pend + ml) =~= (old_flat + old_pend) + ml);
                        assert((pend0 + rendered_hits(hs.take(i as int))) + ml =~= pend0
                            + rendered_hits(hs.take(i + 1)));
                        assert(flushes.deep_view().flatten() + self.pending() == pend0
                            + rendered_hits(hs.take(i + 1)));
                    }
                },
                None => {
                    proof {
                        assert(matches@[i as int].digest@ == ntlm(hs[i as int]));
                        let ml = spec_match_line(hs[i as int], ntlm(hs[i as int]));
                        assert(self.pending() == old_pend + ml);
                        assert(old_flat + old_pend == pend0 + rendered_hits(hs.take(i as int)));
                        assert(flushes.deep_view().flatten() + self.pending() =~= old_flat + (
                        old_pend + ml));
                        assert(old_flat + (old_pend + ml) =~= (old_flat + old_pend) + ml);
                        assert((pend0 + rendered_hits(hs.take(i as int))) + ml =~= pend0
                            + rendered_hits(hs.take(i + 1)));
                        assert(flushes.deep_view().flatten() + self.pending() == pend0
                            + rendered_hits(hs.take(i + 1)));
                    }
                },
            }
            let ghost rlen = reports@.len() as int;
            match rep {
                Some(nrep) => {
                    reports.push(nrep);
                    proof {
                        assert((rlen + 1) * th0 == rlen * th0 + th0) by (nonlinear_arith);
                    }
                },
                None => {},
            }
            i = i + 1;
        }
        proof {
            assert(hs.take(hs.len() as int) =~= hs);
        }
        (flushes, reports)
    }
}

} // verus!
