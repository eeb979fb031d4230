//! Newline-delimited records: the shape shared by the target-hash
//! file, the candidate stream and the batches sent to workers.

use vstd::prelude::*;
use vstd::slice::{slice_subrange, slice_to_vec};

verus! {

/// The newline byte that delimits records.
pub open spec fn delim() -> u8 {
    10u8
}

/// Length of the first record of `s`: the bytes before the first
/// newline, or all of `s` when it holds none.
pub open spec fn first_record_len(s: Seq<u8>) -> nat
    decreases s.len(),
{
    if s.len() == 0 {
        0
    } else if s[0] == delim() {
        0
    } else {
        (1 + first_record_len(s.skip(1))) as nat
    }
}

/// The records of `s`: the byte runs between newlines, without the
/// newlines themselves. A final record needs no closing newline, and
/// a closing newline adds no empty record after it.
pub open spec fn line_records(s: Seq<u8>) -> Seq<Seq<u8>>
    decreases s.len(),
{
    if s.len() == 0 {
        Seq::empty()
    } else {
        let n = first_record_len(s) as int;
        if n >= s.len() {
            seq![s]
        } else {
            seq![s.take(n)] + line_records(s.skip(n + 1))
        }
    }
}

/// The first record runs to the first newline, and no further than the end.
pub proof fn lemma_first_record_len(s: Seq<u8>)
    ensures
        first_record_len(s) <= s.len(),
        forall|i: int| 0 <= i < first_record_len(s) ==> s[i] != delim(),
        first_record_len(s) < s.len() ==> s[first_record_len(s) as int] == delim(),
    decreases s.len(),
{
    if s.len() == 0 {
    } else if s[0] == delim() {
    } else {
        lemma_first_record_len(s.skip(1));
        assert forall|i: int| 0 <= i < first_record_len(s) implies s[i] != delim() by {
            if i > 0 {
                assert(s.skip(1)[i - 1] != delim());
            }
        };
    }
}

/// Pins the first record length down from its defining properties.
pub proof fn lemma_first_record_len_is(s: Seq<u8>, n: int)
    requires
        0 <= n <= s.len(),
        forall|i: int| 0 <= i < n ==> s[i] != delim(),
        n < s.len() ==> s[n] == delim(),
    ensures
        first_record_len(s) == n,
    decreases s.len(),
{
    if s.len() == 0 {
    } else if n == 0 {
    } else {
        assert(s[0] != delim());
        assert forall|i: int| 0 <= i < n - 1 implies s.skip(1)[i] != delim() by {
            assert(s[i + 1] != delim());
        };
        if n - 1 < s.skip(1).len() {
            assert(s.skip(1)[n - 1] == s[n]);
        }
        lemma_first_record_len_is(s.skip(1), n - 1);
    }
}

/// Every record is at most as long as the split byte sequence.
pub proof fn lemma_record_len_bound(s: Seq<u8>, i: int)
    requires
        0 <= i < line_records(s).len(),
    ensures
        line_records(s)[i].len() <= s.len(),
    decreases s.len(),
{
    lemma_first_record_len(s);
    let n = first_record_len(s) as int;
    if s.len() != 0 && n < s.len() && i > 0 {
        lemma_record_len_bound(s.skip(n + 1), i - 1);
    }
}

/// A sequence of records packed back into one delimited buffer, each
/// record followed by one newline, as the dispatcher packs batches.
pub open spec fn join_records(lines: Seq<Seq<u8>>) -> Seq<u8>
    decreases lines.len(),
{
    if lines.len() == 0 {
        Seq::empty()
    } else {
        lines.first() + seq![delim()] + join_records(lines.skip(1))
    }
}

/// Packing delimiter-free records and splitting again gives the same
/// records back: however the stream is cut into batches, the workers
/// between them see exactly the candidates the dispatcher consumed.
pub proof fn lemma_records_round_trip(lines: Seq<Seq<u8>>)
    requires
        forall|i: int, k: int|
            0 <= i < lines.len() && 0 <= k < lines[i].len() ==> #[trigger] lines[i][k] != delim(),
    ensures
        line_records(join_records(lines)) == lines,
    decreases lines.len(),
{
    if lines.len() == 0 {
        assert(line_records(join_records(lines)) =~= lines);
    } else {
        let l0 = lines.first();
        let rest = join_records(lines.skip(1));
        let s = join_records(lines);
        assert(s == l0 + seq![delim()] + rest);
        assert forall|i: int| 0 <= i < l0.len() implies s[i] != delim() by {
            assert(s[i] == lines[0][i]);
        };
        assert(s[l0.len() as int] == delim());
        lemma_first_record_len_is(s, l0.len() as int);
        assert(s.take(l0.len() as int) =~= l0);
        assert(s.skip(l0.len() + 1 as int) =~= rest);
        assert forall|i: int, k: int|
            0 <= i < lines.skip(1).len() && 0 <= k < lines.skip(1)[i].len() implies #[trigger] lines
            .skip(1)[i][k] != delim() by {
            assert(lines.skip(1)[i] == lines[i + 1]);
        };
        lemma_records_round_trip(lines.skip(1));
        assert(line_records(s) == seq![l0] + lines.skip(1));
        assert(seq![l0] + lines.skip(1) =~= lines);
    }
}

/// Splits a byte buffer into its newline-delimited records.
pub fn split_records(data: &[u8]) -> (r: Vec<Vec<u8>>)
    ensures
        r.deep_view() == line_records(data@),
{
    let mut r: Vec<Vec<u8>> = Vec::new();
    let len = data.len();
    let mut p: usize = 0;
    proof {
        assert(data@.skip(0) =~= data@);
        assert(r.deep_view() =~= Seq::<Seq<u8>>::empty());
    }
    while p < len
        invariant
            0 <= p <= len,
            len == data@.len(),
            r.deep_view() + line_records(data@.skip(p as int)) =~= line_records(data@),
        decreases len - p,
    {
        let mut q: usize = p;
        while q < len && data[q] != 10
            invariant
                p <= q <= len,
                len == data@.len(),
                forall|i: int| p <= i < q ==> data@[i] != delim(),
            decreases len - q,
        {
            q = q + 1;
        }
        let rec = slice_to_vec(slice_subrange(data, p, q));
        proof {
            let rem = data@.skip(p as int);
            assert forall|i: int| 0 <= i < q - p implies rem[i] != delim() by {
                assert(rem[i] == data@[p + i]);
            };
            if (q as int) - (p as int) < rem.len() {
                assert(rem[q - p] == data@[q as int]);
            }
            lemma_first_record_len_is(rem, q - p);
            assert(rem.take(q - p) =~= data@.subrange(p as int, q as int));
            if q < len {
                assert(rem.skip(q - p + 1) =~= data@.skip(q + 1));
                assert(line_records(rem) == seq![rem.take(q - p)] + line_records(
                    data@.skip(q + 1),
                ));
            } else {
                assert(rem =~= data@.subrange(p as int, q as int));
                assert(line_records(rem) == seq![rem]);
                assert(data@.skip(len as int).len() == 0);
            }
        }
        let ghost old_view = r@;
        let ghost old_deep = r.deep_view();
        let ghost rec_v = rec@;
        r.push(rec);
        proof {
            let next = if q < len {
                q + 1
            } else {
                len as int
            };
            let rem = data@.skip(p as int);
            assert forall|i: int| 0 <= i < r.deep_view().len() implies r.deep_view()[i] == (
            old_deep + seq![rec_v])[i] by {
                if i < old_view.len() {
                    assert(r@[i] == old_view[i]);
                } else {
                    assert(r@[i]@ =~= rec_v);
                }
            };
            assert(r.deep_view() =~= old_deep + seq![rec@]);
            assert(seq![rec@] + line_records(data@.skip(next)) =~= line_records(rem));
            assert(r.deep_view() + line_records(data@.skip(next)) =~= old_deep + (seq![rec@]
                + line_records(data@.skip(next))));
            assert(r.deep_view() + line_records(data@.skip(next)) =~= line_records(data@));
        }
        p = if q < len {
            q + 1
        } else {
            len
        };
    }
    proof {
        assert(line_records(data@.skip(p as int)).len() == 0);
        assert(r.deep_view() =~= line_records(data@));
    }
    r
}

} // verus!
