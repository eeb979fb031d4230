//! The target hash set: parsed once before the pipeline starts, then
//! read-only. Offers exact membership, a sound cheap pre-filter over
//! the first and last digest byte, and the big-mode switch that turns
//! the pre-filter off for large sets.

use vstd::prelude::*;
use vstd::bytes::{
    lemma_auto_spec_u128_to_from_le_bytes, spec_u128_from_le_bytes, spec_u128_to_le_bytes,
    u128_from_le_bytes,
};
use std::collections::HashSet;
use crate::codec::{decode_hash_record, hex_decode16, valid_hex_record, ParseError};
use crate::lines::{line_records, split_records};

verus! {

broadcast use vstd::std_specs::hash::group_hash_axioms;

/// Above this many distinct targets the cheap pre-filter is disabled.
pub open spec fn big_mode_threshold() -> int {
    512
}

/// The set of digests being searched for, with the two 256-entry
/// presence tables over first and last digest bytes.
pub struct TargetSet {
    keys: HashSet<u128>,
    starts: Vec<bool>,
    ends: Vec<bool>,
    big: bool,
}

impl TargetSet {
    /// Whether the 16-byte digest `h` is one of the targets.
    pub closed spec fn has(&self, h: Seq<u8>) -> bool {
        h.len() == 16 && self.keys@.contains(spec_u128_from_le_bytes(h))
    }

    /// The number of distinct targets.
    pub closed spec fn count(&self) -> nat {
        self.keys@.len()
    }

    /// Whether the pre-filter is disabled.
    pub closed spec fn big_mode(&self) -> bool {
        self.big
    }

    /// Whether some target's first byte equals `b`.
    pub closed spec fn start_present(&self, b: u8) -> bool {
        self.starts@[b as int]
    }

    /// Whether some target's last byte equals `b`.
    pub closed spec fn end_present(&self, b: u8) -> bool {
        self.ends@[b as int]
    }

    /// Internal consistency: tables cover every stored digest, and the
    /// big-mode flag reflects the count.
    pub closed spec fn wf(&self) -> bool {
        &&& self.keys@.finite()
        &&& self.starts@.len() == 256
        &&& self.ends@.len() == 256
        &&& (forall|k: u128|
            self.keys@.contains(k) ==> self.starts@[spec_u128_to_le_bytes(k)[0] as int]
                && self.ends@[spec_u128_to_le_bytes(k)[15] as int])
        &&& self.big == (self.keys@.len() > big_mode_threshold())
    }

    /// What the pre-filter answers: a reject only when the filter is
    /// on and the first or last byte of `h` appears in no target.
    pub open spec fn spec_cheap_reject(&self, h: Seq<u8>) -> bool
        recommends
            h.len() == 16,
    {
        !self.big_mode() && (!self.start_present(h[0]) || !self.end_present(h[15]))
    }

    /// Parses the target file: one record of 32 hexadecimal digits per
    /// line. Succeeds exactly when every record is well formed; the
    /// first malformed record decides the error. On success the set
    /// holds exactly the decoded digests.
    pub fn build(data: &[u8]) -> (r: Result<TargetSet, ParseError>)
        ensures
            r is Ok <==> (forall|i: int|
                0 <= i < line_records(data@).len() ==> valid_hex_record(
                    #[trigger] line_records(data@)[i],
                )),
            r is Ok ==> {
                let ts = r.unwrap();
                &&& ts.wf()
                &&& ts.big_mode() == (ts.count() > big_mode_threshold())
                &&& (forall|h: Seq<u8>|
                    #[trigger] ts.has(h) <==> exists|i: int|
                        0 <= i < line_records(data@).len() && h == hex_decode16(
                            #[trigger] line_records(data@)[i],
                        ))
            },
            r is Err ==> exists|i: int|
                {
                    &&& 0 <= i < line_records(data@).len()
                    &&& !valid_hex_record(#[trigger] line_records(data@)[i])
                    &&& (forall|j: int| 0 <= j < i ==> valid_hex_record(line_records(data@)[j]))
                    &&& (r->Err_0 is WrongLength <==> line_records(data@)[i].len() != 32)
                },
    {
        let recs = split_records(data);
        let ghost lr = line_records(data@);
        let mut keys: HashSet<u128> = HashSet::new();
        let mut starts: Vec<bool> = Vec::new();
        let mut ends: Vec<bool> = Vec::new();
        let mut t: usize = 0;
        while t < 256
            invariant
                0 <= t <= 256,
                starts@.len() == t,
                ends@.len() == t,
                forall|i: int| 0 <= i < t ==> !starts@[i] && !ends@[i],
            decreases 256 - t,
        {
            starts.push(false);
            ends.push(false);
            t = t + 1;
        }
        let mut j: usize = 0;
        while j < recs.len()
            invariant
                lr == line_records(data@),
                recs.deep_view() == lr,
                0 <= j <= lr.len(),
                keys@.finite(),
                starts@.len() == 256,
                ends@.len() == 256,
                forall|i: int| 0 <= i < j ==> valid_hex_record(#[trigger] lr[i]),
                forall|i: int|
                    0 <= i < j ==> keys@.contains(
                        spec_u128_from_le_bytes(hex_decode16(#[trigger] lr[i])),
                    ),
                forall|k: u128|
                    #[trigger] keys@.contains(k) ==> exists|i: int|
                        0 <= i < j && k == spec_u128_from_le_bytes(hex_decode16(
                            #[trigger] lr[i],
                        )),
                forall|k: u128|
                    keys@.contains(k) ==> starts@[spec_u128_to_le_bytes(k)[0] as int]
                        && ends@[spec_u128_to_le_bytes(k)[15] as int],
            decreases recs@.len() - j,
        {
            proof {
                assert(recs.deep_view().len() == recs@.len());
                assert(recs.deep_view()[j as int] == recs@[j as int]@);
                assert(recs@[j as int]@ == lr[j as int]);
            }
            let h = match decode_hash_record(recs[j].as_slice()) {
                Ok(h) => h,
                Err(e) => {
                    proof {
                        let w = j as int;
                        assert(recs@[w]@ == lr[w]);
                        assert(0 <= w < line_records(data@).len());
                        assert(!valid_hex_record(line_records(data@)[w]));
                        assert(forall|j2: int|
                            0 <= j2 < w ==> valid_hex_record(line_records(data@)[j2]));
                        assert(e is WrongLength <==> line_records(data@)[w].len() != 32);
                        assert(exists|i: int|
                            {
                                &&& 0 <= i < line_records(data@).len()
                                &&& !valid_hex_record(#[trigger] line_records(data@)[i])
                                &&& (forall|j2: int|
                                    0 <= j2 < i ==> valid_hex_record(line_records(data@)[j2]))
                                &&& (e is WrongLength <==> line_records(data@)[i].len() != 32)
                            });
                    }
                    return Err(e);
                },
            };
            let k = u128_from_le_bytes(h.as_slice());
            proof {
                lemma_auto_spec_u128_to_from_le_bytes();
                assert(h@.len() == 16);
                assert(spec_u128_to_le_bytes(k) == h@);
            }
            keys.insert(k);
            let b0 = h[0];
            let b15 = h[15];
            starts.set(b0 as usize, true);
            ends.set(b15 as usize, true);
            j = j + 1;
        }
        let big = keys.len() > 512;
        let ts = TargetSet { keys, starts, ends, big };
        proof {
            lemma_auto_spec_u128_to_from_le_bytes();
            assert forall|h: Seq<u8>| #[trigger] ts.has(h) implies exists|i: int|
                0 <= i < line_records(data@).len() && h == hex_decode16(
                    #[trigger] line_records(data@)[i],
                ) by {
                let k = spec_u128_from_le_bytes(h);
                let i = choose|i: int|
                    0 <= i < lr.len() && k == spec_u128_from_le_bytes(
                        hex_decode16(#[trigger] lr[i]),
                    );
                assert(spec_u128_to_le_bytes(k) == h);
                assert(spec_u128_to_le_bytes(k) == hex_decode16(lr[i]));
                assert(h == hex_decode16(line_records(data@)[i]));
            };
            assert forall|h: Seq<u8>|
                exists|i: int|
                    0 <= i < line_records(data@).len() && h == hex_decode16(
                        #[trigger] line_records(data@)[i],
                    ) implies #[trigger] ts.has(h) by {
                let i = choose|i: int|
                    0 <= i < lr.len() && h == hex_decode16(#[trigger] lr[i]);
                assert(ts.keys@.contains(spec_u128_from_le_bytes(hex_decode16(lr[i]))));
            };
        }
        Ok(ts)
    }

    /// Exact membership of a computed digest among the targets.
    pub fn contains(&self, h: &[u8; 16]) -> (r: bool)
        ensures
            r == self.has(h@),
    {
        let k = u128_from_le_bytes(h.as_slice());
        proof {
            assert(h@.len() == 16);
        }
        self.keys.contains(&k)
    }

    /// The cheap pre-filter. A true answer proves the digest is not a
    /// target; a false answer proves nothing.
    pub fn cheap_reject(&self, h: &[u8; 16]) -> (r: bool)
        requires
            self.wf(),
        ensures
            r == self.spec_cheap_reject(h@),
            r ==> !self.has(h@),
    {
        proof {
            if self.has(h@) {
                lemma_cheap_reject_sound(self, h@);
            }
        }
        if self.big {
            false
        } else {
            let s = self.starts[h[0] as usize];
            let e = self.ends[h[15] as usize];
            !s || !e
        }
    }

    /// The number of distinct targets.
    pub fn size(&self) -> (r: usize)
        ensures
            r == self.count(),
    {
        self.keys.len()
    }

    /// Whether the pre-filter is disabled for this set.
    pub fn is_big(&self) -> (r: bool)
        ensures
            r == self.big_mode(),
    {
        self.big
    }
}

/// The target count is the number of distinct digests the set holds:
/// every digest is stored once, however often the input repeated it.
pub proof fn lemma_count_is_distinct(ts: &TargetSet)
    requires
        ts.wf(),
    ensures
        Set::new(|h: Seq<u8>| ts.has(h)).finite(),
        ts.count() == Set::new(|h: Seq<u8>| ts.has(h)).len(),
{
    lemma_auto_spec_u128_to_from_le_bytes();
    let f = |k: u128| spec_u128_to_le_bytes(k);
    let digests = Set::new(|h: Seq<u8>| ts.has(h));
    assert forall|h: Seq<u8>| #[trigger] ts.keys@.map(f).contains(h) implies digests.contains(
        h,
    ) by {
        let k = choose|k: u128| ts.keys@.contains(k) && #[trigger] f(k) == h;
        assert(f(k) == spec_u128_to_le_bytes(k));
        assert(spec_u128_from_le_bytes(spec_u128_to_le_bytes(k)) == k);
        assert(spec_u128_from_le_bytes(h) == k);
    };
    assert forall|h: Seq<u8>| #[trigger] digests.contains(h) implies ts.keys@.map(f).contains(
        h,
    ) by {
        let k = spec_u128_from_le_bytes(h);
        assert(ts.keys@.contains(k) && f(k) == h);
    };
    assert forall|k1: u128, k2: u128|
        ts.keys@.contains(k1) && ts.keys@.contains(k2) && #[trigger] f(k1) == #[trigger] f(
            k2,
        ) implies k1 == k2 by {
        assert(f(k1) == spec_u128_to_le_bytes(k1));
        assert(f(k2) == spec_u128_to_le_bytes(k2));
        assert(spec_u128_from_le_bytes(spec_u128_to_le_bytes(k1)) == k1);
        assert(spec_u128_from_le_bytes(spec_u128_to_le_bytes(k2)) == k2);
    };
    assert(vstd::relations::injective_on(f, ts.keys@));
    assert(ts.keys@.map(f) =~= digests);
    vstd::set_lib::lemma_map_size(ts.keys@, digests, f);
}

/// The cheap pre-filter is sound: it never rejects a digest that the
/// set holds, whatever the big-mode flag is.
pub proof fn lemma_cheap_reject_sound(ts: &TargetSet, h: Seq<u8>)
    requires
        ts.wf(),
        ts.has(h),
    ensures
        !ts.spec_cheap_reject(h),
{
    lemma_auto_spec_u128_to_from_le_bytes();
    let k = spec_u128_from_le_bytes(h);
    assert(spec_u128_to_le_bytes(k) == h);
}

} // verus!
