//! H.264 Annex B bitstream utilities: NAL unit extraction, IDR detection and
//! SPS parsing, used to check encoder output against what a browser's decoder
//! accepts.

use vstd::arithmetic::power2::{lemma2_to64, lemma_pow2_strictly_increases, lemma_pow2_unfold, pow2};
use vstd::prelude::*;

verus! {

// ---------------------------------------------------------------------------
// NAL units
// ---------------------------------------------------------------------------

/// Whether a start code `00 00 01` stands at `p`. The four-byte form
/// `00 00 00 01` is a zero byte before one of these.
pub open spec fn is_start_code(data: Seq<u8>, p: int) -> bool {
    &&& 0 <= p
    &&& p + 3 <= data.len()
    &&& data[p] == 0
    &&& data[p + 1] == 0
    &&& data[p + 2] == 1
}

/// The type of a NAL unit, from its first byte.
pub open spec fn nal_type(header: u8) -> u8 {
    header & 0x1F
}

/// Whether some start code is followed by the header of an IDR slice.
pub open spec fn contains_idr(data: Seq<u8>) -> bool {
    exists|p: int| #[trigger]
        is_start_code(data, p) && p + 3 < data.len() && nal_type(data[p + 3]) == 5
}

/// The places behind the start codes that begin before `n`, in order.
pub open spec fn nal_starts_below(data: Seq<u8>, n: nat) -> Seq<int>
    decreases n,
{
    if n == 0 {
        Seq::empty()
    } else {
        let below = nal_starts_below(data, (n - 1) as nat);
        if is_start_code(data, n - 1) {
            below.push(n - 1 + 3)
        } else {
            below
        }
    }
}

/// The places where NAL units start: behind every start code, in order.
pub open spec fn nal_starts(data: Seq<u8>) -> Seq<int> {
    nal_starts_below(data, data.len())
}

/// Where the `k`-th NAL unit ends: before the next start code, three or four
/// bytes long, or at the end of the data.
pub open spec fn nal_end(data: Seq<u8>, k: int) -> int {
    let starts = nal_starts(data);
    if k + 1 < starts.len() {
        let next = starts[k + 1];
        if next >= 4 && data[next - 4] == 0 {
            next - 4
        } else {
            next - 3
        }
    } else {
        data.len() as int
    }
}

/// How many start codes have a byte behind them: all but one at the very end.
pub open spec fn nal_count(data: Seq<u8>) -> nat {
    let starts = nal_starts(data);
    if starts.len() > 0 && starts.last() >= data.len() {
        (starts.len() - 1) as nat
    } else {
        starts.len()
    }
}

/// The NAL units of an Annex B stream, each with its type.
pub open spec fn nal_units(data: Seq<u8>) -> Seq<(u8, Seq<u8>)> {
    Seq::new(
        nal_count(data),
        |k: int|
            (
                nal_type(data[nal_starts(data)[k]]),
                data.subrange(nal_starts(data)[k], nal_end(data, k)),
            ),
    )
}

/// Start codes do not overlap, and the list of starts is in order.
proof fn lemma_nal_starts(data: Seq<u8>, n: nat)
    ensures
        forall|k: int|
            0 <= k < nal_starts_below(data, n).len() ==> {
                &&& 3 <= #[trigger] nal_starts_below(data, n)[k] < n + 3
                &&& is_start_code(data, nal_starts_below(data, n)[k] - 3)
            },
        forall|k: int|
            1 <= k < nal_starts_below(data, n).len() ==> nal_starts_below(data, n)[k - 1] + 3
                <= #[trigger] nal_starts_below(data, n)[k],
    decreases n,
{
    if n > 0 {
        lemma_nal_starts(data, (n - 1) as nat);
        let below = nal_starts_below(data, (n - 1) as nat);
        if is_start_code(data, n - 1) && below.len() > 0 {
            let q = below.last() - 3;
            assert(is_start_code(data, q));
            assert(q + 3 <= n - 1) by {
                assert(data[q + 2] == 1);
                assert(data[n - 1] == 0 && data[n as int] == 0);
            }
        }
    }
}

/// Every start code is in the list of starts.
proof fn lemma_nal_starts_complete(data: Seq<u8>, n: nat, p: int)
    requires
        is_start_code(data, p),
        p < n,
    ensures
        nal_starts_below(data, n).contains(p + 3),
    decreases n,
{
    let below = nal_starts_below(data, (n - 1) as nat);
    if p == n - 1 {
        assert(nal_starts_below(data, n).last() == p + 3);
    } else {
        lemma_nal_starts_complete(data, (n - 1) as nat, p);
        let k = choose|k: int| 0 <= k < below.len() && below[k] == p + 3;
        assert(nal_starts_below(data, n)[k] == p + 3);
    }
}

/// Only a start code at the very end has nothing behind it.
proof fn lemma_nal_starts_inside(data: Seq<u8>)
    ensures
        forall|k: int|
            0 <= k < nal_count(data) ==> {
                &&& 3 <= #[trigger] nal_starts(data)[k] < data.len()
                &&& nal_starts(data)[k] <= nal_end(data, k) <= data.len()
            },
        nal_count(data) <= nal_starts(data).len(),
        nal_count(data) < nal_starts(data).len() ==> nal_starts(data).last() == data.len(),
{
    let starts = nal_starts(data);
    lemma_nal_starts(data, data.len());
    assert forall|k: int| 0 <= k < nal_count(data) implies {
        &&& 3 <= #[trigger] starts[k] < data.len()
        &&& starts[k] <= nal_end(data, k) <= data.len()
    } by {
        assert(is_start_code(data, starts[k] - 3));
        if k + 1 < starts.len() {
            assert(starts[k + 1 - 1] + 3 <= starts[k + 1]);
            assert(is_start_code(data, starts[k + 1] - 3));
            if starts[k + 1] == starts[k] + 3 {
                assert(data[starts[k] - 1] == 1);
            }
        }
    }
    if starts.len() > 0 {
        assert(is_start_code(data, starts[starts.len() - 1] - 3));
    }
}

/// Checks whether an Annex B access unit contains an IDR slice: whether the
/// byte behind any start code, `00 00 01` or `00 00 00 01`, has NAL type 5.
pub fn h264_contains_idr(data: &[u8]) -> (r: bool)
    ensures
        r == contains_idr(data@),
{
    let mut i: usize = 0;
    while i < data.len() && data.len() - i > 3
        invariant
            i <= data.len(),
            forall|p: int| #[trigger]
                is_start_code(data@, p) && p + 3 < data@.len() && p < i ==> nal_type(
                    data@[p + 3],
                ) != 5,
        decreases data.len() - i,
    {
        if data[i] == 0 && data[i + 1] == 0 && data[i + 2] == 1 && data[i + 3] & 0x1F == 5 {
            assert(is_start_code(data@, i as int));
            return true;
        }
        i = i + 1;
    }
    false
}

/// Extracts the NAL units of an Annex B byte stream, as pairs of the NAL type
/// and the unit's bytes, header first.
pub fn extract_nals(data: &[u8]) -> (nals: Vec<(u8, Vec<u8>)>)
    ensures
        nals@.len() == nal_units(data@).len(),
        forall|k: int|
            0 <= k < nals@.len() ==> {
                &&& (#[trigger] nals@[k]).0 == nal_units(data@)[k].0
                &&& nals@[k].1@ == nal_units(data@)[k].1
            },
{
    let mut starts: Vec<usize> = Vec::new();
    let mut i: usize = 0;
    while i < data.len() && data.len() - i > 2
        invariant
            i <= data.len(),
            starts@.len() == nal_starts_below(data@, i as nat).len(),
            forall|k: int|
                0 <= k < starts@.len() ==> #[trigger] starts@[k] == nal_starts_below(
                    data@,
                    i as nat,
                )[k],
        decreases data.len() - i,
    {
        if data[i] == 0 && data[i + 1] == 0 && data[i + 2] == 1 {
            starts.push(i + 3);
        }
        i = i + 1;
    }
    proof {
        lemma_nal_starts_short_tail(data@, i as nat);
        lemma_nal_starts_inside(data@);
        lemma_nal_starts(data@, data@.len());
    }
    let mut nals: Vec<(u8, Vec<u8>)> = Vec::new();
    let mut idx: usize = 0;
    while idx < starts.len() && starts[idx] < data.len()
        invariant
            idx <= nal_count(data@) <= starts@.len(),
            starts@.len() == nal_starts(data@).len(),
            forall|k: int| 0 <= k < starts@.len() ==> #[trigger] starts@[k] == nal_starts(data@)[k],
            forall|k: int|
                0 <= k < nal_starts(data@).len() ==> {
                    &&& 3 <= #[trigger] nal_starts(data@)[k] < data@.len() + 3
                    &&& is_start_code(data@, nal_starts(data@)[k] - 3)
                },
            forall|k: int|
                0 <= k < nal_count(data@) ==> {
                    &&& 3 <= #[trigger] nal_starts(data@)[k] < data@.len()
                    &&& nal_starts(data@)[k] <= nal_end(data@, k) <= data@.len()
                },
            nal_count(data@) < starts@.len() ==> nal_starts(data@).last() == data@.len()
                && nal_count(data@) == starts@.len() - 1,
            nals@.len() == idx,
            forall|k: int|
                0 <= k < nals@.len() ==> {
                    &&& (#[trigger] nals@[k]).0 == nal_units(data@)[k].0
                    &&& nals@[k].1@ == nal_units(data@)[k].1
                },
        decreases starts.len() - idx,
    {
        let start: usize = starts[idx];
        let mut end: usize = data.len();
        if idx + 1 < starts.len() {
            let next: usize = starts[idx + 1];
            assert(next == nal_starts(data@)[idx + 1]);
            assert(is_start_code(data@, next - 3));
            if next >= 4 && data[next - 4] == 0 {
                end = next - 4;
            } else {
                end = next - 3;
            }
        }
        assert(end == nal_end(data@, idx as int));
        assert(start == nal_starts(data@)[idx as int]);
        let payload: &[u8] = vstd::slice::slice_subrange(data, start, end);
        nals.push((data[start] & 0x1F, vstd::slice::slice_to_vec(payload)));
        idx = idx + 1;
    }
    nals
}

/// No start code begins in the last two bytes.
proof fn lemma_nal_starts_short_tail(data: Seq<u8>, i: nat)
    requires
        i <= data.len() <= i + 2,
    ensures
        nal_starts_below(data, i) == nal_starts(data),
{
    if data.len() == i + 1 {
        assert(nal_starts_below(data, (i + 1) as nat) == nal_starts_below(data, i));
    }
    if data.len() == i + 2 {
        assert(nal_starts_below(data, (i + 1) as nat) == nal_starts_below(data, i));
        assert(nal_starts_below(data, (i + 2) as nat) == nal_starts_below(data, (i + 1) as nat));
    }
}

/// An access unit contains an IDR slice exactly if one of the NAL units that
/// are extracted from it has type 5.
pub proof fn idr_is_a_nal_of_type_5(data: Seq<u8>)
    ensures
        contains_idr(data) <==> exists|k: int|
            0 <= k < nal_units(data).len() && (#[trigger] nal_units(data)[k]).0 == 5,
{
    lemma_nal_starts_inside(data);
    lemma_nal_starts(data, data.len());
    let starts = nal_starts(data);
    if contains_idr(data) {
        let p = choose|p: int| #[trigger]
            is_start_code(data, p) && p + 3 < data.len() && nal_type(data[p + 3]) == 5;
        lemma_nal_starts_complete(data, data.len(), p);
        let k = choose|k: int| 0 <= k < starts.len() && starts[k] == p + 3;
        assert(k < nal_count(data));
        assert(nal_units(data)[k].0 == 5);
    }
    if exists|k: int| 0 <= k < nal_units(data).len() && (#[trigger] nal_units(data)[k]).0 == 5 {
        let k = choose|k: int|
            0 <= k < nal_units(data).len() && (#[trigger] nal_units(data)[k]).0 == 5;
        assert(is_start_code(data, starts[k] - 3));
    }
}

/// A start code, of four bytes or of three.
pub open spec fn start_code(long: bool) -> Seq<u8> {
    if long {
        seq![0u8, 0u8, 0u8, 1u8]
    } else {
        seq![0u8, 0u8, 1u8]
    }
}

/// The Annex B stream of some NAL units, each behind a start code: a long one where it
/// says so.
pub open spec fn annex_b(nals: Seq<(bool, Seq<u8>)>) -> Seq<u8>
    decreases nals.len(),
{
    if nals.len() == 0 {
        Seq::empty()
    } else {
        annex_b(nals.drop_last()) + start_code(nals.last().0) + nals.last().1
    }
}

/// Whether NAL units can be told apart in a stream: none is empty or holds a start code
/// of its own, and none ends in a zero that would lengthen the start code behind it.
pub open spec fn are_separable(nals: Seq<(bool, Seq<u8>)>) -> bool {
    &&& forall|k: int| 0 <= k < nals.len() ==> (#[trigger] nals[k]).1.len() > 0
    &&& forall|k: int, p: int|
        0 <= k < nals.len() ==> !#[trigger] is_start_code(nals[k].1, p)
    &&& forall|k: int|
        0 < k < nals.len() && !(#[trigger] nals[k]).0 ==> nals[k - 1].1.last() != 0
}

/// A stream gives back the NAL units it was made of, byte for byte, whichever start
/// codes stand before them.
pub proof fn annex_b_gives_back_nals(nals: Seq<(bool, Seq<u8>)>)
    requires
        are_separable(nals),
    ensures
        nal_units(annex_b(nals)).len() == nals.len(),
        forall|k: int|
            0 <= k < nals.len() ==> #[trigger] nal_units(annex_b(nals))[k] == (
                nal_type(nals[k].1[0]),
                nals[k].1,
            ),
{
    lemma_annex_b(nals);
}

/// The induction behind `annex_b_gives_back_nals`: every start code has a NAL
/// unit behind it.
proof fn lemma_annex_b(nals: Seq<(bool, Seq<u8>)>)
    requires
        are_separable(nals),
    ensures
        nal_starts(annex_b(nals)).len() == nals.len(),
        nal_count(annex_b(nals)) == nals.len(),
        forall|k: int|
            0 <= k < nals.len() ==> #[trigger] nal_units(annex_b(nals))[k] == (
                nal_type(nals[k].1[0]),
                nals[k].1,
            ),
    decreases nals.len(),
{
    let data = annex_b(nals);
    if nals.len() == 0 {
        assert(nal_starts(data) =~= Seq::empty());
    } else {
        let init = nals.drop_last();
        let front = annex_b(init);
        let long = nals.last().0;
        let last = nals.last().1;
        let m = front.len() as int;
        let c = start_code(long).len() as int;
        assert(nals.last() == nals[nals.len() - 1]);
        assert forall|k: int, p: int| 0 <= k < init.len() implies !#[trigger] is_start_code(
            init[k].1,
            p,
        ) by {
            assert(!is_start_code(nals[k].1, p));
        }
        assert forall|k: int| 0 < k < init.len() && !(#[trigger] init[k]).0 implies init[k
            - 1].1.last() != 0 by {
            assert(nals[k] == init[k]);
        }
        lemma_annex_b(init);
        assert forall|p: int| !#[trigger] is_start_code(last, p) by {
            assert(!is_start_code(nals[nals.len() - 1].1, p));
        }
        lemma_annex_b_starts(front, long, last);
        assert(data == front + start_code(long) + last);
        lemma_nal_starts_inside(front);
        let starts = nal_starts(data);
        assert forall|k: int| 0 <= k < nals.len() implies #[trigger] nal_units(data)[k] == (
            nal_type(nals[k].1[0]),
            nals[k].1,
        ) by {
            if k < init.len() {
                assert(nal_units(front)[k] == (nal_type(init[k].1[0]), init[k].1));
                assert(starts[k] == nal_starts(front)[k]);
                assert(nal_end(data, k) == nal_end(front, k)) by {
                    if k + 1 < init.len() {
                        let next = starts[k + 1];
                        assert(next == nal_starts(front)[k + 1]);
                        assert(3 <= next < m);
                    } else {
                        assert(starts[k + 1] == m + c);
                        if long {
                            assert(data[m] == 0);
                        } else {
                            assert(init.last() == nals[nals.len() - 2]);
                            assert(!nals[nals.len() - 1].0);
                            assert(front.last() == init.last().1.last());
                            assert(data[m - 1] == front.last());
                        }
                    }
                }
                assert(data.subrange(starts[k], nal_end(data, k)) =~= front.subrange(
                    starts[k],
                    nal_end(front, k),
                ));
            } else {
                assert(data.subrange(m + c, data.len() as int) =~= last);
            }
        }
    }
}

/// A NAL unit behind a start code adds one start to a stream.
proof fn lemma_annex_b_starts(front: Seq<u8>, long: bool, last: Seq<u8>)
    requires
        forall|p: int| !#[trigger] is_start_code(last, p),
    ensures
        nal_starts(front + start_code(long) + last) == nal_starts(front).push(
            front.len() as int + start_code(long).len(),
        ),
{
    let data = front + start_code(long) + last;
    let m = front.len() as int;
    let c = start_code(long).len() as int;
    assert(front =~= data.subrange(0, m));
    assert(data[m] == 0 && data[m + 1] == 0 && data[m + c - 2] == 0 && data[m + c - 1] == 1);
    lemma_starts_of_prefix(front, data, m as nat);
    assert forall|p: int| m <= p implies (#[trigger] is_start_code(data, p) <==> p == m + c - 3)
    by {
        if p >= m + c && is_start_code(data, p) {
            assert(data[p] == last[p - m - c]);
            assert(data[p + 1] == last[p + 1 - m - c]);
            assert(data[p + 2] == last[p + 2 - m - c]);
            assert(is_start_code(last, p - m - c));
        }
    }
    lemma_single_start(data, m as nat, (m + c - 3) as nat, data.len());
}

/// The starts below `n` depend on the bytes before `n` only, where no start
/// code straddles `n`.
proof fn lemma_starts_of_prefix(front: Seq<u8>, data: Seq<u8>, n: nat)
    requires
        n <= front.len() <= data.len(),
        front == data.subrange(0, front.len() as int),
        front.len() < data.len() ==> data[front.len() as int] == 0,
        front.len() + 1 < data.len() ==> data[front.len() as int + 1] == 0,
    ensures
        nal_starts_below(data, n) == nal_starts_below(front, n),
    decreases n,
{
    if n > 0 {
        lemma_starts_of_prefix(front, data, (n - 1) as nat);
        let p = n - 1;
        assert(is_start_code(data, p) == is_start_code(front, p)) by {
            assert(forall|i: int| 0 <= i < front.len() ==> front[i] == data[i]);
        }
    }
}

/// With one start code from `m` on, at `p`, one start is added.
proof fn lemma_single_start(data: Seq<u8>, m: nat, p: nat, n: nat)
    requires
        m <= p,
        m <= n,
        forall|q: int| m <= q ==> (#[trigger] is_start_code(data, q) <==> q == p),
    ensures
        nal_starts_below(data, n) == if n > p {
            nal_starts_below(data, m).push(p as int + 3)
        } else {
            nal_starts_below(data, m)
        },
    decreases n,
{
    if n > m {
        lemma_single_start(data, m, p, (n - 1) as nat);
    }
}

// ---------------------------------------------------------------------------
// Bits and Exp-Golomb codes
// ---------------------------------------------------------------------------

/// The number of bits in `data`.
pub open spec fn bit_len(data: Seq<u8>) -> int {
    8 * data.len() as int
}

/// Bit `p` of `data`, most significant bit of each byte first.
pub open spec fn bit(data: Seq<u8>, p: int) -> u8 {
    (data[p / 8] >> ((7 - p % 8) as u8)) & 1
}

/// The number that bits `p .. p + n` of `data` spell, most significant first.
pub open spec fn bits_value(data: Seq<u8>, p: int, n: nat) -> nat
    decreases n,
{
    if n == 0 {
        0
    } else {
        2 * bits_value(data, p, (n - 1) as nat) + bit(data, p + n - 1) as nat
    }
}

/// How many zero bits stand at `p` before the next one bit or the end of `data`.
pub open spec fn zeros_at(data: Seq<u8>, p: int) -> nat
    decreases bit_len(data) - p,
{
    if 0 <= p < bit_len(data) && bit(data, p) == 0 {
        1 + zeros_at(data, p + 1)
    } else {
        0
    }
}

/// The unsigned Exp-Golomb code at bit `p`: its value and the bit after it.
/// There is none where the code has more than 31 leading zeros or runs past
/// the end of `data`.
pub open spec fn ue_at(data: Seq<u8>, p: int) -> Option<(nat, int)> {
    let z = zeros_at(data, p);
    if z <= 31 && p + 2 * z + 1 <= bit_len(data) {
        Some(((pow2(z) - 1 + bits_value(data, p + z + 1, z)) as nat, p + 2 * z + 1))
    } else {
        None
    }
}

/// Where a reader stands after it has tried to read an Exp-Golomb code at `p`.
pub open spec fn pos_after_ue(data: Seq<u8>, p: int) -> int {
    match ue_at(data, p) {
        Some((_, q)) => q,
        None => if zeros_at(data, p) > 31 {
            p + 32
        } else {
            bit_len(data)
        },
    }
}

/// The signed number that the Exp-Golomb code number `v` stands for:
/// 0, 1, -1, 2, -2, ...
pub open spec fn se_value(v: nat) -> int {
    if v % 2 == 1 {
        (v / 2 + 1) as int
    } else {
        -(v / 2)
    }
}

/// A reader over the bits of a byte slice, with Exp-Golomb decoding.
pub struct BitReader<'a> {
    data: &'a [u8],
    byte_offset: usize,
    bit_offset: u8,
}

impl<'a> BitReader<'a> {
    #[verifier::type_invariant]
    spec fn wf(self) -> bool {
        &&& self.bit_offset < 8
        &&& self.byte_offset <= self.data@.len()
        &&& self.byte_offset == self.data@.len() ==> self.bit_offset == 0
    }

    /// The bytes that the reader reads from.
    pub closed spec fn bytes(self) -> Seq<u8> {
        self.data@
    }

    /// The index of the next bit to read.
    pub closed spec fn pos(self) -> int {
        8 * self.byte_offset + self.bit_offset
    }

    /// A reader that stands before the first bit of `data`.
    pub fn new(data: &'a [u8]) -> (r: Self)
        ensures
            r.bytes() == data@,
            r.pos() == 0,
    {
        BitReader { data, byte_offset: 0, bit_offset: 0 }
    }

    /// Reads one bit; `None` at the end of the data.
    pub fn read_bit(&mut self) -> (r: Option<u8>)
        ensures
            final(self).bytes() == old(self).bytes(),
            0 <= old(self).pos() <= bit_len(old(self).bytes()),
            old(self).pos() < bit_len(old(self).bytes()) ==> {
                &&& r == Some(bit(old(self).bytes(), old(self).pos()))
                &&& final(self).pos() == old(self).pos() + 1
            },
            old(self).pos() >= bit_len(old(self).bytes()) ==> {
                &&& r is None
                &&& final(self).pos() == old(self).pos()
            },
            r matches Some(b) ==> b <= 1,
    {
        proof {
            use_type_invariant(&*self);
        }
        if self.byte_offset >= self.data.len() {
            return None;
        }
        let byte: u8 = self.data[self.byte_offset];
        let shift: u8 = 7 - self.bit_offset;
        let b: u8 = (byte >> shift) & 1;
        assert((byte >> shift) & 1 <= 1) by (bit_vector);
        if self.bit_offset == 7 {
            self.bit_offset = 0;
            self.byte_offset = self.byte_offset + 1;
        } else {
            self.bit_offset = self.bit_offset + 1;
        }
        Some(b)
    }

    /// Reads `n` bits as a number, most significant first; `None` where fewer
    /// than `n` are left. Of more than 32 bits the last 32 make the number.
    pub fn read_bits(&mut self, n: u8) -> (r: Option<u32>)
        ensures
            final(self).bytes() == old(self).bytes(),
            0 <= old(self).pos() <= bit_len(old(self).bytes()),
            old(self).pos() + n <= bit_len(old(self).bytes()) ==> {
                &&& r == Some(
                    (bits_value(old(self).bytes(), old(self).pos(), n as nat) % 0x1_0000_0000) as u32,
                )
                &&& final(self).pos() == old(self).pos() + n
            },
            old(self).pos() + n > bit_len(old(self).bytes()) ==> {
                &&& r is None
                &&& final(self).pos() == bit_len(old(self).bytes())
            },
    {
        let ghost data = self.bytes();
        let ghost p = self.pos();
        proof {
            use_type_invariant(&*self);
        }
        let mut val: u32 = 0;
        let mut i: u8 = 0;
        while i < n
            invariant
                i <= n,
                self.bytes() == data,
                self.pos() == p + i,
                p + i <= bit_len(data),
                old(self).bytes() == data,
                old(self).pos() == p,
                0 <= p,
                val == bits_value(data, p, i as nat) % 0x1_0000_0000,
            decreases n - i,
        {
            let b: u8 = match self.read_bit() {
                Some(b) => b,
                None => {
                    return None;
                },
            };
            let ghost v0 = bits_value(data, p, i as nat);
            let next: u32 = (val << 1) | (b as u32);
            assert(next == (2 * val + b) % 0x1_0000_0000) by (bit_vector)
                requires
                    next == (val << 1) | (b as u32),
                    b <= 1,
            ;
            proof {
                lemma_append_bit(v0, b);
            }
            val = next;
            i = i + 1;
        }
        Some(val)
    }

    /// Reads an unsigned Exp-Golomb code; `None` where there is none.
    pub fn read_ue(&mut self) -> (r: Option<u32>)
        ensures
            final(self).bytes() == old(self).bytes(),
            0 <= old(self).pos() <= bit_len(old(self).bytes()),
            match ue_at(old(self).bytes(), old(self).pos()) {
                Some((v, _)) => r is Some && r->0 == v,
                None => r is None,
            },
            final(self).pos() == pos_after_ue(old(self).bytes(), old(self).pos()),
    {
        let ghost data = self.bytes();
        let ghost p = self.pos();
        proof {
            use_type_invariant(&*self);
        }
        let mut leading_zeros: u32 = 0;
        let mut found: bool = false;
        while !found
            invariant
                self.bytes() == data,
                old(self).bytes() == data,
                old(self).pos() == p,
                0 <= p <= bit_len(data),
                leading_zeros <= 31,
                p + leading_zeros <= bit_len(data),
                !found ==> self.pos() == p + leading_zeros,
                !found ==> zeros_at(data, p) == leading_zeros + zeros_at(data, p + leading_zeros),
                found ==> self.pos() == p + leading_zeros + 1,
                found ==> zeros_at(data, p) == leading_zeros,
                found ==> p + leading_zeros + 1 <= bit_len(data),
            decreases (if found { 0int } else { 1 + bit_len(data) - p - leading_zeros }),
        {
            match self.read_bit() {
                Some(b) => {
                    if b == 1 {
                        found = true;
                    } else {
                        leading_zeros = leading_zeros + 1;
                        if leading_zeros > 31 {
                            return None;
                        }
                    }
                },
                None => {
                    return None;
                },
            }
        }
        if leading_zeros == 0 {
            proof {
                lemma2_to64();
            }
            return Some(0);
        }
        match self.read_bits(leading_zeros as u8) {
            Some(suffix) => {
                proof {
                    let z = leading_zeros as nat;
                    lemma_bits_value_bound(data, p + z + 1, z);
                    lemma_pow2_at_most_31(z);
                    vstd::bits::lemma_u32_shl_is_mul(1, leading_zeros);
                }
                let base: u32 = 1u32 << leading_zeros;
                Some(base - 1 + suffix)
            },
            None => None,
        }
    }

    /// Reads a signed Exp-Golomb code; `None` where there is none.
    pub fn read_se(&mut self) -> (r: Option<i32>)
        ensures
            final(self).bytes() == old(self).bytes(),
            0 <= old(self).pos() <= bit_len(old(self).bytes()),
            match ue_at(old(self).bytes(), old(self).pos()) {
                Some((v, _)) => r is Some && r->0 == se_value(v),
                None => r is None,
            },
            final(self).pos() == pos_after_ue(old(self).bytes(), old(self).pos()),
    {
        match self.read_ue() {
            Some(val) => {
                proof {
                    lemma_ue_bound(old(self).bytes(), old(self).pos());
                }
                if val % 2 == 1 {
                    Some((val / 2 + 1) as i32)
                } else {
                    Some(-((val / 2) as i32))
                }
            },
            None => None,
        }
    }
}

/// Appending a bit commutes with cutting off all but the last 32 bits.
proof fn lemma_append_bit(v: nat, b: u8)
    ensures
        (2 * (v % 0x1_0000_0000) + b) % 0x1_0000_0000 == (2 * v + b) % 0x1_0000_0000,
{
}

/// A number of `n` bits is below `2^n`.
proof fn lemma_bits_value_bound(data: Seq<u8>, p: int, n: nat)
    ensures
        bits_value(data, p, n) < pow2(n),
    decreases n,
{
    lemma2_to64();
    if n > 0 {
        lemma_bits_value_bound(data, p, (n - 1) as nat);
        lemma_pow2_unfold(n);
        let byte = data[(p + n - 1) / 8];
        let shift = (7 - (p + n - 1) % 8) as u8;
        assert((byte >> shift) & 1 <= 1) by (bit_vector);
    }
}

/// Powers of two up to the thirty-first fit in half of a 32-bit word.
proof fn lemma_pow2_at_most_31(z: nat)
    requires
        z <= 31,
    ensures
        1 <= pow2(z) <= 0x8000_0000,
{
    lemma2_to64();
    if z < 31 {
        lemma_pow2_strictly_increases(z, 31);
    }
    if z > 0 {
        lemma_pow2_strictly_increases(0, z);
    }
}

/// An Exp-Golomb code of at most 31 leading zeros is at most `2^32 - 2`.
proof fn lemma_ue_bound(data: Seq<u8>, p: int)
    ensures
        ue_at(data, p) matches Some((v, _)) ==> v <= 0xFFFF_FFFE,
{
    let z = zeros_at(data, p);
    if z <= 31 {
        lemma_bits_value_bound(data, p + z + 1, z);
        lemma_pow2_at_most_31(z);
    }
}

/// Whether the Exp-Golomb code of `v` stands at bit `p`: the `z + 1` bits of
/// `v + 1` behind `z` zero bits.
pub open spec fn is_ue_code(data: Seq<u8>, p: int, v: nat, z: nat) -> bool {
    &&& 0 <= p
    &&& p + 2 * z + 1 <= bit_len(data)
    &&& pow2(z) <= v + 1 < pow2(z + 1)
    &&& forall|i: int| p <= i < p + z ==> #[trigger] bit(data, i) == 0
    &&& bits_value(data, p + z, z + 1) == v + 1
}

/// The code number of a signed value, the inverse of `se_value`.
pub open spec fn se_code(x: int) -> nat {
    if x > 0 {
        (2 * x - 1) as nat
    } else {
        (-2 * x) as nat
    }
}

/// Reading an Exp-Golomb code gives back the number that was written, whatever
/// stands before and behind it.
pub proof fn ue_code_reads_back(data: Seq<u8>, p: int, v: nat, z: nat)
    requires
        is_ue_code(data, p, v, z),
        v <= 0xFFFF_FFFE,
    ensures
        ue_at(data, p) == Some((v, p + 2 * z + 1)),
{
    assert(z <= 31) by {
        lemma2_to64();
        if z > 31 {
            if z > 32 {
                lemma_pow2_strictly_increases(32, z);
            }
        }
    }
    lemma_bits_value_first(data, p + z, z);
    lemma_bits_value_bound(data, p + z + 1, z);
    assert(bit(data, p + z) == 1) by {
        let byte = data[(p + z) / 8];
        let shift = (7 - (p + z) % 8) as u8;
        assert((byte >> shift) & 1 <= 1) by (bit_vector);
        assert(0 * pow2(z) == 0);
        if bit(data, p + z) == 0 {
            assert(bits_value(data, p + z, z + 1) == bits_value(data, p + z + 1, z));
        }
    }
    assert(1 * pow2(z) == pow2(z));
    lemma_zeros_at(data, p, z);
}

/// Signed Exp-Golomb codes and the values they stand for match one to one.
pub proof fn se_code_inverts_se_value(x: int, v: nat)
    ensures
        se_value(se_code(x)) == x,
        se_code(se_value(v)) == v,
{
}

/// The first bit of a number is the one that weighs most.
proof fn lemma_bits_value_first(data: Seq<u8>, p: int, n: nat)
    ensures
        bits_value(data, p, n + 1) == bit(data, p) * pow2(n) + bits_value(data, p + 1, n),
    decreases n,
{
    lemma2_to64();
    if n == 0 {
        assert(bits_value(data, p, 1) == 2 * bits_value(data, p, 0) + bit(data, p));
        assert(bit(data, p) * 1 == bit(data, p));
    } else {
        lemma_bits_value_first(data, p, (n - 1) as nat);
        lemma_pow2_unfold(n);
        let b = bit(data, p) as int;
        let half = pow2((n - 1) as nat) as int;
        assert(b * (2 * half) == 2 * (b * half)) by (nonlinear_arith);
        assert(p + n == p + 1 + n - 1);
    }
}

/// `z` zero bits before a one bit are counted as `z`.
proof fn lemma_zeros_at(data: Seq<u8>, p: int, z: nat)
    requires
        0 <= p,
        p + z < bit_len(data),
        forall|i: int| p <= i < p + z ==> #[trigger] bit(data, i) == 0,
        bit(data, p + z) == 1,
    ensures
        zeros_at(data, p) == z,
    decreases z,
{
    if z > 0 {
        assert(bit(data, p) == 0);
        lemma_zeros_at(data, p + 1, (z - 1) as nat);
    }
}

// ---------------------------------------------------------------------------
// Sequence parameter sets
// ---------------------------------------------------------------------------

/// Minimal SPS (Sequence Parameter Set) info for browser compatibility checks.
#[derive(Debug, Clone, Copy, PartialEq, Eq, Structural)]
pub struct SpsInfo {
    pub profile_idc: u8,
    pub constraint_set0_flag: bool,
    pub constraint_set1_flag: bool,
    pub level_idc: u8,
    pub vui_parameters_present: bool,
    pub colour_description_present: bool,
}

/// The bit after the Exp-Golomb code at `p`, signed or unsigned.
pub open spec fn skip_code(data: Seq<u8>, p: Option<int>) -> Option<int> {
    match p {
        Some(q) => match ue_at(data, q) {
            Some((_, next)) => Some(next),
            None => None,
        },
        None => None,
    }
}

/// The bit after `n` Exp-Golomb codes from `p` on.
pub open spec fn skip_codes(data: Seq<u8>, p: Option<int>, n: nat) -> Option<int>
    decreases n,
{
    if n == 0 {
        p
    } else {
        skip_code(data, skip_codes(data, p, (n - 1) as nat))
    }
}

/// The bit after a field of `n` bits at `p`.
pub open spec fn skip_bits(data: Seq<u8>, p: Option<int>, n: nat) -> Option<int> {
    match p {
        Some(q) => if q + n <= bit_len(data) {
            Some(q + n)
        } else {
            None
        },
        None => None,
    }
}

/// The value of the Exp-Golomb code at `p`, where there is one.
pub open spec fn code_value(data: Seq<u8>, p: Option<int>) -> nat {
    match ue_at(data, p->0) {
        Some((v, _)) => v,
        None => 0,
    }
}

/// Whether the flag at `p` is set.
pub open spec fn flag_set(data: Seq<u8>, p: Option<int>) -> bool {
    bit(data, p->0) == 1
}

/// The bit after entries `from .. size` of a scaling list, given the last
/// non-zero scale and the scale before entry `from`. Once a scale is zero no
/// further deltas are coded.
pub open spec fn skip_scaling_entries(
    data: Seq<u8>,
    p: Option<int>,
    last_scale: int,
    next_scale: int,
    left: nat,
) -> Option<int>
    decreases left,
{
    if left == 0 || next_scale == 0 {
        p
    } else {
        let next = (last_scale + se_value(code_value(data, p))) % 256;
        skip_scaling_entries(
            data,
            skip_code(data, p),
            if next == 0 {
                last_scale
            } else {
                next
            },
            next,
            (left - 1) as nat,
        )
    }
}

/// How many entries the `index`-th scaling list has: the first six are 4x4
/// lists, the others 8x8.
pub open spec fn scaling_list_size(index: int) -> nat {
    if index < 6 {
        16
    } else {
        64
    }
}

/// The bit after the first `n` scaling lists, each behind its present flag.
pub open spec fn skip_scaling_lists(data: Seq<u8>, p: Option<int>, n: nat) -> Option<int>
    decreases n,
{
    if n == 0 {
        p
    } else {
        let q = skip_scaling_lists(data, p, (n - 1) as nat);
        let body = skip_bits(data, q, 1);
        if body is Some && flag_set(data, q) {
            skip_scaling_entries(data, body, 8, 8, scaling_list_size(n - 1))
        } else {
            body
        }
    }
}

/// Whether SPSs of this profile carry the chroma and scaling fields.
pub open spec fn is_high_profile(profile_idc: u8) -> bool {
    profile_idc == 100 || profile_idc == 110 || profile_idc == 122 || profile_idc == 244
        || profile_idc == 44 || profile_idc == 83 || profile_idc == 86 || profile_idc == 118
        || profile_idc == 128 || profile_idc == 138 || profile_idc == 139 || profile_idc == 134
}

/// The bit after the fields that only high profiles have: chroma_format_idc,
/// separate_colour_plane_flag for 4:4:4, the two bit depths,
/// qpprime_y_zero_transform_bypass_flag and the scaling matrix.
pub open spec fn skip_high_profile_fields(data: Seq<u8>, p: Option<int>) -> Option<int> {
    let chroma_444 = code_value(data, p) == 3;
    let p1 = skip_code(data, p);
    let p2 = if chroma_444 {
        skip_bits(data, p1, 1)
    } else {
        p1
    };
    let p3 = skip_bits(data, skip_codes(data, p2, 2), 1);
    let p4 = skip_bits(data, p3, 1);
    if p4 is Some && flag_set(data, p3) {
        skip_scaling_lists(
            data,
            p4,
            if chroma_444 {
                12
            } else {
                8
            },
        )
    } else {
        p4
    }
}

/// The bit after pic_order_cnt_type and the fields that depend on it.
pub open spec fn skip_pic_order_cnt(data: Seq<u8>, p: Option<int>) -> Option<int> {
    let poc_type = code_value(data, p);
    let p1 = skip_code(data, p);
    if poc_type == 0 {
        skip_code(data, p1)
    } else if poc_type == 1 {
        let p2 = skip_codes(data, skip_bits(data, p1, 1), 2);
        skip_codes(data, skip_code(data, p2), code_value(data, p2))
    } else {
        p1
    }
}

/// The bit after the frame size fields, from max_num_ref_frames up to and with
/// the frame cropping offsets.
pub open spec fn skip_frame_fields(data: Seq<u8>, p: Option<int>) -> Option<int> {
    let p1 = skip_codes(data, skip_bits(data, skip_code(data, p), 1), 2);
    let p2 = skip_bits(data, p1, 1);
    let p3 = if flag_set(data, p1) {
        p2
    } else {
        skip_bits(data, p2, 1)
    };
    let p4 = skip_bits(data, p3, 1);
    let p5 = skip_bits(data, p4, 1);
    if p5 is Some && flag_set(data, p4) {
        skip_codes(data, p5, 4)
    } else {
        p5
    }
}

/// The place of vui_parameters_present_flag in the bits after level_idc.
pub open spec fn vui_flag_pos(data: Seq<u8>, profile_idc: u8) -> Option<int> {
    let p1 = skip_code(data, Some(0));
    let p2 = if is_high_profile(profile_idc) {
        skip_high_profile_fields(data, p1)
    } else {
        p1
    };
    skip_frame_fields(data, skip_pic_order_cnt(data, skip_code(data, p2)))
}

/// The place of video_signal_type_present_flag in a VUI that starts at `p`,
/// after the aspect ratio and overscan fields.
pub open spec fn signal_type_flag_pos(data: Seq<u8>, p: Option<int>) -> Option<int> {
    let p1 = skip_bits(data, p, 1);
    let p2 = if p1 is Some && flag_set(data, p) {
        let p3 = skip_bits(data, p1, 8);
        if p3 is Some && bits_value(data, p1->0, 8) == 255 {
            skip_bits(data, p3, 32)
        } else {
            p3
        }
    } else {
        p1
    };
    let p4 = skip_bits(data, p2, 1);
    if p4 is Some && flag_set(data, p2) {
        skip_bits(data, p4, 1)
    } else {
        p4
    }
}

/// Whether the VUI at `p` describes colours; `None` where it is cut off before
/// that is said.
pub open spec fn vui_colour_description(data: Seq<u8>, p: Option<int>) -> Option<bool> {
    let p1 = signal_type_flag_pos(data, p);
    let p2 = skip_bits(data, p1, 1);
    if p2 is None {
        None
    } else if flag_set(data, p1) {
        let p3 = skip_bits(data, p2, 4);
        if skip_bits(data, p3, 1) is None {
            None
        } else {
            Some(flag_set(data, p3))
        }
    } else {
        Some(false)
    }
}

/// What an SPS NAL unit, header byte first, says; `None` where it is not an SPS
/// or is cut off before the last field that is wanted.
pub open spec fn sps_info(nal: Seq<u8>) -> Option<SpsInfo> {
    if nal.len() < 4 || nal[0] & 0x1F != 7 {
        None
    } else {
        let data = nal.subrange(4, nal.len() as int);
        let p = vui_flag_pos(data, nal[1]);
        let vui = skip_bits(data, p, 1);
        let colour = if vui is Some && flag_set(data, p) {
            vui_colour_description(data, vui)
        } else {
            Some(false)
        };
        if vui is None || colour is None {
            None
        } else {
            Some(
                SpsInfo {
                    profile_idc: nal[1],
                    constraint_set0_flag: nal[2] & 0x80 != 0,
                    constraint_set1_flag: nal[2] & 0x40 != 0,
                    level_idc: nal[3],
                    vui_parameters_present: flag_set(data, p),
                    colour_description_present: colour->0,
                },
            )
        }
    }
}

/// What stands behind an SPS makes no difference to what it says.
pub proof fn bytes_behind_an_sps_do_not_matter(nal: Seq<u8>, rest: Seq<u8>)
    requires
        sps_info(nal) is Some,
    ensures
        sps_info(nal + rest) == sps_info(nal),
{
    let whole = nal + rest;
    let data = nal.subrange(4, nal.len() as int);
    let long = whole.subrange(4, whole.len() as int);
    assert(long =~= data + rest);
    lemma_vui_flag_pos_extends(data, rest, nal[1]);
    let p = vui_flag_pos(data, nal[1]);
    lemma_flag_extends(data, rest, p);
    let vui = skip_bits(data, p, 1);
    if flag_set(data, p) {
        lemma_vui_extends(data, rest, vui);
    }
}

/// The bits of a stream do not depend on what stands behind it.
proof fn lemma_bit_extends(data: Seq<u8>, rest: Seq<u8>, p: int)
    requires
        0 <= p < bit_len(data),
    ensures
        bit(data + rest, p) == bit(data, p),
{
    assert((data + rest)[p / 8] == data[p / 8]);
}

proof fn lemma_flag_extends(data: Seq<u8>, rest: Seq<u8>, p: Option<int>)
    ensures
        skip_bits(data, p, 1) is Some && p->0 >= 0 ==> flag_set(data + rest, p) == flag_set(
            data,
            p,
        ),
{
    if skip_bits(data, p, 1) is Some && p->0 >= 0 {
        lemma_bit_extends(data, rest, p->0);
    }
}

proof fn lemma_bits_extend(data: Seq<u8>, rest: Seq<u8>, p: int, n: nat)
    requires
        0 <= p,
        p + n <= bit_len(data),
    ensures
        bits_value(data + rest, p, n) == bits_value(data, p, n),
    decreases n,
{
    if n > 0 {
        lemma_bits_extend(data, rest, p, (n - 1) as nat);
        lemma_bit_extends(data, rest, p + n - 1);
    }
}

proof fn lemma_zeros_extend(data: Seq<u8>, rest: Seq<u8>, p: int)
    requires
        0 <= p,
        p + zeros_at(data, p) < bit_len(data),
    ensures
        zeros_at(data + rest, p) == zeros_at(data, p),
    decreases bit_len(data) - p,
{
    if p < bit_len(data) {
        lemma_bit_extends(data, rest, p);
        if bit(data, p) == 0 {
            lemma_zeros_extend(data, rest, p + 1);
        }
    }
}

proof fn lemma_code_extends(data: Seq<u8>, rest: Seq<u8>, p: Option<int>)
    requires
        p matches Some(q) ==> q >= 0,
    ensures
        skip_code(data, p) is Some ==> {
            &&& skip_code(data + rest, p) == skip_code(data, p)
            &&& code_value(data + rest, p) == code_value(data, p)
            &&& skip_code(data, p)->0 >= 0
        },
{
    if skip_code(data, p) is Some {
        let q = p->0;
        let z = zeros_at(data, q);
        lemma_zeros_extend(data, rest, q);
        lemma_bits_extend(data, rest, q + z + 1, z);
    }
}

proof fn lemma_codes_extend(data: Seq<u8>, rest: Seq<u8>, p: Option<int>, n: nat)
    requires
        p matches Some(q) ==> q >= 0,
    ensures
        skip_codes(data, p, n) is Some ==> {
            &&& skip_codes(data + rest, p, n) == skip_codes(data, p, n)
            &&& skip_codes(data, p, n)->0 >= 0
            &&& p is Some
        },
    decreases n,
{
    if n > 0 {
        lemma_codes_extend(data, rest, p, (n - 1) as nat);
        let before = skip_codes(data, p, (n - 1) as nat);
        if before is Some {
            lemma_code_extends(data, rest, before);
        }
    }
}

proof fn lemma_entries_extend(
    data: Seq<u8>,
    rest: Seq<u8>,
    p: Option<int>,
    last_scale: int,
    next_scale: int,
    left: nat,
)
    requires
        p matches Some(q) ==> q >= 0,
    ensures
        skip_scaling_entries(data, p, last_scale, next_scale, left) is Some ==> {
            let end = skip_scaling_entries(data, p, last_scale, next_scale, left);
            &&& skip_scaling_entries(data + rest, p, last_scale, next_scale, left) == end
            &&& end->0 >= 0
        },
    decreases left,
{
    if left > 0 && next_scale != 0 {
        let next = (last_scale + se_value(code_value(data, p))) % 256;
        let last = if next == 0 {
            last_scale
        } else {
            next
        };
        let after = skip_code(data, p);
        if after is Some {
            lemma_code_extends(data, rest, p);
            lemma_entries_extend(data, rest, after, last, next, (left - 1) as nat);
        } else {
            lemma_skip_entries_none(data, last, next, (left - 1) as nat);
        }
    }
}

proof fn lemma_lists_extend(data: Seq<u8>, rest: Seq<u8>, p: Option<int>, n: nat)
    requires
        p matches Some(q) ==> q >= 0,
    ensures
        skip_scaling_lists(data, p, n) is Some ==> {
            &&& skip_scaling_lists(data + rest, p, n) == skip_scaling_lists(data, p, n)
            &&& skip_scaling_lists(data, p, n)->0 >= 0
        },
    decreases n,
{
    if n > 0 {
        lemma_lists_extend(data, rest, p, (n - 1) as nat);
        let q = skip_scaling_lists(data, p, (n - 1) as nat);
        let body = skip_bits(data, q, 1);
        if body is Some {
            lemma_flag_extends(data, rest, q);
            if flag_set(data, q) {
                lemma_entries_extend(data, rest, body, 8, 8, scaling_list_size(n - 1));
            }
        }
    }
}

proof fn lemma_high_profile_extends(data: Seq<u8>, rest: Seq<u8>, p: Option<int>)
    requires
        p matches Some(q) ==> q >= 0,
    ensures
        skip_high_profile_fields(data, p) is Some ==> {
            &&& skip_high_profile_fields(data + rest, p) == skip_high_profile_fields(data, p)
            &&& skip_high_profile_fields(data, p)->0 >= 0
        },
{
    lemma_skip_none(data);
    if skip_high_profile_fields(data, p) is Some {
        let chroma_444 = code_value(data, p) == 3;
        let p1 = skip_code(data, p);
        let p2 = if chroma_444 {
            skip_bits(data, p1, 1)
        } else {
            p1
        };
        let codes = skip_codes(data, p2, 2);
        let p3 = skip_bits(data, codes, 1);
        let p4 = skip_bits(data, p3, 1);
        assert(p4 is Some && p3 is Some && codes is Some && p2 is Some && p1 is Some);
        lemma_code_extends(data, rest, p);
        lemma_codes_extend(data, rest, p2, 2);
        lemma_flag_extends(data, rest, p3);
        if flag_set(data, p3) {
            lemma_lists_extend(
                data,
                rest,
                p4,
                if chroma_444 {
                    12
                } else {
                    8
                },
            );
        }
    }
}

proof fn lemma_pic_order_cnt_extends(data: Seq<u8>, rest: Seq<u8>, p: Option<int>)
    requires
        p matches Some(q) ==> q >= 0,
    ensures
        skip_pic_order_cnt(data, p) is Some ==> {
            &&& skip_pic_order_cnt(data + rest, p) == skip_pic_order_cnt(data, p)
            &&& skip_pic_order_cnt(data, p)->0 >= 0
        },
{
    lemma_skip_none(data);
    if skip_pic_order_cnt(data, p) is Some {
        let poc_type = code_value(data, p);
        let p1 = skip_code(data, p);
        assert(p1 is Some);
        lemma_code_extends(data, rest, p);
        if poc_type == 0 {
            lemma_code_extends(data, rest, p1);
        } else if poc_type == 1 {
            let flag = skip_bits(data, p1, 1);
            let p2 = skip_codes(data, flag, 2);
            let cycle = skip_code(data, p2);
            assert(cycle is Some && p2 is Some && flag is Some);
            lemma_codes_extend(data, rest, flag, 2);
            lemma_code_extends(data, rest, p2);
            lemma_codes_extend(data, rest, cycle, code_value(data, p2));
        }
    }
}

proof fn lemma_frame_fields_extend(data: Seq<u8>, rest: Seq<u8>, p: Option<int>)
    requires
        p matches Some(q) ==> q >= 0,
    ensures
        skip_frame_fields(data, p) is Some ==> {
            &&& skip_frame_fields(data + rest, p) == skip_frame_fields(data, p)
            &&& skip_frame_fields(data, p)->0 >= 0
        },
{
    lemma_skip_none(data);
    if skip_frame_fields(data, p) is Some {
        let refs = skip_code(data, p);
        let gaps = skip_bits(data, refs, 1);
        let p1 = skip_codes(data, gaps, 2);
        let p2 = skip_bits(data, p1, 1);
        let p3 = if flag_set(data, p1) {
            p2
        } else {
            skip_bits(data, p2, 1)
        };
        let p4 = skip_bits(data, p3, 1);
        let p5 = skip_bits(data, p4, 1);
        assert(p5 is Some && p4 is Some && p3 is Some && p2 is Some && p1 is Some);
        assert(gaps is Some && refs is Some);
        lemma_code_extends(data, rest, p);
        lemma_codes_extend(data, rest, gaps, 2);
        lemma_flag_extends(data, rest, p1);
        lemma_flag_extends(data, rest, p4);
        if flag_set(data, p4) {
            lemma_codes_extend(data, rest, p5, 4);
        }
    }
}

proof fn lemma_vui_flag_pos_extends(data: Seq<u8>, rest: Seq<u8>, profile_idc: u8)
    ensures
        vui_flag_pos(data, profile_idc) is Some ==> {
            &&& vui_flag_pos(data + rest, profile_idc) == vui_flag_pos(data, profile_idc)
            &&& vui_flag_pos(data, profile_idc)->0 >= 0
        },
{
    lemma_skip_none(data);
    if vui_flag_pos(data, profile_idc) is Some {
        let p1 = skip_code(data, Some(0));
        let p2 = if is_high_profile(profile_idc) {
            skip_high_profile_fields(data, p1)
        } else {
            p1
        };
        let p3 = skip_code(data, p2);
        let p4 = skip_pic_order_cnt(data, p3);
        assert(p4 is Some && p3 is Some && p2 is Some && p1 is Some);
        lemma_code_extends(data, rest, Some(0));
        if is_high_profile(profile_idc) {
            lemma_high_profile_extends(data, rest, p1);
        }
        lemma_code_extends(data, rest, p2);
        lemma_pic_order_cnt_extends(data, rest, p3);
        lemma_frame_fields_extend(data, rest, p4);
    }
}

proof fn lemma_vui_extends(data: Seq<u8>, rest: Seq<u8>, p: Option<int>)
    requires
        p matches Some(q) ==> q >= 0,
    ensures
        vui_colour_description(data, p) is Some ==> vui_colour_description(data + rest, p)
            == vui_colour_description(data, p),
{
    if vui_colour_description(data, p) is Some {
        let a1 = skip_bits(data, p, 1);
        let a3 = skip_bits(data, a1, 8);
        let a2 = if a1 is Some && flag_set(data, p) {
            if a3 is Some && bits_value(data, a1->0, 8) == 255 {
                skip_bits(data, a3, 32)
            } else {
                a3
            }
        } else {
            a1
        };
        assert(a2 is Some);
        lemma_flag_extends(data, rest, p);
        if flag_set(data, p) {
            lemma_bits_extend(data, rest, a1->0, 8);
        }
        lemma_flag_extends(data, rest, a2);
        let p1 = signal_type_flag_pos(data, p);
        let p2 = skip_bits(data, p1, 1);
        lemma_flag_extends(data, rest, p1);
        lemma_flag_extends(data, rest, skip_bits(data, p2, 4));
    }
}

/// Nothing follows a field that is cut off.
proof fn lemma_skip_none(data: Seq<u8>)
    ensures
        forall|n: nat| #[trigger] skip_codes(data, None, n) is None,
        forall|n: nat| #[trigger] skip_scaling_lists(data, None, n) is None,
{
    assert forall|n: nat| #[trigger] skip_codes(data, None, n) is None by {
        lemma_skip_codes_none(data, n);
    }
    assert forall|n: nat| #[trigger] skip_scaling_lists(data, None, n) is None by {
        lemma_skip_lists_none(data, n);
    }
}

proof fn lemma_skip_codes_none(data: Seq<u8>, n: nat)
    ensures
        skip_codes(data, None, n) is None,
    decreases n,
{
    if n > 0 {
        lemma_skip_codes_none(data, (n - 1) as nat);
    }
}

proof fn lemma_skip_entries_none(data: Seq<u8>, last: int, next: int, n: nat)
    ensures
        skip_scaling_entries(data, None, last, next, n) is None,
    decreases n,
{
    if n > 0 && next != 0 {
        let new = (last + se_value(code_value(data, None))) % 256;
        lemma_skip_entries_none(
            data,
            if new == 0 {
                last
            } else {
                new
            },
            new,
            (n - 1) as nat,
        );
    }
}

proof fn lemma_skip_lists_none(data: Seq<u8>, n: nat)
    ensures
        skip_scaling_lists(data, None, n) is None,
    decreases n,
{
    if n > 0 {
        lemma_skip_lists_none(data, (n - 1) as nat);
    }
}

/// Once one of `n` codes is cut off, all that follow are.
proof fn lemma_skip_codes_stuck(data: Seq<u8>, p: Option<int>, m: nat, n: nat)
    requires
        m <= n,
        skip_codes(data, p, m) is None,
    ensures
        skip_codes(data, p, n) is None,
    decreases n,
{
    if m < n {
        lemma_skip_codes_stuck(data, p, m, (n - 1) as nat);
    }
}

/// Once one of `n` scaling lists is cut off, all that follow are.
proof fn lemma_skip_lists_stuck(data: Seq<u8>, p: Option<int>, m: nat, n: nat)
    requires
        m <= n,
        skip_scaling_lists(data, p, m) is None,
    ensures
        skip_scaling_lists(data, p, n) is None,
    decreases n,
{
    if m < n {
        lemma_skip_lists_stuck(data, p, m, (n - 1) as nat);
    }
}

/// Reads a one-bit field.
fn read_flag(reader: &mut BitReader) -> (r: Option<bool>)
    ensures
        final(reader).bytes() == old(reader).bytes(),
        match skip_bits(old(reader).bytes(), Some(old(reader).pos()), 1) {
            Some(q) => r == Some(flag_set(old(reader).bytes(), Some(old(reader).pos())))
                && final(reader).pos() == q,
            None => r is None,
        },
{
    match reader.read_bit() {
        Some(b) => Some(b == 1),
        None => None,
    }
}

/// Skips `n` Exp-Golomb codes; `false` where one is cut off.
fn skip_n_codes(reader: &mut BitReader, n: u32) -> (ok: bool)
    ensures
        final(reader).bytes() == old(reader).bytes(),
        match skip_codes(old(reader).bytes(), Some(old(reader).pos()), n as nat) {
            Some(q) => ok && final(reader).pos() == q,
            None => !ok,
        },
{
    let ghost data = reader.bytes();
    let ghost p = reader.pos();
    let mut i: u32 = 0;
    while i < n
        invariant
            i <= n,
            reader.bytes() == data,
            old(reader).bytes() == data,
            old(reader).pos() == p,
            skip_codes(data, Some(p), i as nat) == Some(reader.pos()),
        decreases n - i,
    {
        let code: Option<u32> = reader.read_ue();
        i = i + 1;
        if code.is_none() {
            proof {
                lemma_skip_codes_stuck(data, Some(p), i as nat, n as nat);
            }
            return false;
        }
    }
    true
}

/// Skips a field of `n` bits; `false` where it is cut off.
fn skip_n_bits(reader: &mut BitReader, n: u8) -> (ok: bool)
    ensures
        final(reader).bytes() == old(reader).bytes(),
        match skip_bits(old(reader).bytes(), Some(old(reader).pos()), n as nat) {
            Some(q) => ok && final(reader).pos() == q,
            None => !ok,
        },
{
    reader.read_bits(n).is_some()
}

/// The scale that follows `last_scale` by `delta`, modulo 256.
fn add_scale(last_scale: u8, delta: i32) -> (r: u8)
    ensures
        r == (last_scale + delta) % 256,
{
    // A multiple of 256 keeps the dividend positive.
    let sum: u64 = (last_scale as i64 + delta as i64 + 0x1_0000_0000) as u64;
    assert(sum as int % 256 == (last_scale + delta) % 256);
    (sum % 256) as u8
}

/// Skips the entries of a scaling list of `size` entries; `false` where it is cut
/// off.
fn read_scaling_list(reader: &mut BitReader, size: u8) -> (ok: bool)
    ensures
        final(reader).bytes() == old(reader).bytes(),
        match skip_scaling_entries(
            old(reader).bytes(),
            Some(old(reader).pos()),
            8,
            8,
            size as nat,
        ) {
            Some(q) => ok && final(reader).pos() == q,
            None => !ok,
        },
{
    let ghost data = reader.bytes();
    let ghost p = reader.pos();
    let mut last_scale: u8 = 8;
    let mut next_scale: u8 = 8;
    let mut left: u8 = size;
    while left > 0 && next_scale != 0
        invariant
            left <= size,
            reader.bytes() == data,
            old(reader).bytes() == data,
            old(reader).pos() == p,
            skip_scaling_entries(data, Some(p), 8, 8, size as nat) == skip_scaling_entries(
                data,
                Some(reader.pos()),
                last_scale as int,
                next_scale as int,
                left as nat,
            ),
        decreases left,
    {
        match reader.read_se() {
            Some(delta) => {
                next_scale = add_scale(last_scale, delta);
            },
            None => {
                proof {
                    lemma_skip_entries_none(
                        data,
                        last_scale as int,
                        next_scale as int,
                        left as nat,
                    );
                    let new = (last_scale + se_value(0)) % 256;
                    lemma_skip_entries_none(
                        data,
                        if new == 0 {
                            last_scale as int
                        } else {
                            new
                        },
                        new,
                        (left - 1) as nat,
                    );
                }
                return false;
            },
        }
        if next_scale != 0 {
            last_scale = next_scale;
        }
        left = left - 1;
    }
    true
}

/// Skips `count` scaling lists; `false` where one is cut off.
fn read_scaling_lists(reader: &mut BitReader, count: u8) -> (ok: bool)
    ensures
        final(reader).bytes() == old(reader).bytes(),
        match skip_scaling_lists(old(reader).bytes(), Some(old(reader).pos()), count as nat) {
            Some(q) => ok && final(reader).pos() == q,
            None => !ok,
        },
{
    let ghost data = reader.bytes();
    let ghost p = reader.pos();
    let mut i: u8 = 0;
    while i < count
        invariant
            i <= count,
            reader.bytes() == data,
            old(reader).bytes() == data,
            old(reader).pos() == p,
            skip_scaling_lists(data, Some(p), i as nat) == Some(reader.pos()),
        decreases count - i,
    {
        let ok: bool = match read_flag(reader) {
            Some(present) => {
                if present {
                    let size: u8 = if i < 6 {
                        16
                    } else {
                        64
                    };
                    read_scaling_list(reader, size)
                } else {
                    true
                }
            },
            None => false,
        };
        i = i + 1;
        if !ok {
            proof {
                lemma_skip_lists_stuck(data, Some(p), i as nat, count as nat);
            }
            return false;
        }
    }
    true
}

/// Skips the fields that only high profiles have; `false` where one is cut off.
fn read_high_profile_fields(reader: &mut BitReader) -> (ok: bool)
    ensures
        final(reader).bytes() == old(reader).bytes(),
        match skip_high_profile_fields(old(reader).bytes(), Some(old(reader).pos())) {
            Some(q) => ok && final(reader).pos() == q,
            None => !ok,
        },
{
    proof {
        lemma_skip_none(reader.bytes());
    }
    let chroma_format_idc: u32 = match reader.read_ue() {
        Some(v) => v,
        None => {
            return false;
        },
    };
    if chroma_format_idc == 3 && !skip_n_bits(reader, 1) {
        return false;
    }
    if !skip_n_codes(reader, 2) || !skip_n_bits(reader, 1) {
        return false;
    }
    match read_flag(reader) {
        Some(matrix_present) => {
            if matrix_present {
                let count: u8 = if chroma_format_idc == 3 {
                    12
                } else {
                    8
                };
                read_scaling_lists(reader, count)
            } else {
                true
            }
        },
        None => false,
    }
}

/// Skips pic_order_cnt_type and its fields; `false` where one is cut off.
fn read_pic_order_cnt(reader: &mut BitReader) -> (ok: bool)
    ensures
        final(reader).bytes() == old(reader).bytes(),
        match skip_pic_order_cnt(old(reader).bytes(), Some(old(reader).pos())) {
            Some(q) => ok && final(reader).pos() == q,
            None => !ok,
        },
{
    proof {
        lemma_skip_none(reader.bytes());
    }
    match reader.read_ue() {
        Some(poc_type) => {
            if poc_type == 0 {
                reader.read_ue().is_some()
            } else if poc_type == 1 {
                if !skip_n_bits(reader, 1) || !skip_n_codes(reader, 2) {
                    return false;
                }
                match reader.read_ue() {
                    Some(num_ref_frames_in_poc_cycle) => skip_n_codes(
                        reader,
                        num_ref_frames_in_poc_cycle,
                    ),
                    None => false,
                }
            } else {
                true
            }
        },
        None => false,
    }
}

/// Skips the frame size and cropping fields; `false` where one is cut off.
fn read_frame_fields(reader: &mut BitReader) -> (ok: bool)
    ensures
        final(reader).bytes() == old(reader).bytes(),
        match skip_frame_fields(old(reader).bytes(), Some(old(reader).pos())) {
            Some(q) => ok && final(reader).pos() == q,
            None => !ok,
        },
{
    proof {
        lemma_skip_none(reader.bytes());
    }
    if reader.read_ue().is_none() || !skip_n_bits(reader, 1) || !skip_n_codes(reader, 2) {
        return false;
    }
    match read_flag(reader) {
        Some(frame_mbs_only) => {
            if !frame_mbs_only && !skip_n_bits(reader, 1) {
                return false;
            }
        },
        None => {
            return false;
        },
    }
    if !skip_n_bits(reader, 1) {
        return false;
    }
    match read_flag(reader) {
        Some(crop) => {
            if crop {
                skip_n_codes(reader, 4)
            } else {
                true
            }
        },
        None => false,
    }
}

/// Reads a VUI up to its colour description flag; `None` where it is cut off
/// before that.
fn read_vui(reader: &mut BitReader) -> (r: Option<bool>)
    ensures
        r == vui_colour_description(old(reader).bytes(), Some(old(reader).pos())),
{
    let ghost data = reader.bytes();
    match read_flag(reader) {
        Some(aspect_ratio_present) => {
            if aspect_ratio_present {
                let ghost at = reader.pos();
                match reader.read_bits(8) {
                    Some(aspect_ratio_idc) => {
                        proof {
                            lemma_bits_value_bound(data, at, 8);
                            lemma2_to64();
                        }
                        if aspect_ratio_idc == 255 && !skip_n_bits(reader, 32) {
                            return None;
                        }
                    },
                    None => {
                        return None;
                    },
                }
            }
        },
        None => {
            return None;
        },
    }
    match read_flag(reader) {
        Some(overscan_present) => {
            if overscan_present && !skip_n_bits(reader, 1) {
                return None;
            }
        },
        None => {
            return None;
        },
    }
    match read_flag(reader) {
        Some(signal_type_present) => {
            if signal_type_present {
                if !skip_n_bits(reader, 4) {
                    return None;
                }
                read_flag(reader)
            } else {
                Some(false)
            }
        },
        None => None,
    }
}

/// Parses an SPS NAL unit (with the NAL header byte), as far as is needed for
/// profile, level and VUI colour presence.
pub fn parse_sps(nal_data: &[u8]) -> (r: Option<SpsInfo>)
    ensures
        r == sps_info(nal_data@),
{
    if nal_data.len() < 4 || nal_data[0] & 0x1F != 7 {
        return None;
    }
    let profile_idc: u8 = nal_data[1];
    let constraint_flags: u8 = nal_data[2];
    let body: &[u8] = vstd::slice::slice_subrange(nal_data, 4, nal_data.len());
    let ghost data = nal_data@.subrange(4, nal_data@.len() as int);
    let mut reader = BitReader::new(body);
    proof {
        lemma_skip_none(data);
    }
    // seq_parameter_set_id
    if reader.read_ue().is_none() {
        return None;
    }
    let high: bool = profile_idc == 100 || profile_idc == 110 || profile_idc == 122 || profile_idc
        == 244 || profile_idc == 44 || profile_idc == 83 || profile_idc == 86 || profile_idc == 118
        || profile_idc == 128 || profile_idc == 138 || profile_idc == 139 || profile_idc == 134;
    if high && !read_high_profile_fields(&mut reader) {
        return None;
    }
    // log2_max_frame_num_minus4
    if reader.read_ue().is_none() {
        return None;
    }
    if !read_pic_order_cnt(&mut reader) || !read_frame_fields(&mut reader) {
        return None;
    }
    let vui_present: bool = match read_flag(&mut reader) {
        Some(b) => b,
        None => {
            return None;
        },
    };
    let colour_description_present: bool = if vui_present {
        match read_vui(&mut reader) {
            Some(b) => b,
            None => {
                return None;
            },
        }
    } else {
        false
    };
    Some(
        SpsInfo {
            profile_idc,
            constraint_set0_flag: (constraint_flags & 0x80) != 0,
            constraint_set1_flag: (constraint_flags & 0x40) != 0,
            level_idc: nal_data[3],
            vui_parameters_present: vui_present,
            colour_description_present,
        },
    )
}

// ---------------------------------------------------------------------------
// Sequence parameter sets as they are written
// ---------------------------------------------------------------------------

/// One element of a sequence parameter set.
pub enum Field {
    /// A number as an Exp-Golomb code.
    Code(nat),
    /// A number in a fixed count of bits.
    Bits { count: nat, value: nat },
}

/// A flag, in one bit.
pub open spec fn flag_field(set: bool) -> Field {
    Field::Bits {
        count: 1,
        value: if set {
            1
        } else {
            0
        },
    }
}

/// The position behind some elements, if these are what the bits spell from the start.
pub open spec fn pos_behind(data: Seq<u8>, fields: Seq<Field>) -> Option<int>
    decreases fields.len(),
{
    if fields.len() == 0 {
        Some(0)
    } else {
        match pos_behind(data, fields.drop_last()) {
            None => None,
            Some(p) => match fields.last() {
                Field::Code(v) => match ue_at(data, p) {
                    Some((u, q)) => if u == v {
                        Some(q)
                    } else {
                        None
                    },
                    None => None,
                },
                Field::Bits { count, value } => if p + count <= bit_len(data) && bits_value(
                    data,
                    p,
                    count,
                ) == value {
                    Some(p + count)
                } else {
                    None
                },
            },
        }
    }
}

/// How the order of pictures is told.
pub enum PictureOrder {
    /// By so many bits of a counter in each slice.
    Counted(nat),
    /// By the offsets of a cycle.
    Cycle { always_zero: bool, non_ref: nat, top_to_bottom: nat, offsets: Seq<int> },
    /// By the order of decoding, or in some other way that takes no further elements.
    Decoded(nat),
}

/// What only high profiles have.
pub struct HighFields {
    pub chroma_format: nat,
    /// Only written for the chroma format 4:4:4.
    pub separate_planes: bool,
    pub luma_depth: nat,
    pub chroma_depth: nat,
    pub bypass: bool,
    /// The scaling lists, where there are any: each the differences from scale to scale.
    pub scaling: Option<Seq<Option<Seq<int>>>>,
}

/// The shape of a pixel.
pub enum Aspect {
    /// One of those that have a number.
    Known(nat),
    Other { width: nat, height: nat },
}

/// How colours are meant.
pub struct VideoSignal {
    pub format: nat,
    pub full_range: bool,
    pub colour_description: bool,
}

/// The start of the usability information.
pub struct VuiFields {
    pub aspect: Option<Aspect>,
    pub overscan: Option<bool>,
    pub signal: Option<VideoSignal>,
}

/// A sequence parameter set, behind its profile and level.
pub struct SpsFields {
    pub id: nat,
    pub high: Option<HighFields>,
    pub frame_num: nat,
    pub order: PictureOrder,
    pub references: nat,
    pub gaps: bool,
    pub width: nat,
    pub height: nat,
    /// Whether fields may be mixed with frames; `None` where there are only frames.
    pub adaptive: Option<bool>,
    pub direct: bool,
    pub crop: Option<(nat, nat, nat, nat)>,
    pub vui: Option<VuiFields>,
}

/// Some elements, with differences behind them.
pub open spec fn with_deltas(front: Seq<Field>, deltas: Seq<int>) -> Seq<Field>
    decreases deltas.len(),
{
    if deltas.len() == 0 {
        front
    } else {
        with_deltas(front, deltas.drop_last()).push(Field::Code(se_code(deltas.last())))
    }
}

/// The scale that some differences lead to from 8, in one byte.
pub open spec fn scale_after(deltas: Seq<int>) -> int
    decreases deltas.len(),
{
    if deltas.len() == 0 {
        8
    } else {
        (scale_after(deltas.drop_last()) + deltas.last()) % 256
    }
}

/// Whether differences make a scaling list: one for each entry, or as many as it takes to
/// get to 0, which ends the list.
pub open spec fn is_scaling_list(deltas: Seq<int>, size: nat) -> bool {
    &&& deltas.len() <= size
    &&& forall|k: int| 0 <= k < deltas.len() ==> scale_after(#[trigger] deltas.take(k)) != 0
    &&& deltas.len() < size ==> scale_after(deltas) == 0
}

/// Some elements, with scaling lists behind them.
pub open spec fn with_lists(front: Seq<Field>, lists: Seq<Option<Seq<int>>>) -> Seq<Field>
    decreases lists.len(),
{
    if lists.len() == 0 {
        front
    } else {
        let before = with_lists(front, lists.drop_last());
        match lists.last() {
            None => before.push(flag_field(false)),
            Some(deltas) => with_deltas(before.push(flag_field(true)), deltas),
        }
    }
}

/// Whether the scaling lists are those that a chroma format has: six of 16 entries, then
/// two of 64, or six for 4:4:4.
pub open spec fn are_scaling_lists(lists: Seq<Option<Seq<int>>>, chroma_format: nat) -> bool {
    &&& lists.len() == if chroma_format == 3 {
        12nat
    } else {
        8nat
    }
    &&& forall|i: int|
        0 <= i < lists.len() ==> (#[trigger] lists[i] matches Some(deltas) ==> is_scaling_list(
            deltas,
            if i < 6 {
                16
            } else {
                64
            },
        ))
}

/// Some elements, with those of a high profile behind them.
pub open spec fn with_high(front: Seq<Field>, high: HighFields) -> Seq<Field> {
    let chroma = front.push(Field::Code(high.chroma_format));
    let planes = if high.chroma_format == 3 {
        chroma.push(flag_field(high.separate_planes))
    } else {
        chroma
    };
    let depths = planes.push(Field::Code(high.luma_depth)).push(
        Field::Code(high.chroma_depth),
    ).push(flag_field(high.bypass));
    match high.scaling {
        None => depths.push(flag_field(false)),
        Some(lists) => with_lists(depths.push(flag_field(true)), lists),
    }
}

/// Some elements, with those on the order of pictures behind them.
pub open spec fn with_order(front: Seq<Field>, order: PictureOrder) -> Seq<Field> {
    match order {
        PictureOrder::Counted(bits) => front.push(Field::Code(0)).push(Field::Code(bits)),
        PictureOrder::Cycle { always_zero, non_ref, top_to_bottom, offsets } => with_deltas(
            front.push(Field::Code(1)).push(flag_field(always_zero)).push(
                Field::Code(non_ref),
            ).push(Field::Code(top_to_bottom)).push(Field::Code(offsets.len())),
            offsets,
        ),
        PictureOrder::Decoded(kind) => front.push(Field::Code(kind)),
    }
}

/// Some elements, with those on frames behind them.
pub open spec fn with_frames(front: Seq<Field>, sps: SpsFields) -> Seq<Field> {
    let sizes = front.push(Field::Code(sps.references)).push(flag_field(sps.gaps)).push(
        Field::Code(sps.width),
    ).push(Field::Code(sps.height));
    let frames = match sps.adaptive {
        None => sizes.push(flag_field(true)),
        Some(adaptive) => sizes.push(flag_field(false)).push(flag_field(adaptive)),
    };
    let direct = frames.push(flag_field(sps.direct));
    match sps.crop {
        None => direct.push(flag_field(false)),
        Some((left, right, top, bottom)) => direct.push(flag_field(true)).push(
            Field::Code(left),
        ).push(Field::Code(right)).push(Field::Code(top)).push(Field::Code(bottom)),
    }
}

/// Some elements, with the start of the usability information behind them.
pub open spec fn with_vui(front: Seq<Field>, vui: VuiFields) -> Seq<Field> {
    let aspect = match vui.aspect {
        None => front.push(flag_field(false)),
        Some(Aspect::Known(n)) => front.push(flag_field(true)).push(
            Field::Bits { count: 8, value: n },
        ),
        Some(Aspect::Other { width, height }) => front.push(flag_field(true)).push(
            Field::Bits { count: 8, value: 255 },
        ).push(Field::Bits { count: 16, value: width }).push(
            Field::Bits { count: 16, value: height },
        ),
    };
    let overscan = match vui.overscan {
        None => aspect.push(flag_field(false)),
        Some(fit) => aspect.push(flag_field(true)).push(flag_field(fit)),
    };
    match vui.signal {
        None => overscan.push(flag_field(false)),
        Some(signal) => overscan.push(flag_field(true)).push(
            Field::Bits { count: 3, value: signal.format },
        ).push(flag_field(signal.full_range)).push(flag_field(signal.colour_description)),
    }
}

/// The elements of a sequence parameter set, in order, up to the end of the colours.
pub open spec fn fields_of(sps: SpsFields) -> Seq<Field> {
    let id = seq![Field::Code(sps.id)];
    let high = match sps.high {
        None => id,
        Some(high) => with_high(id, high),
    };
    let order = with_order(high.push(Field::Code(sps.frame_num)), sps.order);
    let frames = with_frames(order, sps);
    match sps.vui {
        None => frames.push(flag_field(false)),
        Some(vui) => with_vui(frames.push(flag_field(true)), vui),
    }
}

/// A sequence parameter set reads back as it was written: the profile, the first two
/// constraint flags and the level are those of its bytes, and it is known whether it has
/// usability information and whether that describes the colours, whatever optional
/// elements stand before them.
pub proof fn sps_reads_back(nal: Seq<u8>, sps: SpsFields)
    requires
        nal.len() >= 4,
        nal[0] % 32 == 7,
        pos_behind(nal.skip(4), fields_of(sps)) is Some,
        sps.high is Some <==> (nal[1] == 100 || nal[1] == 110 || nal[1] == 122 || nal[1] == 244
            || nal[1] == 44 || nal[1] == 83 || nal[1] == 86 || nal[1] == 118 || nal[1] == 128
            || nal[1] == 138 || nal[1] == 139 || nal[1] == 134),
        sps.high matches Some(high) ==> (high.scaling matches Some(lists) ==> are_scaling_lists(
            lists,
            high.chroma_format,
        )),
        sps.order matches PictureOrder::Decoded(kind) ==> kind >= 2,
        sps.vui matches Some(vui) ==> !(vui.aspect matches Some(Aspect::Known(n)) && n == 255),
    ensures
        sps_info(nal) == Some(
            SpsInfo {
                profile_idc: nal[1],
                constraint_set0_flag: nal[2] / 128 == 1,
                constraint_set1_flag: nal[2] / 64 % 2 == 1,
                level_idc: nal[3],
                vui_parameters_present: sps.vui is Some,
                colour_description_present: sps.vui matches Some(vui) && vui.signal matches Some(
                    signal,
                ) && signal.colour_description,
            },
        ),
{
    let data = nal.skip(4);
    let (header, flags) = (nal[0], nal[2]);
    assert(nal.subrange(4, nal.len() as int) =~= data);
    assert(header & 0x1F == header % 32) by (bit_vector);
    assert((flags & 0x80 != 0) == (flags / 128 == 1)) by (bit_vector);
    assert((flags & 0x40 != 0) == (flags / 64 % 2 == 1)) by (bit_vector);
    let id = seq![Field::Code(sps.id)];
    assert(id =~= Seq::<Field>::empty().push(Field::Code(sps.id)));
    let high = match sps.high {
        None => id,
        Some(high) => with_high(id, high),
    };
    let numbered = high.push(Field::Code(sps.frame_num));
    let order = with_order(numbered, sps.order);
    let frames = with_frames(order, sps);
    // What stands before is spelled too.
    match sps.vui {
        None => {
            lemma_flag(data, frames, false);
        },
        Some(vui) => {
            lemma_vui(data, frames.push(flag_field(true)), vui);
            lemma_flag(data, frames, true);
        },
    }
    lemma_frames(data, order, sps);
    lemma_order(data, numbered, sps.order);
    lemma_code(data, high, sps.frame_num);
    if let Some(h) = sps.high {
        lemma_high(data, id, h);
    }
    lemma_code(data, Seq::empty(), sps.id);
}

/// What a further code does.
proof fn lemma_code(data: Seq<u8>, front: Seq<Field>, v: nat)
    requires
        pos_behind(data, front.push(Field::Code(v))) is Some,
    ensures
        pos_behind(data, front) is Some,
        skip_code(data, pos_behind(data, front)) == pos_behind(data, front.push(Field::Code(v))),
        code_value(data, pos_behind(data, front)) == v,
{
    assert(front.push(Field::Code(v)).drop_last() =~= front);
}

/// What further bits do.
proof fn lemma_bits(data: Seq<u8>, front: Seq<Field>, count: nat, value: nat)
    requires
        pos_behind(data, front.push(Field::Bits { count, value })) is Some,
    ensures
        pos_behind(data, front) is Some,
        skip_bits(data, pos_behind(data, front), count) == pos_behind(
            data,
            front.push(Field::Bits { count, value }),
        ),
        pos_behind(data, front.push(Field::Bits { count, value }))->0 == pos_behind(data, front)->0
            + count,
        bits_value(data, pos_behind(data, front)->0, count) == value,
{
    assert(front.push(Field::Bits { count, value }).drop_last() =~= front);
}

/// What a further flag does.
proof fn lemma_flag(data: Seq<u8>, front: Seq<Field>, set: bool)
    requires
        pos_behind(data, front.push(flag_field(set))) is Some,
    ensures
        pos_behind(data, front) is Some,
        skip_bits(data, pos_behind(data, front), 1) == pos_behind(
            data,
            front.push(flag_field(set)),
        ),
        pos_behind(data, front.push(flag_field(set)))->0 == pos_behind(data, front)->0 + 1,
        flag_set(data, pos_behind(data, front)) == set,
{
    lemma_bits(
        data,
        front,
        1,
        if set {
            1
        } else {
            0
        },
    );
    let p = pos_behind(data, front)->0;
    reveal_with_fuel(bits_value, 2);
    assert(bits_value(data, p, 1) == bit(data, p));
}

/// Differences do to the position what as many codes do.
proof fn lemma_deltas(data: Seq<u8>, front: Seq<Field>, deltas: Seq<int>)
    requires
        pos_behind(data, with_deltas(front, deltas)) is Some,
    ensures
        pos_behind(data, front) is Some,
        skip_codes(data, pos_behind(data, front), deltas.len()) == pos_behind(
            data,
            with_deltas(front, deltas),
        ),
    decreases deltas.len(),
{
    if deltas.len() > 0 {
        lemma_code(data, with_deltas(front, deltas.drop_last()), se_code(deltas.last()));
        lemma_deltas(data, front, deltas.drop_last());
    }
}

/// The first differences of a list, and where they lead.
proof fn lemma_entries(data: Seq<u8>, front: Seq<Field>, deltas: Seq<int>, size: nat, k: nat)
    requires
        pos_behind(data, with_deltas(front, deltas)) is Some,
        is_scaling_list(deltas, size),
        k <= deltas.len(),
    ensures
        pos_behind(data, with_deltas(front, deltas.take(k as int))) is Some,
        exists|last: int|
            (scale_after(deltas.take(k as int)) != 0 ==> last == scale_after(deltas.take(k as int)))
                && skip_scaling_entries(data, pos_behind(data, front), 8, 8, size)
                == #[trigger] skip_scaling_entries(
                data,
                pos_behind(data, with_deltas(front, deltas.take(k as int))),
                last,
                scale_after(deltas.take(k as int)),
                (size - k) as nat,
            ),
    decreases k,
{
    lemma_front_is_spelled(data, front, deltas, k);
    if k == 0 {
        assert(deltas.take(0) =~= Seq::empty());
        assert(skip_scaling_entries(data, pos_behind(data, front), 8, 8, size)
            == skip_scaling_entries(
            data,
            pos_behind(data, with_deltas(front, deltas.take(0))),
            8,
            scale_after(deltas.take(0)),
            (size - 0) as nat,
        ));
    } else {
        let n = (k - 1) as nat;
        let some = deltas.take(n as int);
        let more = deltas.take(k as int);
        let d = deltas[n as int];
        lemma_entries(data, front, deltas, size, n);
        assert(more.drop_last() =~= some);
        assert(more.last() == d);
        lemma_code(data, with_deltas(front, some), se_code(d));
        se_code_inverts_se_value(d, 0);
        assert(scale_after(some) != 0);
        let p = pos_behind(data, with_deltas(front, some));
        let q = pos_behind(data, with_deltas(front, more));
        let scale = scale_after(more);
        let last = if scale == 0 {
            scale_after(some)
        } else {
            scale
        };
        assert(skip_scaling_entries(
            data,
            p,
            scale_after(some),
            scale_after(some),
            (size - n) as nat,
        ) == skip_scaling_entries(data, q, last, scale, (size - k) as nat));
    }
}

proof fn lemma_front_is_spelled(data: Seq<u8>, front: Seq<Field>, deltas: Seq<int>, k: nat)
    requires
        pos_behind(data, with_deltas(front, deltas)) is Some,
        k <= deltas.len(),
    ensures
        pos_behind(data, with_deltas(front, deltas.take(k as int))) is Some,
    decreases deltas.len(),
{
    if k == deltas.len() {
        assert(deltas.take(k as int) =~= deltas);
    } else {
        lemma_code(data, with_deltas(front, deltas.drop_last()), se_code(deltas.last()));
        lemma_front_is_spelled(data, front, deltas.drop_last(), k);
        assert(deltas.drop_last().take(k as int) =~= deltas.take(k as int));
    }
}

proof fn lemma_list(data: Seq<u8>, front: Seq<Field>, deltas: Seq<int>, size: nat)
    requires
        pos_behind(data, with_deltas(front, deltas)) is Some,
        is_scaling_list(deltas, size),
    ensures
        pos_behind(data, front) is Some,
        skip_scaling_entries(data, pos_behind(data, front), 8, 8, size) == pos_behind(
            data,
            with_deltas(front, deltas),
        ),
{
    lemma_deltas(data, front, deltas);
    lemma_entries(data, front, deltas, size, deltas.len());
    assert(deltas.take(deltas.len() as int) =~= deltas);
}

proof fn lemma_lists(data: Seq<u8>, front: Seq<Field>, lists: Seq<Option<Seq<int>>>)
    requires
        pos_behind(data, with_lists(front, lists)) is Some,
        forall|i: int|
            0 <= i < lists.len() ==> (#[trigger] lists[i] matches Some(deltas) ==> is_scaling_list(
                deltas,
                if i < 6 {
                    16
                } else {
                    64
                },
            )),
    ensures
        pos_behind(data, front) is Some,
        skip_scaling_lists(data, pos_behind(data, front), lists.len()) == pos_behind(
            data,
            with_lists(front, lists),
        ),
    decreases lists.len(),
{
    if lists.len() > 0 {
        let some = lists.drop_last();
        let before = with_lists(front, some);
        assert(lists[lists.len() - 1] == lists.last());
        match lists.last() {
            None => {
                lemma_flag(data, before, false);
            },
            Some(deltas) => {
                lemma_list(
                    data,
                    before.push(flag_field(true)),
                    deltas,
                    scaling_list_size(lists.len() - 1),
                );
                lemma_flag(data, before, true);
            },
        }
        assert forall|i: int| 0 <= i < some.len() implies (
        #[trigger] some[i] matches Some(deltas) ==> is_scaling_list(
            deltas,
            if i < 6 {
                16
            } else {
                64
            },
        )) by {
            assert(some[i] == lists[i]);
        }
        lemma_lists(data, front, some);
    }
}

proof fn lemma_high(data: Seq<u8>, front: Seq<Field>, high: HighFields)
    requires
        pos_behind(data, with_high(front, high)) is Some,
        high.scaling matches Some(lists) ==> are_scaling_lists(lists, high.chroma_format),
    ensures
        pos_behind(data, front) is Some,
        skip_high_profile_fields(data, pos_behind(data, front)) == pos_behind(
            data,
            with_high(front, high),
        ),
{
    let chroma = front.push(Field::Code(high.chroma_format));
    let planes = if high.chroma_format == 3 {
        chroma.push(flag_field(high.separate_planes))
    } else {
        chroma
    };
    let luma = planes.push(Field::Code(high.luma_depth));
    let both = luma.push(Field::Code(high.chroma_depth));
    let depths = both.push(flag_field(high.bypass));
    match high.scaling {
        None => {
            lemma_flag(data, depths, false);
        },
        Some(lists) => {
            lemma_lists(data, depths.push(flag_field(true)), lists);
            lemma_flag(data, depths, true);
        },
    }
    lemma_flag(data, both, high.bypass);
    lemma_code(data, luma, high.chroma_depth);
    lemma_code(data, planes, high.luma_depth);
    if high.chroma_format == 3 {
        lemma_flag(data, chroma, high.separate_planes);
    }
    lemma_code(data, front, high.chroma_format);
    reveal_with_fuel(skip_codes, 3);
}

proof fn lemma_order(data: Seq<u8>, front: Seq<Field>, order: PictureOrder)
    requires
        pos_behind(data, with_order(front, order)) is Some,
        order matches PictureOrder::Decoded(kind) ==> kind >= 2,
    ensures
        pos_behind(data, front) is Some,
        skip_pic_order_cnt(data, pos_behind(data, front)) == pos_behind(
            data,
            with_order(front, order),
        ),
{
    reveal_with_fuel(skip_codes, 3);
    match order {
        PictureOrder::Counted(bits) => {
            lemma_code(data, front.push(Field::Code(0)), bits);
            lemma_code(data, front, 0);
        },
        PictureOrder::Cycle { always_zero, non_ref, top_to_bottom, offsets } => {
            let kind = front.push(Field::Code(1));
            let zero = kind.push(flag_field(always_zero));
            let reference = zero.push(Field::Code(non_ref));
            let top = reference.push(Field::Code(top_to_bottom));
            lemma_deltas(data, top.push(Field::Code(offsets.len())), offsets);
            lemma_code(data, top, offsets.len());
            lemma_code(data, reference, top_to_bottom);
            lemma_code(data, zero, non_ref);
            lemma_flag(data, kind, always_zero);
            lemma_code(data, front, 1);
        },
        PictureOrder::Decoded(kind) => {
            lemma_code(data, front, kind);
        },
    }
}

proof fn lemma_frames(data: Seq<u8>, front: Seq<Field>, sps: SpsFields)
    requires
        pos_behind(data, with_frames(front, sps)) is Some,
    ensures
        pos_behind(data, front) is Some,
        skip_frame_fields(data, pos_behind(data, front)) == pos_behind(
            data,
            with_frames(front, sps),
        ),
{
    reveal_with_fuel(skip_codes, 5);
    let references = front.push(Field::Code(sps.references));
    let gaps = references.push(flag_field(sps.gaps));
    let width = gaps.push(Field::Code(sps.width));
    let sizes = width.push(Field::Code(sps.height));
    let frames = match sps.adaptive {
        None => sizes.push(flag_field(true)),
        Some(adaptive) => sizes.push(flag_field(false)).push(flag_field(adaptive)),
    };
    let direct = frames.push(flag_field(sps.direct));
    match sps.crop {
        None => {
            lemma_flag(data, direct, false);
        },
        Some((left, right, top, bottom)) => {
            let cropped = direct.push(flag_field(true));
            let one = cropped.push(Field::Code(left));
            let two = one.push(Field::Code(right));
            let three = two.push(Field::Code(top));
            lemma_code(data, three, bottom);
            lemma_code(data, two, top);
            lemma_code(data, one, right);
            lemma_code(data, cropped, left);
            lemma_flag(data, direct, true);
        },
    }
    lemma_flag(data, frames, sps.direct);
    match sps.adaptive {
        None => {
            lemma_flag(data, sizes, true);
        },
        Some(adaptive) => {
            lemma_flag(data, sizes.push(flag_field(false)), adaptive);
            lemma_flag(data, sizes, false);
        },
    }
    lemma_code(data, width, sps.height);
    lemma_code(data, gaps, sps.width);
    lemma_flag(data, references, sps.gaps);
    lemma_code(data, front, sps.references);
}

proof fn lemma_vui(data: Seq<u8>, front: Seq<Field>, vui: VuiFields)
    requires
        pos_behind(data, with_vui(front, vui)) is Some,
        !(vui.aspect matches Some(Aspect::Known(n)) && n == 255),
    ensures
        pos_behind(data, front) is Some,
        vui_colour_description(data, pos_behind(data, front)) == Some(
            vui.signal matches Some(signal) && signal.colour_description,
        ),
{
    let aspect = match vui.aspect {
        None => front.push(flag_field(false)),
        Some(Aspect::Known(n)) => front.push(flag_field(true)).push(
            Field::Bits { count: 8, value: n },
        ),
        Some(Aspect::Other { width, height }) => front.push(flag_field(true)).push(
            Field::Bits { count: 8, value: 255 },
        ).push(Field::Bits { count: 16, value: width }).push(
            Field::Bits { count: 16, value: height },
        ),
    };
    let overscan = match vui.overscan {
        None => aspect.push(flag_field(false)),
        Some(fit) => aspect.push(flag_field(true)).push(flag_field(fit)),
    };
    match vui.signal {
        None => {
            lemma_flag(data, overscan, false);
        },
        Some(signal) => {
            let there = overscan.push(flag_field(true));
            let format = there.push(Field::Bits { count: 3, value: signal.format });
            let range = format.push(flag_field(signal.full_range));
            lemma_flag(data, range, signal.colour_description);
            lemma_flag(data, format, signal.full_range);
            lemma_bits(data, there, 3, signal.format);
            lemma_flag(data, overscan, true);
        },
    }
    match vui.overscan {
        None => {
            lemma_flag(data, aspect, false);
        },
        Some(fit) => {
            lemma_flag(data, aspect.push(flag_field(true)), fit);
            lemma_flag(data, aspect, true);
        },
    }
    match vui.aspect {
        None => {
            lemma_flag(data, front, false);
        },
        Some(Aspect::Known(n)) => {
            lemma_bits(data, front.push(flag_field(true)), 8, n);
            lemma_flag(data, front, true);
        },
        Some(Aspect::Other { width, height }) => {
            let there = front.push(flag_field(true));
            let kind = there.push(Field::Bits { count: 8, value: 255 });
            let wide = kind.push(Field::Bits { count: 16, value: width });
            lemma_bits(data, wide, 16, height);
            lemma_bits(data, kind, 16, width);
            lemma_bits(data, there, 8, 255);
            lemma_flag(data, front, true);
        },
    }
    assert(signal_type_flag_pos(data, pos_behind(data, front)) == pos_behind(data, overscan));
}

// ---------------------------------------------------------------------------
// Keyframes and bytes
// ---------------------------------------------------------------------------

/// A keyframe is found wherever it stands: behind two zeros and a one comes a byte whose
/// last five bits are 5. Without such bytes there is none.
pub proof fn keyframes_are_found(front: Seq<u8>, header: u8, back: Seq<u8>, data: Seq<u8>)
    requires
        header % 32 == 5,
    ensures
        contains_idr(front + seq![0u8, 0u8, 1u8, header] + back),
        contains_idr(data) <==> exists|p: int|
            0 <= p && p + 3 < data.len() && data[p] == 0 && data[p + 1] == 0 && data[p + 2] == 1
                && #[trigger] data[p + 3] % 32 == 5,
{
    let all = front + seq![0u8, 0u8, 1u8, header] + back;
    let p = front.len() as int;
    assert(header & 0x1F == header % 32) by (bit_vector);
    assert(all[p] == 0 && all[p + 1] == 0 && all[p + 2] == 1 && all[p + 3] == header);
    assert(is_start_code(all, p));
    assert(forall|h: u8| #[trigger] (h & 0x1F) == h % 32) by (bit_vector);
    if contains_idr(data) {
        let q = choose|q: int| #[trigger]
            is_start_code(data, q) && q + 3 < data.len() && nal_type(data[q + 3]) == 5;
        assert(data[q + 3] & 0x1F == data[q + 3] % 32);
        assert(data[q + 3] % 32 == 5);
    }
    if exists|q: int|
        0 <= q && q + 3 < data.len() && data[q] == 0 && data[q + 1] == 0 && data[q + 2] == 1
            && #[trigger] data[q + 3] % 32 == 5 {
        let q = choose|q: int|
            0 <= q && q + 3 < data.len() && data[q] == 0 && data[q + 1] == 0 && data[q + 2] == 1
                && #[trigger] data[q + 3] % 32 == 5;
        assert(data[q + 3] & 0x1F == data[q + 3] % 32);
        assert(is_start_code(data, q));
    }
}

/// The type of a unit is what its first byte leaves over 32.
pub proof fn unit_types_are_five_bits(header: u8)
    ensures
        nal_type(header) == header % 32,
{
    assert(header & 0x1F == header % 32) by (bit_vector);
}

/// Eight bits from the start of a byte are that byte.
pub proof fn eight_bits_are_a_byte(data: Seq<u8>, i: int)
    requires
        0 <= i < data.len(),
    ensures
        bits_value(data, 8 * i, 8) == data[i],
{
    reveal_with_fuel(bits_value, 9);
    let b = data[i];
    assert((b >> 7u8) & 1 == b / 128 % 2 && (b >> 6u8) & 1 == b / 64 % 2 && (b >> 5u8) & 1 == b / 32
        % 2 && (b >> 4u8) & 1 == b / 16 % 2 && (b >> 3u8) & 1 == b / 8 % 2 && (b >> 2u8) & 1 == b
        / 4 % 2 && (b >> 1u8) & 1 == b / 2 % 2 && (b >> 0u8) & 1 == b % 2) by (bit_vector);
    let p = 8 * i;
    assert(p / 8 == i && (p + 1) / 8 == i && (p + 2) / 8 == i && (p + 3) / 8 == i && (p + 4) / 8 == i
        && (p + 5) / 8 == i && (p + 6) / 8 == i && (p + 7) / 8 == i);
    assert(bit(data, p) == b / 128 % 2);
    assert(bit(data, p + 1) == b / 64 % 2);
    assert(bit(data, p + 2) == b / 32 % 2);
    assert(bit(data, p + 3) == b / 16 % 2);
    assert(bit(data, p + 4) == b / 8 % 2);
    assert(bit(data, p + 5) == b / 4 % 2);
    assert(bit(data, p + 6) == b / 2 % 2);
    assert(bit(data, p + 7) == b % 2);
}

/// A code never starts with more than 31 zeros, and never ends behind the data.
pub proof fn overlong_codes_are_refused(data: Seq<u8>, p: int)
    requires
        0 <= p,
    ensures
        p + 32 <= bit_len(data) && (forall|i: int|
            p <= i < p + 32 ==> #[trigger] bit(data, i) == 0) ==> ue_at(data, p) is None,
        p >= bit_len(data) ==> ue_at(data, p) is None,
        ue_at(data, p) matches Some((_, q)) ==> p < q <= bit_len(data),
{
    if p + 32 <= bit_len(data) && (forall|i: int|
        p <= i < p + 32 ==> #[trigger] bit(data, i) == 0) {
        lemma_many_zeros(data, p, 32);
    }
}

proof fn lemma_many_zeros(data: Seq<u8>, p: int, n: nat)
    requires
        0 <= p,
        p + n <= bit_len(data),
        forall|i: int| p <= i < p + n ==> #[trigger] bit(data, i) == 0,
    ensures
        zeros_at(data, p) >= n,
    decreases n,
{
    if n > 0 {
        assert(bit(data, p) == 0);
        lemma_many_zeros(data, p + 1, (n - 1) as nat);
    }
}

} // verus!
