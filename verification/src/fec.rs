//! Two-dimensional XOR parity recovery in the style of SMPTE 2022-1.
//!
//! Media packets occupy an L-column by D-row matrix keyed by RTP
//! sequence number.  A column parity packet protects the D packets of
//! one column (sequence stride L); a row parity packet protects the L
//! packets of one row (stride 1).  A line with exactly one missing
//! packet and its parity present is repaired by exclusive-or; repeated
//! passes let repairs unlock further repairs.  Lines with two or more
//! losses stay missing.

use vstd::prelude::*;
use vstd::slice::slice_to_vec;

verus! {

/// Exclusive-or of two byte strings of equal length.
pub open spec fn xor_bytes(a: Seq<u8>, b: Seq<u8>) -> Seq<u8>
    recommends
        a.len() == b.len(),
{
    Seq::new(a.len(), |i: int| a[i] ^ b[i])
}

/// A run of zero bytes.
pub open spec fn zero_bytes(n: nat) -> Seq<u8> {
    Seq::new(n, |i: int| 0u8)
}

pub proof fn lemma_xor_bytes_comm(a: Seq<u8>, b: Seq<u8>)
    requires
        a.len() == b.len(),
    ensures
        xor_bytes(a, b) == xor_bytes(b, a),
{
    assert forall|i: int| 0 <= i < a.len() implies xor_bytes(a, b)[i] == xor_bytes(b, a)[i] by {
        let x = a[i];
        let y = b[i];
        assert(x ^ y == y ^ x) by (bit_vector);
    }
    assert(xor_bytes(a, b) =~= xor_bytes(b, a));
}

pub proof fn lemma_xor_bytes_assoc(a: Seq<u8>, b: Seq<u8>, c: Seq<u8>)
    requires
        a.len() == b.len(),
        b.len() == c.len(),
    ensures
        xor_bytes(xor_bytes(a, b), c) == xor_bytes(a, xor_bytes(b, c)),
{
    assert forall|i: int| 0 <= i < a.len() implies xor_bytes(xor_bytes(a, b), c)[i] == xor_bytes(
        a,
        xor_bytes(b, c),
    )[i] by {
        let x = a[i];
        let y = b[i];
        let z = c[i];
        assert((x ^ y) ^ z == x ^ (y ^ z)) by (bit_vector);
    }
    assert(xor_bytes(xor_bytes(a, b), c) =~= xor_bytes(a, xor_bytes(b, c)));
}

pub proof fn lemma_xor_bytes_self(a: Seq<u8>)
    ensures
        xor_bytes(a, a) == zero_bytes(a.len()),
{
    assert forall|i: int| 0 <= i < a.len() implies xor_bytes(a, a)[i] == 0u8 by {
        let x = a[i];
        assert(x ^ x == 0) by (bit_vector);
    }
    assert(xor_bytes(a, a) =~= zero_bytes(a.len()));
}

pub proof fn lemma_xor_bytes_zero(a: Seq<u8>)
    ensures
        xor_bytes(zero_bytes(a.len()), a) == a,
{
    assert forall|i: int| 0 <= i < a.len() implies xor_bytes(zero_bytes(a.len()), a)[i] == a[i] by {
        let x = a[i];
        assert(0u8 ^ x == x) by (bit_vector);
    }
    assert(xor_bytes(zero_bytes(a.len()), a) =~= a);
}

/// Exclusive-or of a whole family of equal-length byte strings.
pub open spec fn xor_all(ps: Seq<Seq<u8>>, len: nat) -> Seq<u8>
    decreases ps.len(),
{
    if ps.len() == 0 {
        zero_bytes(len)
    } else {
        xor_bytes(ps[0], xor_all(ps.drop_first(), len))
    }
}

/// All members have the given length.
pub open spec fn all_len(ps: Seq<Seq<u8>>, len: nat) -> bool {
    forall|i: int| 0 <= i < ps.len() ==> (#[trigger] ps[i]).len() == len
}

pub proof fn lemma_xor_all_len(ps: Seq<Seq<u8>>, len: nat)
    requires
        all_len(ps, len),
    ensures
        xor_all(ps, len).len() == len,
    decreases ps.len(),
{
    if ps.len() > 0 {
        assert(all_len(ps.drop_first(), len));
        lemma_xor_all_len(ps.drop_first(), len);
    }
}

/// The parity of a family repairs any single member: exclusive-or of
/// the parity with every other member yields the missing one.  This is
/// the law that makes single-loss recovery exact.
pub proof fn lemma_parity_recovers(ps: Seq<Seq<u8>>, k: int, len: nat)
    requires
        all_len(ps, len),
        0 <= k < ps.len(),
    ensures
        xor_bytes(xor_all(ps, len), xor_all(ps.remove(k), len)) == ps[k],
    decreases ps.len(),
{
    lemma_xor_all_len(ps, len);
    assert(all_len(ps.remove(k), len));
    lemma_xor_all_len(ps.remove(k), len);
    let rest = ps.drop_first();
    assert(all_len(rest, len));
    lemma_xor_all_len(rest, len);
    if k == 0 {
        assert(ps.remove(0) =~= rest);
        // xor(p0 ^ R, R) == p0
        lemma_xor_bytes_assoc(ps[0], xor_all(rest, len), xor_all(rest, len));
        lemma_xor_bytes_self(xor_all(rest, len));
        // p0 ^ zeros == p0
        lemma_xor_bytes_comm(ps[0], zero_bytes(len));
        lemma_xor_bytes_zero(ps[0]);
    } else {
        let rest_removed = rest.remove(k - 1);
        assert(ps.remove(k).drop_first() =~= rest_removed);
        assert(ps.remove(k)[0] == ps[0]);
        lemma_parity_recovers(rest, k - 1, len);
        assert(all_len(rest_removed, len));
        lemma_xor_all_len(rest_removed, len);
        let p0 = ps[0];
        let r = xor_all(rest, len);
        let rr = xor_all(rest_removed, len);
        // (p0 ^ r) ^ (p0 ^ rr) == (r ^ rr)
        assert(xor_bytes(xor_bytes(p0, r), xor_bytes(p0, rr)) == xor_bytes(r, rr)) by {
            assert forall|i: int| 0 <= i < len implies xor_bytes(
                xor_bytes(p0, r),
                xor_bytes(p0, rr),
            )[i] == xor_bytes(r, rr)[i] by {
                let x = p0[i];
                let y = r[i];
                let z = rr[i];
                assert((x ^ y) ^ (x ^ z) == y ^ z) by (bit_vector);
            }
            assert(xor_bytes(xor_bytes(p0, r), xor_bytes(p0, rr)) =~= xor_bytes(r, rr));
        }
        assert(xor_bytes(r, rr) == rest[k - 1]);
        assert(ps[k] == rest[k - 1]);
    }
}

/// Exclusive-or `src` into `dst`; `dst` is first zero-extended to
/// `src`'s length if shorter.
pub fn xor_into(dst: &mut Vec<u8>, src: &[u8])
    requires
        old(dst)@.len() + src@.len() < usize::MAX,
    ensures
        final(dst)@.len() == if old(dst)@.len() >= src@.len() {
            old(dst)@.len()
        } else {
            src@.len()
        },
        forall|i: int|
            0 <= i < final(dst)@.len() ==> final(dst)@[i] == ((if i < old(dst)@.len() {
                old(dst)@[i]
            } else {
                0u8
            }) ^ (if i < src@.len() {
                src@[i]
            } else {
                0u8
            })),
{
    let ghost d0 = dst@;
    while dst.len() < src.len()
        invariant
            d0.len() <= dst@.len(),
            dst@.len() <= d0.len() || dst@.len() <= src@.len(),
            forall|i: int| 0 <= i < d0.len() ==> dst@[i] == d0[i],
            forall|i: int| d0.len() <= i < dst@.len() ==> dst@[i] == 0u8,
        decreases src@.len() - dst@.len(),
    {
        dst.push(0);
    }
    let ghost d1 = dst@;
    let mut i: usize = 0;
    while i < src.len()
        invariant
            i <= src@.len(),
            src@.len() <= dst@.len(),
            dst@.len() == d1.len(),
            forall|j: int| i <= j < dst@.len() ==> dst@[j] == d1[j],
            forall|j: int| 0 <= j < i ==> dst@[j] == (d1[j] ^ src@[j]),
        decreases src@.len() - i,
    {
        let b = dst[i] ^ src[i];
        dst[i] = b;
        i = i + 1;
    }
    proof {
        assert forall|j: int| src@.len() <= j < dst@.len() implies dst@[j] == ((if j
            < d0.len() {
            d0[j]
        } else {
            0u8
        }) ^ 0u8) by {
            let x: u8 = if j < d0.len() {
                d0[j]
            } else {
                0u8
            };
            assert(x ^ 0 == x) by (bit_vector);
        }
    }
}

} // verus!

// The parity matrix itself.

verus! {

/// The fields of a SMPTE 2022-1 FEC header this crate consumes.
#[derive(Debug, Clone, Copy, PartialEq, Eq, Structural)]
pub struct FecHeaderInfo {
    /// Lowest sequence number the packet protects.
    pub sn_base: u16,
    /// Exclusive-or of the protected packets' payload lengths.
    pub length_recovery: u16,
    /// True for a row packet (second FEC stream), false for a column.
    pub row: bool,
    /// Sequence stride between protected packets.
    pub offset: u8,
    /// Number of protected packets.
    pub na: u8,
}

/// Bytes of the FEC header preceding the parity payload.
pub const FEC_HEADER_LEN: usize = 16;

/// Specification parser for the 16-byte FEC header: `None` when the
/// buffer is short, the extension flag is clear, or the geometry fields
/// are zero.
pub open spec fn spec_fec_header(b: Seq<u8>) -> Option<FecHeaderInfo> {
    if b.len() < FEC_HEADER_LEN {
        None
    } else if b[4] & 0x80 == 0 {
        None
    } else if b[13] == 0 || b[14] == 0 {
        None
    } else {
        Some(
            FecHeaderInfo {
                sn_base: ((b[0] as nat) * 256 + b[1] as nat) as u16,
                length_recovery: ((b[2] as nat) * 256 + b[3] as nat) as u16,
                row: b[12] & 0x40 != 0,
                offset: b[13],
                na: b[14],
            },
        )
    }
}

/// Parse a FEC packet's payload (the RTP payload of the FEC stream);
/// the parity bytes follow the 16-byte header.
pub fn parse_fec_header(b: &[u8]) -> (res: Option<FecHeaderInfo>)
    ensures
        res == spec_fec_header(b@),
{
    if b.len() < FEC_HEADER_LEN {
        return None;
    }
    if b[4] & 0x80 == 0 {
        return None;
    }
    if b[13] == 0 || b[14] == 0 {
        return None;
    }
    Some(
        FecHeaderInfo {
            sn_base: (b[0] as u16) * 256 + (b[1] as u16),
            length_recovery: (b[2] as u16) * 256 + (b[3] as u16),
            row: b[12] & 0x40 != 0,
            offset: b[13],
            na: b[14],
        },
    )
}

/// Specification state of the parity matrix.
pub struct FecMatrixV {
    pub cols: u8,
    pub rows: u8,
    /// Sequence number of the packet in the top-left slot.
    pub base: u16,
    /// One slot per protected packet, row-major: slot `i` holds the
    /// payload of sequence number `base + i` once received or repaired.
    pub main: Seq<Option<Seq<u8>>>,
    /// (length_recovery, parity payload) per row.
    pub row_parity: Seq<Option<(u16, Seq<u8>)>>,
    /// (length_recovery, parity payload) per column.
    pub col_parity: Seq<Option<(u16, Seq<u8>)>>,
}

/// Payload length bound that keeps length arithmetic in 16 bits.
pub open spec fn payload_len_ok(p: Seq<u8>) -> bool {
    p.len() <= 0xffff
}

pub open spec fn matrix_wf(m: FecMatrixV) -> bool {
    &&& 1 <= m.cols as nat
    &&& 1 <= m.rows as nat
    &&& m.main.len() == m.cols as nat * m.rows as nat
    &&& m.row_parity.len() == m.rows as nat
    &&& m.col_parity.len() == m.cols as nat
    &&& forall|i: int|
        0 <= i < m.main.len() ==> (#[trigger] m.main[i] matches Some(p) ==> payload_len_ok(p))
    &&& forall|i: int|
        0 <= i < m.row_parity.len() ==> (#[trigger] m.row_parity[i] matches Some(pp)
            ==> payload_len_ok(pp.1))
    &&& forall|i: int|
        0 <= i < m.col_parity.len() ==> (#[trigger] m.col_parity[i] matches Some(pp)
            ==> payload_len_ok(pp.1))
}

/// The slot a sequence number occupies relative to the base.
pub open spec fn spec_slot(base: u16, seq: u16) -> nat {
    ((seq as nat + 0x10000 - base as nat) % 0x10000) as nat
}

/// The slots of row `r`, left to right.
pub open spec fn row_slots(cols: u8, r: nat) -> Seq<int> {
    Seq::new(cols as nat, |j: int| r as int * cols as int + j)
}

/// The slots of column `c`, top to bottom.
pub open spec fn col_slots(cols: u8, rows: u8, c: nat) -> Seq<int> {
    Seq::new(rows as nat, |k: int| c as int + k * cols as int)
}

/// How many of the given slots are empty.
pub open spec fn missing_count(main: Seq<Option<Seq<u8>>>, idxs: Seq<int>) -> nat
    decreases idxs.len(),
{
    if idxs.len() == 0 {
        0
    } else {
        (if main[idxs[0]] is None {
            1nat
        } else {
            0nat
        }) + missing_count(main, idxs.drop_first())
    }
}

/// The first empty slot among the given ones.
pub open spec fn first_missing(main: Seq<Option<Seq<u8>>>, idxs: Seq<int>) -> Option<int>
    decreases idxs.len(),
{
    if idxs.len() == 0 {
        None
    } else if main[idxs[0]] is None {
        Some(idxs[0])
    } else {
        first_missing(main, idxs.drop_first())
    }
}

/// Exclusive-or of an accumulator with every present payload among the
/// given slots, zero-extending as needed, and of the running length.
pub open spec fn line_xor(
    main: Seq<Option<Seq<u8>>>,
    idxs: Seq<int>,
    acc: Seq<u8>,
    len_acc: u16,
) -> (Seq<u8>, u16)
    decreases idxs.len(),
{
    if idxs.len() == 0 {
        (acc, len_acc)
    } else {
        match main[idxs[0]] {
            Some(p) => line_xor(
                main,
                idxs.drop_first(),
                spec_xor_pad(acc, p),
                (len_acc ^ (p.len() as u16)),
            ),
            None => line_xor(main, idxs.drop_first(), acc, len_acc),
        }
    }
}

/// Exclusive-or with zero-extension to the longer operand.
pub open spec fn spec_xor_pad(a: Seq<u8>, b: Seq<u8>) -> Seq<u8> {
    Seq::new(
        if a.len() >= b.len() {
            a.len()
        } else {
            b.len()
        },
        |i: int| (if i < a.len() {
            a[i]
        } else {
            0u8
        }) ^ (if i < b.len() {
            b[i]
        } else {
            0u8
        }),
    )
}

/// The payload a single-loss line repairs to: parity folded with every
/// present payload, cut to the recovered length.
pub open spec fn spec_line_payload(
    main: Seq<Option<Seq<u8>>>,
    idxs: Seq<int>,
    lr: u16,
    pp: Seq<u8>,
) -> Seq<u8> {
    let (x, l) = line_xor(main, idxs, pp, lr);
    if (l as nat) < x.len() {
        x.subrange(0, l as int)
    } else {
        x
    }
}

/// Repair one line if its parity is present and exactly one slot is
/// empty; returns the new state and the (sequence, payload) repaired.
pub open spec fn spec_try_line(
    m: FecMatrixV,
    idxs: Seq<int>,
    parity: Option<(u16, Seq<u8>)>,
) -> (FecMatrixV, Seq<(u16, Seq<u8>)>) {
    match parity {
        None => (m, Seq::<(u16, Seq<u8>)>::empty()),
        Some((lr, pp)) => {
            if missing_count(m.main, idxs) != 1 {
                (m, Seq::<(u16, Seq<u8>)>::empty())
            } else {
                let k = first_missing(m.main, idxs).unwrap();
                let rec = spec_line_payload(m.main, idxs, lr, pp);
                (
                    FecMatrixV { main: m.main.update(k, Some(rec)), ..m },
                    seq![((((m.base as nat + k) % 0x10000) as u16), rec)],
                )
            }
        },
    }
}

/// One repair attempt on every row, top to bottom.
pub open spec fn spec_pass_rows(m: FecMatrixV, r: nat) -> (FecMatrixV, Seq<(u16, Seq<u8>)>)
    decreases m.rows as nat - r,
{
    if r >= m.rows as nat {
        (m, Seq::<(u16, Seq<u8>)>::empty())
    } else {
        let (m1, e1) = spec_try_line(m, row_slots(m.cols, r), m.row_parity[r as int]);
        let (m2, e2) = spec_pass_rows(m1, r + 1);
        (m2, e1 + e2)
    }
}

/// One repair attempt on every column, left to right.
pub open spec fn spec_pass_cols(m: FecMatrixV, c: nat) -> (FecMatrixV, Seq<(u16, Seq<u8>)>)
    decreases m.cols as nat - c,
{
    if c >= m.cols as nat {
        (m, Seq::<(u16, Seq<u8>)>::empty())
    } else {
        let (m1, e1) = spec_try_line(m, col_slots(m.cols, m.rows, c), m.col_parity[c as int]);
        let (m2, e2) = spec_pass_cols(m1, c + 1);
        (m2, e1 + e2)
    }
}

/// One full pass: rows, then columns.
pub open spec fn spec_pass(m: FecMatrixV) -> (FecMatrixV, Seq<(u16, Seq<u8>)>) {
    let (m1, e1) = spec_pass_rows(m, 0);
    let (m2, e2) = spec_pass_cols(m1, 0);
    (m2, e1 + e2)
}

/// `n` passes; repairs in one pass can unlock repairs in the next.
pub open spec fn spec_recover_n(m: FecMatrixV, n: nat) -> (FecMatrixV, Seq<(u16, Seq<u8>)>)
    decreases n,
{
    if n == 0 {
        (m, Seq::<(u16, Seq<u8>)>::empty())
    } else {
        let (m1, e1) = spec_pass(m);
        let (m2, e2) = spec_recover_n(m1, (n - 1) as nat);
        (m2, e1 + e2)
    }
}

} // verus!

// The executable matrix.

verus! {

/// The views of optional payload slots.
pub open spec fn opts_view(s: Seq<Option<Vec<u8>>>) -> Seq<Option<Seq<u8>>> {
    s.map_values(
        |o: Option<Vec<u8>>|
            match o {
                Some(v) => Some(v@),
                None => None,
            },
    )
}

/// The views of optional parity entries.
pub open spec fn pars_view(s: Seq<Option<(u16, Vec<u8>)>>) -> Seq<Option<(u16, Seq<u8>)>> {
    s.map_values(
        |o: Option<(u16, Vec<u8>)>|
            match o {
                Some(p) => Some((p.0, p.1@)),
                None => None,
            },
    )
}

/// The views of emitted (sequence, payload) pairs.
pub open spec fn pairs_view(s: Seq<(u16, Vec<u8>)>) -> Seq<(u16, Seq<u8>)> {
    s.map_values(|p: (u16, Vec<u8>)| (p.0, p.1@))
}

/// One L-by-D parity matrix window.
pub struct FecMatrix {
    cols: u8,
    rows: u8,
    base: u16,
    main: Vec<Option<Vec<u8>>>,
    row_parity: Vec<Option<(u16, Vec<u8>)>>,
    col_parity: Vec<Option<(u16, Vec<u8>)>>,
}

impl View for FecMatrix {
    type V = FecMatrixV;

    closed spec fn view(&self) -> FecMatrixV {
        FecMatrixV {
            cols: self.cols,
            rows: self.rows,
            base: self.base,
            main: opts_view(self.main@),
            row_parity: pars_view(self.row_parity@),
            col_parity: pars_view(self.col_parity@),
        }
    }
}

impl FecMatrix {
    /// An empty window of the given geometry, anchored at `base`.
    pub fn new(cols: u8, rows: u8, base: u16) -> (r: FecMatrix)
        requires
            cols >= 1,
            rows >= 1,
        ensures
            matrix_wf(r@),
            r@.cols == cols,
            r@.rows == rows,
            r@.base == base,
            forall|i: int| 0 <= i < r@.main.len() ==> r@.main[i] is None,
            forall|i: int| 0 <= i < r@.row_parity.len() ==> r@.row_parity[i] is None,
            forall|i: int| 0 <= i < r@.col_parity.len() ==> r@.col_parity[i] is None,
    {
        proof {
            assert((cols as usize) * (rows as usize) <= 255 * 255) by (nonlinear_arith)
                requires
                    cols <= 255,
                    rows <= 255,
            ;
        }
        let total: usize = (cols as usize) * (rows as usize);
        let mut main: Vec<Option<Vec<u8>>> = Vec::new();
        let mut i: usize = 0;
        while i < total
            invariant
                i <= total,
                main@.len() == i,
                forall|k: int| 0 <= k < i ==> main@[k] is None,
            decreases total - i,
        {
            main.push(None);
            i = i + 1;
        }
        let mut row_parity: Vec<Option<(u16, Vec<u8>)>> = Vec::new();
        let mut j: usize = 0;
        while j < rows as usize
            invariant
                j <= rows as usize,
                row_parity@.len() == j,
                forall|k: int| 0 <= k < j ==> row_parity@[k] is None,
            decreases rows as usize - j,
        {
            row_parity.push(None);
            j = j + 1;
        }
        let mut col_parity: Vec<Option<(u16, Vec<u8>)>> = Vec::new();
        let mut k: usize = 0;
        while k < cols as usize
            invariant
                k <= cols as usize,
                col_parity@.len() == k,
                forall|t: int| 0 <= t < k ==> col_parity@[t] is None,
            decreases cols as usize - k,
        {
            col_parity.push(None);
            k = k + 1;
        }
        let r = FecMatrix { cols, rows, base, main, row_parity, col_parity };
        proof {
            assert(r@.main.len() == total);
        }
        r
    }

    /// Store a received media payload in its slot; sequence numbers
    /// outside the window are ignored.
    pub fn insert_main(&mut self, seq: u16, payload: Vec<u8>)
        requires
            matrix_wf(old(self)@),
            payload@.len() <= 0xffff,
        ensures
            matrix_wf(final(self)@),
            final(self)@ == if spec_slot(old(self)@.base, seq) < old(self)@.main.len() {
                FecMatrixV {
                    main: old(self)@.main.update(
                        spec_slot(old(self)@.base, seq) as int,
                        Some(payload@),
                    ),
                    ..old(self)@
                }
            } else {
                old(self)@
            },
    {
        let slot: usize = ((seq as usize) + 0x10000 - (self.base as usize)) % 0x10000;
        if slot < self.main.len() {
            self.main[slot] = Some(payload);
            proof {
                assert(opts_view(self.main@) =~= opts_view(old(self).main@).update(
                    slot as int,
                    Some(payload@),
                ));
            }
        }
    }

    /// Store a row parity packet's recovery fields.
    pub fn insert_row_parity(&mut self, row: usize, length_recovery: u16, payload: Vec<u8>)
        requires
            matrix_wf(old(self)@),
            row < old(self)@.rows as nat,
            payload@.len() <= 0xffff,
        ensures
            matrix_wf(final(self)@),
            final(self)@ == (FecMatrixV {
                row_parity: old(self)@.row_parity.update(
                    row as int,
                    Some((length_recovery, payload@)),
                ),
                ..old(self)@
            }),
    {
        self.row_parity[row] = Some((length_recovery, payload));
        proof {
            assert(pars_view(self.row_parity@) =~= pars_view(old(self).row_parity@).update(
                row as int,
                Some((length_recovery, payload@)),
            ));
        }
    }

    /// Store a column parity packet's recovery fields.
    pub fn insert_col_parity(&mut self, col: usize, length_recovery: u16, payload: Vec<u8>)
        requires
            matrix_wf(old(self)@),
            col < old(self)@.cols as nat,
            payload@.len() <= 0xffff,
        ensures
            matrix_wf(final(self)@),
            final(self)@ == (FecMatrixV {
                col_parity: old(self)@.col_parity.update(
                    col as int,
                    Some((length_recovery, payload@)),
                ),
                ..old(self)@
            }),
    {
        self.col_parity[col] = Some((length_recovery, payload));
        proof {
            assert(pars_view(self.col_parity@) =~= pars_view(old(self).col_parity@).update(
                col as int,
                Some((length_recovery, payload@)),
            ));
        }
    }

    /// The payload held for a sequence number, if present.
    pub fn get_main(&self, seq: u16) -> (r: Option<&Vec<u8>>)
        requires
            matrix_wf(self@),
        ensures
            match r {
                Some(v) => spec_slot(self@.base, seq) < self@.main.len() && self@.main[spec_slot(
                    self@.base,
                    seq,
                ) as int] == Some(v@),
                None => spec_slot(self@.base, seq) >= self@.main.len() || self@.main[spec_slot(
                    self@.base,
                    seq,
                ) as int] is None,
            },
    {
        let slot: usize = ((seq as usize) + 0x10000 - (self.base as usize)) % 0x10000;
        if slot < self.main.len() {
            match &self.main[slot] {
                Some(v) => Some(v),
                None => None,
            }
        } else {
            None
        }
    }

    /// Attempt to repair the line of slots `start + j*stride` for
    /// `j < count`, given a copy of the line's parity entry.
    #[verifier::rlimit(100)]
    #[verifier::loop_isolation(false)]
    fn try_slots(
        &mut self,
        start: usize,
        stride: usize,
        count: usize,
        parity: Option<(u16, Vec<u8>)>,
        out: &mut Vec<(u16, Vec<u8>)>,
    )
        requires
            matrix_wf(old(self)@),
            stride >= 1,
            count >= 1,
            start + (count - 1) * stride < old(self)@.main.len(),
            start + (count - 1) * stride < usize::MAX,
            match parity {
                Some(p) => p.1@.len() <= 0xffff,
                None => true,
            },
        ensures
            matrix_wf(final(self)@),
            ({
                let idxs = Seq::new(count as nat, |j: int| start + j * stride);
                let pv = match parity {
                    Some(p) => Some((p.0, p.1@)),
                    None => None::<(u16, Seq<u8>)>,
                };
                let r = spec_try_line(old(self)@, idxs, pv);
                final(self)@ == r.0 && pairs_view(final(out)@) == pairs_view(old(out)@) + r.1
            }),
    {
        let ghost idxs = Seq::new(count as nat, |j: int| start + j * stride);
        proof {
            assert forall|j: int| 0 <= j < count implies 0 <= #[trigger] idxs[j]
                < old(self)@.main.len() by {
                assert(j * stride <= (count - 1) * stride) by (nonlinear_arith)
                    requires
                        0 <= j <= count - 1,
                        stride >= 1,
                ;
            }
        }
        let (lr, pp) = match parity {
            None => {
                proof {
                    assert(pairs_view(out@) =~= pairs_view(out@) + Seq::<(u16, Seq<u8>)>::empty());
                }
                return ;
            },
            Some(p) => p,
        };
        proof {
            assert(idxs.subrange(0, count as int) =~= idxs);
        }
        // count the holes and find the first
        let mut miss: usize = 0;
        let mut first: usize = 0;
        let mut found = false;
        let mut j: usize = 0;
        while j < count
            invariant
                j <= count,
                miss <= j,
                miss + missing_count(self@.main, idxs.subrange(j as int, count as int))
                    == missing_count(self@.main, idxs),
                found ==> (first < self@.main.len() && self@.main[first as int] is None),
                (if found {
                    Some(first as int)
                } else {
                    first_missing(self@.main, idxs.subrange(j as int, count as int))
                }) == first_missing(self@.main, idxs),
                miss == 0 ==> !found,
                miss >= 1 ==> found,
            decreases count - j,
        {
            let ghost rem = idxs.subrange(j as int, count as int);
            proof {
                assert(rem[0] == idxs[j as int]);
                assert(rem.drop_first() =~= idxs.subrange(j as int + 1, count as int));
                assert(j * stride <= (count - 1) * stride) by (nonlinear_arith)
                    requires
                        0 <= j <= count - 1,
                        stride >= 0,
                ;
            }
            let slot = start + j * stride;
            proof {
                assert(slot == idxs[j as int]);
            }
            let empty = match &self.main[slot] {
                None => true,
                Some(_) => false,
            };
            if empty {
                if !found {
                    found = true;
                    first = slot;
                }
                miss = miss + 1;
            }
            j = j + 1;
        }
        proof {
            assert(idxs.subrange(count as int, count as int) =~= Seq::<int>::empty());
        }
        if miss != 1 {
            proof {
                assert(pairs_view(out@) =~= pairs_view(out@) + Seq::<(u16, Seq<u8>)>::empty());
            }
            return ;
        }
        // fold the parity with every present payload
        let mut buf = pp;
        let mut len_acc: u16 = lr;
        let mut j2: usize = 0;
        while j2 < count
            invariant
                j2 <= count,
                buf@.len() <= 0xffff,
                line_xor(self@.main, idxs.subrange(j2 as int, count as int), buf@, len_acc)
                    == line_xor(self@.main, idxs, pp@, lr),
            decreases count - j2,
        {
            let ghost rem = idxs.subrange(j2 as int, count as int);
            proof {
                assert(rem[0] == idxs[j2 as int]);
                assert(rem.drop_first() =~= idxs.subrange(j2 as int + 1, count as int));
                assert(idxs[j2 as int] < old(self)@.main.len());
                assert(j2 * stride <= (count - 1) * stride) by (nonlinear_arith)
                    requires
                        0 <= j2 <= count - 1,
                        stride >= 0,
                ;
            }
            let slot = start + j2 * stride;
            proof {
                assert(slot == idxs[j2 as int]);
            }
            match &self.main[slot] {
                Some(p) => {
                    let ghost buf0 = buf@;
                    xor_into(&mut buf, p.as_slice());
                    proof {
                        assert(buf@ =~= spec_xor_pad(buf0, p@));
                    }
                    len_acc = len_acc ^ (p.len() as u16);
                },
                None => {},
            }
            j2 = j2 + 1;
        }
        proof {
            assert(idxs.subrange(count as int, count as int) =~= Seq::<int>::empty());
        }
        // cut to the recovered length and fill the hole
        if (len_acc as usize) < buf.len() {
            buf.truncate(len_acc as usize);
        }
        proof {
            assert(buf@ == spec_line_payload(self@.main, idxs, lr, pp@));
        }
        proof {
            let cg = old(self)@.cols;
            let rg = old(self)@.rows;
            assert((cg as nat) * (rg as nat) <= 65025) by (nonlinear_arith)
                requires
                    cg <= 255,
                    rg <= 255,
            ;
        }
        let seqno: u16 = (((self.base as usize) + first) % 0x10000) as u16;
        let emitted_payload = slice_to_vec(buf.as_slice());
        let ghost m_pre = self@;
        self.main[first] = Some(buf);
        out.push((seqno, emitted_payload));
        proof {
            assert(opts_view(self.main@) =~= m_pre.main.update(
                first as int,
                Some(spec_line_payload(m_pre.main, idxs, lr, pp@)),
            ));
            assert(pairs_view(out@) =~= pairs_view(old(out)@) + spec_try_line(
                old(self)@,
                idxs,
                Some((lr, pp@)),
            ).1);
        }
    }
}

} // verus!

// Recovery passes.

verus! {

impl FecMatrix {
    /// One repair attempt on every row, then every column.
    #[verifier::rlimit(100)]
    #[verifier::loop_isolation(false)]
    fn pass(&mut self, out: &mut Vec<(u16, Vec<u8>)>)
        requires
            matrix_wf(old(self)@),
        ensures
            matrix_wf(final(self)@),
            final(self)@ == spec_pass(old(self)@).0,
            pairs_view(final(out)@) == pairs_view(old(out)@) + spec_pass(old(self)@).1,
    {
        let ghost m0 = self@;
        let ghost n0 = pairs_view(out@).len() as int;
        let cols = self.cols as usize;
        let rows = self.rows as usize;
        let mut r: usize = 0;
        proof {
            assert(spec_pass_rows(m0, 0).1.subrange(0, 0) =~= Seq::<(u16, Seq<u8>)>::empty());
            assert(pairs_view(out@).skip(n0) =~= Seq::<(u16, Seq<u8>)>::empty());
        }
        while r < rows
            invariant
                r <= rows,
                matrix_wf(self@),
                self@.cols == m0.cols,
                self@.rows == m0.rows,
                self@.base == m0.base,
                self@.row_parity == m0.row_parity,
                self@.col_parity == m0.col_parity,
                pairs_view(out@).len() >= n0,
                pairs_view(out@).subrange(0, n0) == pairs_view(old(out)@),
                spec_pass_rows(m0, 0).0 == spec_pass_rows(self@, r as nat).0,
                spec_pass_rows(m0, 0).1 == pairs_view(out@).skip(n0) + spec_pass_rows(
                    self@,
                    r as nat,
                ).1,
            decreases rows - r,
        {
            let parity: Option<(u16, Vec<u8>)> = match &self.row_parity[r] {
                Some(p) => Some((p.0, slice_to_vec(p.1.as_slice()))),
                None => None,
            };
            proof {
                assert(r * cols + (cols - 1) < rows * cols && rows * cols == cols * rows && rows
                    * cols <= 65025) by (nonlinear_arith)
                    requires
                        0 <= r < rows,
                        cols >= 1,
                        rows <= 255,
                        cols <= 255,
                ;
                assert(row_slots(m0.cols, r as nat) =~= Seq::new(
                    cols as nat,
                    |j: int| (r * cols) as int + j * 1,
                ));
            }
            let ghost out_pre = out@;
            let ghost m_pre = self@;
            self.try_slots(r * cols, 1, cols, parity, out);
            proof {
                let tl = spec_try_line(m_pre, row_slots(m0.cols, r as nat), m_pre.row_parity[
                    r as int
                ]);
                assert(pairs_view(out@).subrange(0, n0) =~= pairs_view(old(out)@));
                assert(pairs_view(out@).skip(n0) =~= pairs_view(out_pre).skip(n0) + tl.1);
                assert((pairs_view(out_pre).skip(n0) + tl.1) + spec_pass_rows(
                    self@,
                    r as nat + 1,
                ).1 =~= pairs_view(out_pre).skip(n0) + (tl.1 + spec_pass_rows(
                    self@,
                    r as nat + 1,
                ).1));
            }
            r = r + 1;
        }
        let ghost m_mid = self@;
        let ghost rows_done = spec_pass_rows(m0, 0);
        proof {
            assert(rows_done.1 =~= pairs_view(out@).skip(n0) + Seq::<(u16, Seq<u8>)>::empty());
            assert(rows_done.1 =~= pairs_view(out@).skip(n0));
        }
        let mut c: usize = 0;
        while c < cols
            invariant
                c <= cols,
                matrix_wf(self@),
                self@.cols == m0.cols,
                self@.rows == m0.rows,
                self@.base == m0.base,
                self@.row_parity == m0.row_parity,
                self@.col_parity == m0.col_parity,
                pairs_view(out@).len() >= n0,
                pairs_view(out@).subrange(0, n0) == pairs_view(old(out)@),
                spec_pass_cols(m_mid, 0).0 == spec_pass_cols(self@, c as nat).0,
                rows_done.1 + spec_pass_cols(m_mid, 0).1 == pairs_view(out@).skip(n0)
                    + spec_pass_cols(self@, c as nat).1,
            decreases cols - c,
        {
            let parity: Option<(u16, Vec<u8>)> = match &self.col_parity[c] {
                Some(p) => Some((p.0, slice_to_vec(p.1.as_slice()))),
                None => None,
            };
            proof {
                assert(c + (rows - 1) * cols < rows * cols && rows * cols == cols * rows && rows
                    * cols <= 65025) by (nonlinear_arith)
                    requires
                        0 <= c < cols,
                        rows >= 1,
                        rows <= 255,
                        cols <= 255,
                ;
                assert(col_slots(m0.cols, m0.rows, c as nat) =~= Seq::new(
                    rows as nat,
                    |k: int| c as int + k * cols as int,
                ));
            }
            let ghost out_pre = out@;
            let ghost m_pre = self@;
            self.try_slots(c, cols, rows, parity, out);
            proof {
                let tl = spec_try_line(
                    m_pre,
                    col_slots(m0.cols, m0.rows, c as nat),
                    m_pre.col_parity[c as int],
                );
                assert(pairs_view(out@).subrange(0, n0) =~= pairs_view(old(out)@));
                assert(pairs_view(out@).skip(n0) =~= pairs_view(out_pre).skip(n0) + tl.1);
                assert((pairs_view(out_pre).skip(n0) + tl.1) + spec_pass_cols(
                    self@,
                    c as nat + 1,
                ).1 =~= pairs_view(out_pre).skip(n0) + (tl.1 + spec_pass_cols(
                    self@,
                    c as nat + 1,
                ).1));
                assert(rows_done.1 + (spec_pass_cols(m_mid, 0).1) == pairs_view(out_pre).skip(n0)
                    + spec_pass_cols(m_pre, c as nat).1);
            }
            c = c + 1;
        }
        proof {
            assert(rows_done.1 + spec_pass_cols(m_mid, 0).1 =~= pairs_view(out@).skip(n0) + Seq::<
                (u16, Seq<u8>),
            >::empty());
            assert(pairs_view(out@).skip(n0) =~= rows_done.1 + spec_pass_cols(m_mid, 0).1);
            assert(pairs_view(out@) =~= pairs_view(old(out)@) + spec_pass(m0).1);
        }
    }

    /// Repair everything the parities determine: runs one pass per
    /// matrix slot, so chains of repairs across rows and columns all
    /// complete.  Returns the repaired (sequence number, payload)
    /// pairs in the order they were reconstructed.
    #[verifier::loop_isolation(false)]
    pub fn recover(&mut self) -> (out: Vec<(u16, Vec<u8>)>)
        requires
            matrix_wf(old(self)@),
        ensures
            matrix_wf(final(self)@),
            final(self)@ == spec_recover_n(
                old(self)@,
                old(self)@.cols as nat * old(self)@.rows as nat,
            ).0,
            pairs_view(out@) == spec_recover_n(
                old(self)@,
                old(self)@.cols as nat * old(self)@.rows as nat,
            ).1,
    {
        let ghost m0 = self@;
        let mut out: Vec<(u16, Vec<u8>)> = Vec::new();
        proof {
            assert((self.cols as usize) * (self.rows as usize) <= 255 * 255) by (nonlinear_arith)
                requires
                    self.cols <= 255,
                    self.rows <= 255,
            ;
        }
        let total: usize = (self.cols as usize) * (self.rows as usize);
        let mut n: usize = 0;
        proof {
            assert(pairs_view(out@) =~= Seq::<(u16, Seq<u8>)>::empty());
        }
        while n < total
            invariant
                n <= total,
                matrix_wf(self@),
                spec_recover_n(m0, total as nat).0 == spec_recover_n(
                    self@,
                    (total - n) as nat,
                ).0,
                spec_recover_n(m0, total as nat).1 == pairs_view(out@) + spec_recover_n(
                    self@,
                    (total - n) as nat,
                ).1,
            decreases total - n,
        {
            let ghost m_pre = self@;
            let ghost out_pre = out@;
            self.pass(&mut out);
            proof {
                let p = spec_pass(m_pre);
                assert((pairs_view(out_pre) + p.1) + spec_recover_n(
                    self@,
                    (total - n - 1) as nat,
                ).1 =~= pairs_view(out_pre) + (p.1 + spec_recover_n(
                    self@,
                    (total - n - 1) as nat,
                ).1));
            }
            n = n + 1;
        }
        proof {
            assert(pairs_view(out@) =~= pairs_view(out@) + Seq::<(u16, Seq<u8>)>::empty());
        }
        out
    }
}

} // verus!
