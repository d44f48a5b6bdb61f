//! The exactness law for single-loss parity repair: a line whose
//! parity entry was built from the original payloads reconstructs the
//! missing payload byte for byte.

use vstd::prelude::*;
use crate::fec::{FecMatrixV, all_len, first_missing, missing_count, line_xor, spec_xor_pad,
    spec_line_payload, spec_try_line, xor_bytes, xor_all, zero_bytes, lemma_xor_all_len,
    lemma_xor_bytes_comm, lemma_xor_bytes_zero, lemma_xor_bytes_assoc, lemma_parity_recovers,
    row_slots, col_slots, spec_pass_rows, spec_pass_cols, spec_recover_n};


verus! {

/// Exclusive-or of the payload lengths of a family, as the 16-bit
/// length recovery field carries it.
pub open spec fn len_xor(ps: Seq<Seq<u8>>) -> u16
    decreases ps.len(),
{
    if ps.len() == 0 {
        0
    } else {
        (ps[0].len() as u16) ^ len_xor(ps.drop_first())
    }
}

pub proof fn lemma_len_xor_remove(ps: Seq<Seq<u8>>, k: int)
    requires
        0 <= k < ps.len(),
        all_len(ps, ps[k].len()),
    ensures
        len_xor(ps) == (ps[k].len() as u16) ^ len_xor(ps.remove(k)),
    decreases ps.len(),
{
    let l0 = ps[0].len() as u16;
    let rest = ps.drop_first();
    if k == 0 {
        assert(ps.remove(0) =~= rest);
        let r = len_xor(rest);
        assert(l0 ^ r == (l0 ^ r)) by (bit_vector);
    } else {
        assert(all_len(rest, rest[k - 1].len()));
        lemma_len_xor_remove(rest, k - 1);
        assert(ps.remove(k)[0] == ps[0]);
        assert(ps.remove(k).drop_first() =~= rest.remove(k - 1));
        let lk = ps[k].len() as u16;
        let rr = len_xor(rest.remove(k - 1));
        assert(l0 ^ (lk ^ rr) == lk ^ (l0 ^ rr)) by (bit_vector);
    }
}

/// No slot of the line is missing.
pub proof fn lemma_missing_count_zero(
    main: Seq<Option<Seq<u8>>>,
    idxs: Seq<int>,
)
    requires
        forall|j: int| 0 <= j < idxs.len() ==> !(main[#[trigger] idxs[j]] is None),
    ensures
        missing_count(main, idxs) == 0,
        first_missing(main, idxs) is None,
    decreases idxs.len(),
{
    if idxs.len() > 0 {
        assert forall|j: int| 0 <= j < idxs.drop_first().len() implies !(main[
            #[trigger] idxs.drop_first()[j]
        ] is None) by {
            assert(idxs.drop_first()[j] == idxs[j + 1]);
        }
        lemma_missing_count_zero(main, idxs.drop_first());
    }
}

/// Exactly the slot at position `k` of the line is missing.
pub proof fn lemma_missing_count_one(
    main: Seq<Option<Seq<u8>>>,
    idxs: Seq<int>,
    k: int,
)
    requires
        0 <= k < idxs.len(),
        main[idxs[k]] is None,
        forall|j: int| 0 <= j < idxs.len() && j != k ==> !(main[#[trigger] idxs[j]] is None),
    ensures
        missing_count(main, idxs) == 1,
        first_missing(main, idxs) == Some(idxs[k]),
    decreases idxs.len(),
{
    if k == 0 {
        assert forall|j: int| 0 <= j < idxs.drop_first().len() implies !(main[
            #[trigger] idxs.drop_first()[j]
        ] is None) by {
            assert(idxs.drop_first()[j] == idxs[j + 1]);
        }
        lemma_missing_count_zero(main, idxs.drop_first());
    } else {
        assert(!(main[idxs[0]] is None));
        assert forall|j: int|
            0 <= j < idxs.drop_first().len() && j != k - 1 implies !(main[
            #[trigger] idxs.drop_first()[j]
        ] is None) by {
            assert(idxs.drop_first()[j] == idxs[j + 1]);
        }
        assert(idxs.drop_first()[k - 1] == idxs[k]);
        lemma_missing_count_one(main, idxs.drop_first(), k - 1);
    }
}

/// Equal-length operands make padding irrelevant.
pub proof fn lemma_xor_pad_is_xor_bytes(a: Seq<u8>, b: Seq<u8>)
    requires
        a.len() == b.len(),
    ensures
        spec_xor_pad(a, b) == xor_bytes(a, b),
{
    assert(spec_xor_pad(a, b) =~= xor_bytes(a, b));
}

/// What the line fold computes when every slot but (possibly) one is
/// the corresponding member of `orig`: the accumulator folded with all
/// the present members, and the running length likewise.
pub proof fn lemma_line_xor_value(
    main: Seq<Option<Seq<u8>>>,
    idxs: Seq<int>,
    orig: Seq<Seq<u8>>,
    skip: int,
    acc: Seq<u8>,
    la: u16,
    len: nat,
)
    requires
        idxs.len() == orig.len(),
        all_len(orig, len),
        acc.len() == len,
        -1 <= skip < idxs.len(),
        skip >= 0 ==> main[idxs[skip]] is None,
        forall|j: int|
            0 <= j < idxs.len() && j != skip ==> main[#[trigger] idxs[j]] == Some(orig[j]),
    ensures
        ({
            let present = if skip >= 0 {
                orig.remove(skip)
            } else {
                orig
            };
            line_xor(main, idxs, acc, la) == (
                xor_bytes(acc, xor_all(present, len)),
                la ^ len_xor(present),
            )
        }),
    decreases idxs.len(),
{
    let present = if skip >= 0 {
        orig.remove(skip)
    } else {
        orig
    };
    assert(all_len(present, len));
    lemma_xor_all_len(present, len);
    if idxs.len() == 0 {
        assert(xor_bytes(acc, zero_bytes(len)) == acc) by {
            lemma_xor_bytes_comm(acc, zero_bytes(len));
            lemma_xor_bytes_zero(acc);
        }
        assert(la ^ 0 == la) by (bit_vector);
    } else {
        let ti = idxs.drop_first();
        let to = orig.drop_first();
        assert(all_len(to, len));
        if skip == 0 {
            assert forall|j: int| 0 <= j < ti.len() && j != -1 implies main[#[trigger] ti[j]]
                == Some(to[j]) by {
                assert(ti[j] == idxs[j + 1] && to[j] == orig[j + 1]);
            }
            lemma_line_xor_value(main, ti, to, -1, acc, la, len);
            assert(present =~= to);
        } else {
            let o0 = orig[0];
            assert(main[idxs[0]] == Some(o0));
            lemma_xor_pad_is_xor_bytes(acc, o0);
            let acc2 = xor_bytes(acc, o0);
            let la2 = la ^ (o0.len() as u16);
            let skip2: int = if skip >= 1 {
                skip - 1
            } else {
                -1
            };
            assert forall|j: int| 0 <= j < ti.len() && j != skip2 implies main[#[trigger] ti[j]]
                == Some(to[j]) by {
                assert(ti[j] == idxs[j + 1] && to[j] == orig[j + 1]);
            }
            if skip2 >= 0 {
                assert(ti[skip2] == idxs[skip]);
            }
            lemma_line_xor_value(main, ti, to, skip2, acc2, la2, len);
            let present2 = if skip2 >= 0 {
                to.remove(skip2)
            } else {
                to
            };
            // present == cons(o0, present2)
            assert(present[0] == o0);
            assert(present.drop_first() =~= present2);
            assert(xor_all(present, len) == xor_bytes(o0, xor_all(present2, len)));
            lemma_xor_bytes_assoc(acc, o0, xor_all(present2, len));
            assert(la2 ^ len_xor(present2) == la ^ len_xor(present)) by {
                let lo = o0.len() as u16;
                let lp = len_xor(present2);
                assert(len_xor(present) == lo ^ lp);
                assert((la ^ lo) ^ lp == la ^ (lo ^ lp)) by (bit_vector);
            }
        }
    }
}

/// Single-loss exactness: when a line's parity entry was built from the
/// original payloads (equal length, exclusive-or of bytes and lengths)
/// and exactly one of them is missing from the matrix, the repair
/// reconstructs that payload byte for byte and stores it in its slot.
#[verifier::rlimit(80)]
#[verifier::spinoff_prover]
pub proof fn lemma_single_loss_repair_exact(
    m: FecMatrixV,
    idxs: Seq<int>,
    orig: Seq<Seq<u8>>,
    k: int,
    len: nat,
)
    requires
        idxs.len() == orig.len(),
        all_len(orig, len),
        len <= 0xffff,
        0 <= k < idxs.len(),
        m.main[idxs[k]] is None,
        forall|j: int|
            0 <= j < idxs.len() && j != k ==> m.main[#[trigger] idxs[j]] == Some(orig[j]),
    ensures
        ({
            let parity = Some((len_xor(orig), xor_all(orig, len)));
            let r = spec_try_line(m, idxs, parity);
            &&& r.0.main == m.main.update(idxs[k], Some(orig[k]))
            &&& r.1 =~= seq![((((m.base as nat + idxs[k]) % 0x10000) as u16), orig[k])]
        }),
{
    lemma_missing_count_one(m.main, idxs, k);
    lemma_xor_all_len(orig, len);
    lemma_line_xor_value(m.main, idxs, orig, k, xor_all(orig, len), len_xor(orig), len);
    lemma_parity_recovers(orig, k, len);
    assert(all_len(orig.remove(k), len));
    assert(orig[k].len() == len);
    lemma_len_xor_remove(orig, k);
    let a: u16 = orig[k].len() as u16;
    let b: u16 = len_xor(orig.remove(k));
    assert((a ^ b) ^ b == a) by (bit_vector);
    assert(len_xor(orig) ^ b == a);
    assert(spec_line_payload(m.main, idxs, len_xor(orig), xor_all(orig, len)) == orig[k]);
}

} // verus!

// The impossibility law for double loss.

verus! {

/// A line with at least one hole.
pub proof fn lemma_missing_count_lower_one(main: Seq<Option<Seq<u8>>>, idxs: Seq<int>, p: int)
    requires
        0 <= p < idxs.len(),
        main[idxs[p]] is None,
    ensures
        missing_count(main, idxs) >= 1,
    decreases idxs.len(),
{
    if p > 0 {
        assert(idxs.drop_first()[p - 1] == idxs[p]);
        lemma_missing_count_lower_one(main, idxs.drop_first(), p - 1);
    }
}

/// A line with two distinct holes.
pub proof fn lemma_missing_count_lower_two(
    main: Seq<Option<Seq<u8>>>,
    idxs: Seq<int>,
    pa: int,
    pb: int,
)
    requires
        0 <= pa < idxs.len(),
        0 <= pb < idxs.len(),
        pa != pb,
        main[idxs[pa]] is None,
        main[idxs[pb]] is None,
    ensures
        missing_count(main, idxs) >= 2,
    decreases idxs.len(),
{
    let lo: int = if pa < pb {
        pa
    } else {
        pb
    };
    let hi: int = if pa < pb {
        pb
    } else {
        pa
    };
    if lo == 0 {
        assert(idxs.drop_first()[hi - 1] == idxs[hi]);
        lemma_missing_count_lower_one(main, idxs.drop_first(), hi - 1);
    } else {
        assert(idxs.drop_first()[lo - 1] == idxs[lo]);
        assert(idxs.drop_first()[hi - 1] == idxs[hi]);
        lemma_missing_count_lower_two(main, idxs.drop_first(), lo - 1, hi - 1);
    }
}

/// The slot a repair fills always belongs to the repaired line.
pub proof fn lemma_first_missing_member(main: Seq<Option<Seq<u8>>>, idxs: Seq<int>)
    ensures
        first_missing(main, idxs) matches Some(k) ==> exists|j: int|
            0 <= j < idxs.len() && #[trigger] idxs[j] == k,
        missing_count(main, idxs) >= 1 ==> first_missing(main, idxs) is Some,
    decreases idxs.len(),
{
    if idxs.len() > 0 {
        if main[idxs[0]] is None {
            assert(idxs[0] == first_missing(main, idxs).unwrap());
        } else {
            lemma_first_missing_member(main, idxs.drop_first());
            if let Some(k) = first_missing(main, idxs.drop_first()) {
                let j = choose|j: int|
                    0 <= j < idxs.drop_first().len() && #[trigger] idxs.drop_first()[j] == k;
                assert(idxs[j + 1] == k);
            }
        }
    }
}

/// One repair attempt cannot fill either of two given holes when its
/// line has no parity, contains both holes, or contains neither.
pub proof fn lemma_try_line_preserves_holes(
    m: FecMatrixV,
    idxs: Seq<int>,
    parity: Option<(u16, Seq<u8>)>,
    a: int,
    b: int,
)
    requires
        0 <= a < m.main.len(),
        0 <= b < m.main.len(),
        forall|j: int| 0 <= j < idxs.len() ==> 0 <= #[trigger] idxs[j] < m.main.len(),
        m.main[a] is None,
        m.main[b] is None,
        a != b,
        parity is None || (exists|pa: int, pb: int|
            0 <= pa < idxs.len() && 0 <= pb < idxs.len() && pa != pb && #[trigger] idxs[pa] == a
                && #[trigger] idxs[pb] == b) || (forall|j: int|
            0 <= j < idxs.len() ==> #[trigger] idxs[j] != a && idxs[j] != b),
    ensures
        ({
            let r = spec_try_line(m, idxs, parity);
            &&& r.0.main[a] is None
            &&& r.0.main[b] is None
            &&& r.0.main.len() == m.main.len()
            &&& r.0.cols == m.cols
            &&& r.0.rows == m.rows
            &&& r.0.base == m.base
            &&& r.0.row_parity == m.row_parity
            &&& r.0.col_parity == m.col_parity
        }),
{
    match parity {
        None => {},
        Some(_) => {
            if exists|pa: int, pb: int|
                0 <= pa < idxs.len() && 0 <= pb < idxs.len() && pa != pb && #[trigger] idxs[pa]
                    == a && #[trigger] idxs[pb] == b {
                let (pa, pb) = choose|pa: int, pb: int|
                    0 <= pa < idxs.len() && 0 <= pb < idxs.len() && pa != pb && #[trigger] idxs[pa]
                        == a && #[trigger] idxs[pb] == b;
                lemma_missing_count_lower_two(m.main, idxs, pa, pb);
            } else {
                if missing_count(m.main, idxs) == 1 {
                    lemma_first_missing_member(m.main, idxs);
                    let k = first_missing(m.main, idxs).unwrap();
                    let j0 = choose|j: int| 0 <= j < idxs.len() && #[trigger] idxs[j] == k;
                    assert(0 <= k < m.main.len());
                    assert(k != a && k != b);
                    assert(spec_try_line(m, idxs, parity).0.main[a] == m.main[a]);
                    assert(spec_try_line(m, idxs, parity).0.main[b] == m.main[b]);
                }
            }
        },
    }
}

/// A pass over the remaining rows cannot fill either hole of a
/// double-loss row.
pub proof fn lemma_pass_rows_preserves_holes(m: FecMatrixV, i: nat, r: nat, ja: nat, jb: nat)
    requires
        m.main.len() == m.cols as nat * m.rows as nat,
        r < m.rows as nat,
        ja < m.cols as nat,
        jb < m.cols as nat,
        ja != jb,
        m.main[(r * m.cols as nat + ja) as int] is None,
        m.main[(r * m.cols as nat + jb) as int] is None,
    ensures
        ({
            let p = spec_pass_rows(m, i);
            &&& p.0.main[(r * m.cols as nat + ja) as int] is None
            &&& p.0.main[(r * m.cols as nat + jb) as int] is None
            &&& p.0.main.len() == m.main.len()
            &&& p.0.cols == m.cols
            &&& p.0.rows == m.rows
            &&& p.0.base == m.base
            &&& p.0.row_parity == m.row_parity
            &&& p.0.col_parity == m.col_parity
        }),
    decreases m.rows as nat - i,
{
    let cols = m.cols as nat;
    let a: int = (r * cols + ja) as int;
    let b: int = (r * cols + jb) as int;
    assert(r * cols + ja < m.rows as nat * cols && r * cols + jb < m.rows as nat
        * cols) by (nonlinear_arith)
        requires
            r < m.rows as nat,
            ja < cols,
            jb < cols,
    ;
    assert(cols * (m.rows as nat) == (m.rows as nat) * cols) by (nonlinear_arith);
    if i < m.rows as nat {
        let idxs = row_slots(m.cols, i);
        assert forall|j: int| 0 <= j < idxs.len() implies 0 <= #[trigger] idxs[j]
            < m.main.len() by {
            assert(i * cols + j < m.rows as nat * cols) by (nonlinear_arith)
                requires
                    i < m.rows as nat,
                    0 <= j < cols,
            ;
        }
        if i == r {
            assert(idxs[ja as int] == a && idxs[jb as int] == b);
        } else {
            assert forall|j: int| 0 <= j < idxs.len() implies #[trigger] idxs[j] != a && idxs[j]
                != b by {
                assert(i * cols + j != r * cols + ja && i * cols + j != r * cols
                    + jb) by (nonlinear_arith)
                    requires
                        i != r,
                        0 <= j < cols,
                        ja < cols,
                        jb < cols,
                ;
            }
        }
        lemma_try_line_preserves_holes(m, idxs, m.row_parity[i as int], a, b);
        let m1 = spec_try_line(m, idxs, m.row_parity[i as int]).0;
        lemma_pass_rows_preserves_holes(m1, i + 1, r, ja, jb);
    }
}

/// A pass over the remaining columns cannot fill either hole when no
/// column parity covers them.
pub proof fn lemma_pass_cols_preserves_holes(m: FecMatrixV, i: nat, r: nat, ja: nat, jb: nat)
    requires
        m.main.len() == m.cols as nat * m.rows as nat,
        r < m.rows as nat,
        ja < m.cols as nat,
        jb < m.cols as nat,
        ja != jb,
        m.main[(r * m.cols as nat + ja) as int] is None,
        m.main[(r * m.cols as nat + jb) as int] is None,
        m.col_parity[ja as int] is None,
        m.col_parity[jb as int] is None,
    ensures
        ({
            let p = spec_pass_cols(m, i);
            &&& p.0.main[(r * m.cols as nat + ja) as int] is None
            &&& p.0.main[(r * m.cols as nat + jb) as int] is None
            &&& p.0.main.len() == m.main.len()
            &&& p.0.cols == m.cols
            &&& p.0.rows == m.rows
            &&& p.0.base == m.base
            &&& p.0.row_parity == m.row_parity
            &&& p.0.col_parity == m.col_parity
        }),
    decreases m.cols as nat - i,
{
    let cols = m.cols as nat;
    let a: int = (r * cols + ja) as int;
    let b: int = (r * cols + jb) as int;
    assert(r * cols + ja < m.rows as nat * cols && r * cols + jb < m.rows as nat
        * cols) by (nonlinear_arith)
        requires
            r < m.rows as nat,
            ja < cols,
            jb < cols,
    ;
    assert(cols * (m.rows as nat) == (m.rows as nat) * cols) by (nonlinear_arith);
    if i < cols {
        let idxs = col_slots(m.cols, m.rows, i);
        assert forall|j: int| 0 <= j < idxs.len() implies 0 <= #[trigger] idxs[j]
            < m.main.len() by {
            assert(i + j * cols < m.rows as nat * cols) by (nonlinear_arith)
                requires
                    i < cols,
                    0 <= j < m.rows as nat,
                    cols >= 1,
            ;
        }
        if i == ja || i == jb {
            assert(m.col_parity[i as int] is None);
        } else {
            assert forall|j: int| 0 <= j < idxs.len() implies #[trigger] idxs[j] != a && idxs[j]
                != b by {
                assert(i + j * cols != ja + r * cols && i + j * cols != jb + r
                    * cols) by (nonlinear_arith)
                    requires
                        i != ja,
                        i != jb,
                        i < cols,
                        ja < cols,
                        jb < cols,
                        0 <= j,
                        0 <= r,
                ;
            }
        }
        lemma_try_line_preserves_holes(m, idxs, m.col_parity[i as int], a, b);
        let m1 = spec_try_line(m, idxs, m.col_parity[i as int]).0;
        lemma_pass_cols_preserves_holes(m1, i + 1, r, ja, jb);
    }
}

/// Two losses in one row with no column parity over either stay lost:
/// no number of recovery passes ever delivers them.
pub proof fn lemma_double_loss_unrepairable(m: FecMatrixV, r: nat, ja: nat, jb: nat, n: nat)
    requires
        m.main.len() == m.cols as nat * m.rows as nat,
        r < m.rows as nat,
        ja < m.cols as nat,
        jb < m.cols as nat,
        ja != jb,
        m.main[(r * m.cols as nat + ja) as int] is None,
        m.main[(r * m.cols as nat + jb) as int] is None,
        m.col_parity[ja as int] is None,
        m.col_parity[jb as int] is None,
    ensures
        spec_recover_n(m, n).0.main[(r * m.cols as nat + ja) as int] is None,
        spec_recover_n(m, n).0.main[(r * m.cols as nat + jb) as int] is None,
    decreases n,
{
    if n > 0 {
        lemma_pass_rows_preserves_holes(m, 0, r, ja, jb);
        let m1 = spec_pass_rows(m, 0).0;
        lemma_pass_cols_preserves_holes(m1, 0, r, ja, jb);
        let m2 = spec_pass_cols(m1, 0).0;
        lemma_double_loss_unrepairable(m2, r, ja, jb, (n - 1) as nat);
    }
}

} // verus!
