//! Stabilizer tableau engine.
//!
//! A state over `n` qubits is held as `2n` rows: rows `0..n` are the
//! current stabilizer generators, rows `n..2n` are bookkeeping rows for
//! measurement.  Each row packs an X bit and a Z bit per qubit into
//! `u64` blocks (block `k` holds qubits `64k..64k+64`) plus one phase
//! bit.  Every gate rule reads the row's old bit values before writing,
//! so no read-modify-write ordering can corrupt a row.

use vstd::prelude::*;
use vstd::pervasive::VecAdditionalExecFns;

verus! {

/// Largest supported qubit count for the tableau representation.
pub const MAX_TABLEAU_QUBITS: usize = 0x1000_0000;

/// Bit `q` of a packed mask vector.
pub open spec fn mask_bit(m: Seq<u64>, q: usize) -> bool {
    (m[(q / 64) as int] >> ((q % 64) as u64)) & 1u64 == 1u64
}

/// One tableau row: an X mask, a Z mask, and a sign bit.
pub struct Row {
    pub xmask: Vec<u64>,
    pub zmask: Vec<u64>,
    pub phase: bool,
}

/// X bit of row `r` at qubit `q`.
pub open spec fn row_x(r: Row, q: usize) -> bool {
    mask_bit(r.xmask@, q)
}

/// Z bit of row `r` at qubit `q`.
pub open spec fn row_z(r: Row, q: usize) -> bool {
    mask_bit(r.zmask@, q)
}

/// Number of `u64` blocks needed for `n` qubits.
pub open spec fn chunk_count(n: usize) -> int {
    ((n + 63) / 64) as int
}

/// How one Hadamard on qubit `q` rewrites a row: X and Z at `q` swap,
/// the sign flips when both were set, every other qubit is untouched.
pub open spec fn h_row(pre: Row, post: Row, q: usize, n: usize) -> bool {
    &&& row_x(post, q) == row_z(pre, q)
    &&& row_z(post, q) == row_x(pre, q)
    &&& post.phase == (pre.phase != (row_x(pre, q) && row_z(pre, q)))
    &&& forall|q2: usize|
        q2 < n && q2 != q ==> #[trigger] row_x(post, q2) == row_x(pre, q2) && row_z(post, q2)
            == row_z(pre, q2)
}

/// How one S gate on qubit `q` rewrites a row: Z at `q` becomes
/// `Z xor X`, the sign flips when X and Z were both set, every other
/// qubit is untouched.
pub open spec fn s_row(pre: Row, post: Row, q: usize, n: usize) -> bool {
    &&& row_x(post, q) == row_x(pre, q)
    &&& row_z(post, q) == (row_z(pre, q) != row_x(pre, q))
    &&& post.phase == (pre.phase != (row_x(pre, q) && row_z(pre, q)))
    &&& forall|q2: usize|
        q2 < n && q2 != q ==> #[trigger] row_x(post, q2) == row_x(pre, q2) && row_z(post, q2)
            == row_z(pre, q2)
}

/// How one CNOT rewrites a row, per the conjugation rule
/// `X_c -> X_c X_t`, `Z_t -> Z_c Z_t`, with `X_t` and `Z_c` unchanged:
/// the target X bit is toggled by the control's X bit and the control Z
/// bit by the target's Z bit, both read from the pre-update values, and
/// the sign absorbs the anticommutation correction
/// `x_c * z_t * (x_t xor z_c xor 1)`.
pub open spec fn cnot_row(pre: Row, post: Row, c: usize, t: usize, n: usize) -> bool {
    &&& row_x(post, t) == (row_x(pre, t) != row_x(pre, c))
    &&& row_z(post, t) == row_z(pre, t)
    &&& row_x(post, c) == row_x(pre, c)
    &&& row_z(post, c) == (row_z(pre, c) != row_z(pre, t))
    &&& post.phase == (pre.phase != (row_x(pre, c) && row_z(pre, t) && (row_x(pre, t) == row_z(
        pre,
        c,
    ))))
    &&& forall|q2: usize|
        q2 < n && q2 != c && q2 != t ==> #[trigger] row_x(post, q2) == row_x(pre, q2) && row_z(
            post,
            q2,
        ) == row_z(pre, q2)
}

/// `(w & (1 << b)) != 0` tests the same bit as `(w >> b) & 1 == 1`.
proof fn lemma_test_bit(w: u64, b: u64)
    requires
        b < 64,
    ensures
        ((w & (1u64 << b)) != 0) == ((w >> b) & 1u64 == 1u64),
{
    assert(b < 64 ==> ((w & (1u64 << b)) != 0) == ((w >> b) & 1u64 == 1u64)) by (bit_vector);
}

/// Toggling one packed bit flips exactly that qubit's bit and no other.
proof fn lemma_mask_toggle(m: Seq<u64>, q: usize, n: usize)
    requires
        m.len() == chunk_count(n),
        q < n,
        n <= MAX_TABLEAU_QUBITS,
    ensures
        ({
            let m2 = m.update((q / 64) as int, m[(q / 64) as int] ^ (1u64 << ((q % 64) as u64)));
            &&& mask_bit(m2, q) == !mask_bit(m, q)
            &&& forall|q2: usize| q2 < n && q2 != q ==> #[trigger] mask_bit(m2, q2) == mask_bit(
                m,
                q2,
            )
        }),
{
    assert(0 <= q / 64 < chunk_count(n) && q % 64 < 64) by (nonlinear_arith)
        requires
            q < n,
            n <= MAX_TABLEAU_QUBITS,
    ;
    let m2 = m.update((q / 64) as int, m[(q / 64) as int] ^ (1u64 << ((q % 64) as u64)));
    let w = m[(q / 64) as int];
    let qb = (q % 64) as u64;
    assert(qb < 64 ==> (((w ^ (1u64 << qb)) >> qb) & 1u64 == 1u64) == !((w >> qb) & 1u64 == 1u64))
        by (bit_vector);
    assert forall|q2: usize| q2 < n && q2 != q implies #[trigger] mask_bit(m2, q2) == mask_bit(
        m,
        q2,
    ) by {
        assert(0 <= q2 / 64 < chunk_count(n) && q2 % 64 < 64) by (nonlinear_arith)
            requires
                q2 < n,
                n <= MAX_TABLEAU_QUBITS,
        ;
        if q2 / 64 == q / 64 {
            assert(q2 == 64 * (q2 / 64) + q2 % 64);
            assert(q == 64 * (q / 64) + q % 64);
            assert(q2 % 64 != q % 64);
            let q2b = (q2 % 64) as u64;
            assert(qb < 64 && q2b < 64 && q2b != qb ==> (((w ^ (1u64 << qb)) >> q2b) & 1u64) == ((w
                >> q2b) & 1u64)) by (bit_vector);
        } else {
            assert(m2[(q2 / 64) as int] == m[(q2 / 64) as int]);
        }
    }
}

/// A fresh tableau for `n` qubits: row `q` of the stabilizer half is
/// the `Z_q` generator, all signs positive, the bookkeeping half empty.
pub open spec fn tab_init(t: Tableau, n: usize) -> bool {
    &&& t.wf()
    &&& t.num_qubits == n
    &&& forall|row: int, q: usize|
        0 <= row < 2 * n && q < n ==> #[trigger] row_x(t.data@[row], q) == false
    &&& forall|row: int, q: usize|
        0 <= row < 2 * n && q < n ==> #[trigger] row_z(t.data@[row], q) == (row == q)
    &&& forall|row: int| 0 <= row < 2 * n ==> !(#[trigger] t.data@[row]).phase
}

/// How one Hadamard on `q` relates the old tableau to the new one.
pub open spec fn tab_h(pre: Tableau, post: Tableau, q: usize) -> bool {
    &&& post.wf()
    &&& post.num_qubits == pre.num_qubits
    &&& post.data@.len() == pre.data@.len()
    &&& forall|r: int|
        0 <= r < pre.data@.len() ==> h_row(pre.data@[r], #[trigger] post.data@[r], q, pre.num_qubits)
}

/// How one S gate on `q` relates the old tableau to the new one.
pub open spec fn tab_s(pre: Tableau, post: Tableau, q: usize) -> bool {
    &&& post.wf()
    &&& post.num_qubits == pre.num_qubits
    &&& post.data@.len() == pre.data@.len()
    &&& forall|r: int|
        0 <= r < pre.data@.len() ==> s_row(pre.data@[r], #[trigger] post.data@[r], q, pre.num_qubits)
}

/// How one CNOT relates the old tableau to the new one.
pub open spec fn tab_cnot(pre: Tableau, post: Tableau, c: usize, t: usize) -> bool {
    &&& post.wf()
    &&& post.num_qubits == pre.num_qubits
    &&& post.data@.len() == pre.data@.len()
    &&& forall|r: int|
        0 <= r < pre.data@.len() ==> cnot_row(
            pre.data@[r],
            #[trigger] post.data@[r],
            c,
            t,
            pre.num_qubits,
        )
}

/// Row `post_r` is `pre_r` multiplied by the row `m`: both bit masks
/// are XORed and the signs combine.  This is the group-product step of
/// measurement; multiplying a row by an anticommuting row clears the
/// shared X bit on the measured qubit.
pub open spec fn row_mult(pre_r: Row, post_r: Row, m: Row, n: usize) -> bool {
    &&& forall|q2: usize|
        q2 < n ==> #[trigger] row_x(post_r, q2) == (row_x(pre_r, q2) != row_x(m, q2))
    &&& forall|q2: usize|
        q2 < n ==> #[trigger] row_z(post_r, q2) == (row_z(pre_r, q2) != row_z(m, q2))
    &&& post_r.phase == (pre_r.phase != m.phase)
}

/// Word-wise XOR of two packed masks XORs every qubit's bit.
proof fn lemma_vec_xor_bits(a: Seq<u64>, b: Seq<u64>, c: Seq<u64>, n: usize)
    requires
        a.len() == chunk_count(n),
        b.len() == chunk_count(n),
        c.len() == chunk_count(n),
        n <= MAX_TABLEAU_QUBITS,
        forall|ti: int| 0 <= ti < c.len() ==> #[trigger] c[ti] == (a[ti] ^ b[ti]),
    ensures
        forall|q2: usize|
            q2 < n ==> #[trigger] mask_bit(c, q2) == (mask_bit(a, q2) != mask_bit(b, q2)),
{
    assert forall|q2: usize| q2 < n implies #[trigger] mask_bit(c, q2) == (mask_bit(a, q2)
        != mask_bit(b, q2)) by {
        assert(0 <= q2 / 64 < chunk_count(n) && q2 % 64 < 64) by (nonlinear_arith)
            requires
                q2 < n,
                n <= MAX_TABLEAU_QUBITS,
        ;
        let wa = a[(q2 / 64) as int];
        let wb = b[(q2 / 64) as int];
        let bit = (q2 % 64) as u64;
        assert(bit < 64 ==> ((((wa ^ wb) >> bit) & 1u64 == 1u64) == (((wa >> bit) & 1u64 == 1u64)
            != ((wb >> bit) & 1u64 == 1u64)))) by (bit_vector);
    }
}

/// Some row of `t` anticommutes with a Z measurement of `q`.
pub open spec fn has_x_row(t: Tableau, q: usize) -> bool {
    exists|r: int| 0 <= r < t.data@.len() && row_x(#[trigger] t.data@[r], q)
}

/// `p` is the first row of `t` whose X bit at `q` is set.
pub open spec fn is_first_x_row(t: Tableau, q: usize, p: int) -> bool {
    &&& 0 <= p < t.data@.len()
    &&& row_x(t.data@[p], q)
    &&& forall|r: int| 0 <= r < p ==> !row_x(#[trigger] t.data@[r], q)
}

/// `p` is the first stabilizer row (the first half) of `t` whose Z bit
/// at `q` is set.
pub open spec fn is_first_stab_z_row(t: Tableau, q: usize, p: int) -> bool {
    &&& 0 <= p < t.num_qubits
    &&& row_z(t.data@[p], q)
    &&& forall|r: int| 0 <= r < p ==> !row_z(#[trigger] t.data@[r], q)
}

/// What collapsing on the anticommuting row `p` does: row `p` becomes
/// the pure `Z_q` generator signed by `coin`, every other row whose X
/// bit at `q` is set is multiplied by row `p`'s pre-replacement content
/// — which clears its X bit at `q`, so the group again determines a Z
/// measurement of `q` — and the rest stand still.
pub open spec fn collapse_rows(pre: Tableau, post: Tableau, q: usize, coin: bool, p: int) -> bool {
    &&& post.data@.len() == pre.data@.len()
    &&& forall|q2: usize|
        q2 < pre.num_qubits ==> #[trigger] row_x(post.data@[p], q2) == false && row_z(
            post.data@[p],
            q2,
        ) == (q2 == q)
    &&& post.data@[p].phase == coin
    &&& forall|r: int|
        0 <= r < pre.data@.len() && r != p && row_x(#[trigger] pre.data@[r], q) ==> row_mult(
            pre.data@[r],
            post.data@[r],
            pre.data@[p],
            pre.num_qubits,
        )
    &&& forall|r: int|
        0 <= r < pre.data@.len() && r != p && !row_x(#[trigger] pre.data@[r], q) ==> post.data@[r]
            == pre.data@[r]
}

/// Full contract of one Z measurement of qubit `q` given the coin draw:
/// with an anticommuting row present the outcome is the coin and the
/// tableau collapses on the first such row; otherwise the tableau is
/// untouched and the outcome is the sign of the first stabilizer row
/// carrying `Z_q`, `false` when there is none.
pub open spec fn measure_post(
    pre: Tableau,
    post: Tableau,
    q: usize,
    coin: bool,
    outcome: bool,
) -> bool {
    if has_x_row(pre, q) {
        &&& outcome == coin
        &&& post.num_qubits == pre.num_qubits
        &&& exists|p: int| #[trigger] is_first_x_row(pre, q, p) && collapse_rows(
            pre,
            post,
            q,
            coin,
            p,
        )
    } else {
        &&& post.data@ == pre.data@
        &&& post.num_qubits == pre.num_qubits
        &&& ((exists|p: int| #[trigger] is_first_stab_z_row(pre, q, p) && outcome
            == pre.data@[p].phase) || ((forall|r: int|
            0 <= r < pre.num_qubits ==> !row_z(#[trigger] pre.data@[r], q)) && outcome == false))
    }
}

/// XOR `src` into `dst` element by element over the shared prefix, the
/// row-combination step in unpacked (one bool per qubit) form.
pub fn xor_row(dst: &mut Vec<bool>, src: &Vec<bool>)
    ensures
        final(dst)@.len() == old(dst)@.len(),
        forall|i: int|
            0 <= i < old(dst)@.len() && i < src@.len() ==> final(dst)@[i] == (old(dst)@[i]
                != src@[i]),
        forall|i: int|
            src@.len() <= i < old(dst)@.len() ==> final(dst)@[i] == old(dst)@[i],
{
    let mut i: usize = 0;
    let dlen = dst.len();
    let slen = src.len();
    while i < dlen && i < slen
        invariant
            i <= dlen,
            i <= slen,
            dlen == dst@.len(),
            slen == src@.len(),
            forall|t: int| 0 <= t < i ==> dst@[t] == (old(dst)@[t] != src@[t]),
            forall|t: int| i <= t < dlen ==> dst@[t] == old(dst)@[t],
        decreases dlen - i,
    {
        let v = dst[i] != src[i];
        dst.set(i, v);
        i = i + 1;
    }
}

/// Bit-packed tableau of `2 * num_qubits` rows.
pub struct Tableau {
    pub num_qubits: usize,
    pub data: Vec<Row>,
}

impl Tableau {
    /// Shape invariant: `2n` rows, each with a full set of blocks.
    pub open spec fn wf(self) -> bool {
        &&& self.num_qubits <= MAX_TABLEAU_QUBITS
        &&& self.data@.len() == 2 * self.num_qubits
        &&& forall|r: int|
            0 <= r < self.data@.len() ==> (#[trigger] self.data@[r]).xmask@.len() == chunk_count(
                self.num_qubits,
            ) && self.data@[r].zmask@.len() == chunk_count(self.num_qubits)
    }

    /// Fresh tableau for the state `|0...0>`: row `q` of the stabilizer
    /// half is the Z generator on qubit `q` with positive sign; the
    /// bookkeeping half starts empty.  An `X_q` initialization of the
    /// bookkeeping rows would contradict the measurement rule, which
    /// scans all `2n` rows for an X bit: a fresh register would then
    /// measure randomly instead of giving the determined outcome 0, so
    /// the bookkeeping rows start empty.
    pub fn new(num_qubits: usize) -> (r: Tableau)
        requires
            num_qubits <= MAX_TABLEAU_QUBITS,
        ensures
            tab_init(r, num_qubits),
            r.wf(),
            r.num_qubits == num_qubits,
            forall|row: int, q: usize|
                0 <= row < 2 * num_qubits && q < num_qubits ==> #[trigger] row_x(r.data@[row], q) == false,
            forall|row: int, q: usize|
                0 <= row < 2 * num_qubits && q < num_qubits ==> #[trigger] row_z(r.data@[row], q) == (row == q),
            forall|row: int| 0 <= row < 2 * num_qubits ==> !(#[trigger] r.data@[row]).phase,
    {
        let chunks = (num_qubits + 63) / 64;
        let mut data: Vec<Row> = Vec::new();
        let mut r: usize = 0;
        while r < 2 * num_qubits
            invariant
                r <= 2 * num_qubits,
                num_qubits <= MAX_TABLEAU_QUBITS,
                data@.len() == r,
                chunks == chunk_count(num_qubits),
                forall|i: int|
                    0 <= i < r ==> (#[trigger] data@[i]).xmask@.len() == chunk_count(num_qubits)
                        && data@[i].zmask@.len() == chunk_count(num_qubits),
                forall|i: int, q: usize|
                    0 <= i < r && q < num_qubits ==> #[trigger] row_x(data@[i], q) == false,
                forall|i: int, q: usize|
                    0 <= i < r && q < num_qubits ==> #[trigger] row_z(data@[i], q) == (i == q),
                forall|i: int| 0 <= i < r ==> !(#[trigger] data@[i]).phase,
            decreases 2 * num_qubits - r,
        {
            let mut xmask: Vec<u64> = Vec::new();
            let mut zmask: Vec<u64> = Vec::new();
            let mut c: usize = 0;
            while c < chunks
                invariant
                    c <= chunks,
                    xmask@.len() == c,
                    zmask@.len() == c,
                    forall|t: int| 0 <= t < c ==> xmask@[t] == 0u64 && zmask@[t] == 0u64,
                decreases chunks - c,
            {
                xmask.push(0);
                zmask.push(0);
                c = c + 1;
            }
            if r < num_qubits {
                let chunk = r / 64;
                let bit = r % 64;
                proof {
                    assert(r / 64 < chunk_count(num_qubits) && r % 64 < 64) by (nonlinear_arith)
                        requires
                            r < num_qubits,
                    ;
                }
                zmask.set(chunk, 1u64 << (bit as u64));
            }
            let row = Row { xmask, zmask, phase: false };
            proof {
                assert forall|q: usize| q < num_qubits implies !row_x(row, q) && (row_z(row, q) == (
                r == q)) by {
                    assert(0 <= q / 64 < chunk_count(num_qubits) && q % 64 < 64)
                        by (nonlinear_arith)
                        requires
                            q < num_qubits,
                            num_qubits <= MAX_TABLEAU_QUBITS,
                    ;
                    assert((0u64 >> ((q % 64) as u64)) & 1u64 == 0u64) by (bit_vector);
                    if r < num_qubits {
                        let rb = (r % 64) as u64;
                        let qb = (q % 64) as u64;
                        assert(rb < 64 && qb < 64 ==> (((1u64 << rb) >> qb) & 1u64 == 1u64) == (rb
                            == qb)) by (bit_vector);
                        if q / 64 == r / 64 {
                            assert(q == 64 * (q / 64) + q % 64);
                            assert(r == 64 * (r / 64) + r % 64);
                            assert(q % 64 == r % 64 ==> q == r);
                        }
                    }
                }
            }
            data.push(row);
            r = r + 1;
        }
        Tableau { num_qubits, data }
    }

    /// X bit of row `row` at qubit `qubit`.
    pub fn x_bit(&self, row: usize, qubit: usize) -> (r: bool)
        requires
            self.wf(),
            row < 2 * self.num_qubits,
            qubit < self.num_qubits,
        ensures
            r == row_x(self.data@[row as int], qubit),
    {
        proof {
            assert(0 <= qubit / 64 < chunk_count(self.num_qubits) && qubit % 64 < 64)
                by (nonlinear_arith)
                requires
                    qubit < self.num_qubits,
                    self.num_qubits <= MAX_TABLEAU_QUBITS,
            ;
        }
        let chunk = qubit / 64;
        let bit = qubit % 64;
        (self.data[row].xmask[chunk] >> (bit as u64)) & 1 == 1
    }

    /// Z bit of row `row` at qubit `qubit`.
    pub fn z_bit(&self, row: usize, qubit: usize) -> (r: bool)
        requires
            self.wf(),
            row < 2 * self.num_qubits,
            qubit < self.num_qubits,
        ensures
            r == row_z(self.data@[row as int], qubit),
    {
        proof {
            assert(0 <= qubit / 64 < chunk_count(self.num_qubits) && qubit % 64 < 64)
                by (nonlinear_arith)
                requires
                    qubit < self.num_qubits,
                    self.num_qubits <= MAX_TABLEAU_QUBITS,
            ;
        }
        let chunk = qubit / 64;
        let bit = qubit % 64;
        (self.data[row].zmask[chunk] >> (bit as u64)) & 1 == 1
    }

    /// Hadamard on `qubit`: in every row the X and Z bits at `qubit`
    /// trade places, and the sign flips when both were set.
    pub fn apply_h(&mut self, qubit: usize)
        requires
            old(self).wf(),
            qubit < old(self).num_qubits,
        ensures
            final(self).wf(),
            final(self).num_qubits == old(self).num_qubits,
            forall|r: int|
                0 <= r < old(self).data@.len() ==> h_row(
                    old(self).data@[r],
                    #[trigger] final(self).data@[r],
                    qubit,
                    old(self).num_qubits,
                ),
            tab_h(*old(self), *final(self), qubit),
    {
        let ghost n = self.num_qubits;
        proof {
            assert(0 <= qubit / 64 < chunk_count(n) && qubit % 64 < 64) by (nonlinear_arith)
                requires
                    qubit < n,
                    n <= MAX_TABLEAU_QUBITS,
            ;
        }
        let chunk = qubit / 64;
        let bit = qubit % 64;
        let mask = 1u64 << (bit as u64);
        let rows = 2 * self.num_qubits;
        let mut r: usize = 0;
        while r < rows
            invariant
                r <= rows,
                self.num_qubits == n,
                self.wf(),
                qubit < n,
                rows == 2 * n,
                chunk == qubit / 64,
                bit == qubit % 64,
                mask == 1u64 << ((qubit % 64) as u64),
                forall|i: int|
                    0 <= i < r ==> h_row(old(self).data@[i], #[trigger] self.data@[i], qubit, n),
                forall|i: int| r <= i < rows ==> #[trigger] self.data@[i] == old(self).data@[i],
            decreases rows - r,
        {
            let mut row = Row { xmask: Vec::new(), zmask: Vec::new(), phase: false };
            self.data.set_and_swap(r, &mut row);
            let ghost pre = row;
            let x_set = (row.xmask[chunk] & mask) != 0;
            let z_set = (row.zmask[chunk] & mask) != 0;
            proof {
                lemma_test_bit(row.xmask@[chunk as int], (bit as u64));
                lemma_test_bit(row.zmask@[chunk as int], (bit as u64));
                assert(x_set == row_x(pre, qubit) && z_set == row_z(pre, qubit));
            }
            if x_set && z_set {
                row.phase = !row.phase;
            }
            if x_set != z_set {
                proof {
                    lemma_mask_toggle(row.xmask@, qubit, n);
                    lemma_mask_toggle(row.zmask@, qubit, n);
                }
                let xv = row.xmask[chunk] ^ mask;
                row.xmask.set(chunk, xv);
                let zv = row.zmask[chunk] ^ mask;
                row.zmask.set(chunk, zv);
            }
            proof {
                assert(h_row(pre, row, qubit, n));
            }
            self.data.set_and_swap(r, &mut row);
            r = r + 1;
        }
    }

    /// Phase gate S on `qubit`: in every row with the X bit set, the Z
    /// bit is toggled, and the sign flips when Z was already set.
    pub fn apply_s(&mut self, qubit: usize)
        requires
            old(self).wf(),
            qubit < old(self).num_qubits,
        ensures
            final(self).wf(),
            final(self).num_qubits == old(self).num_qubits,
            forall|r: int|
                0 <= r < old(self).data@.len() ==> s_row(
                    old(self).data@[r],
                    #[trigger] final(self).data@[r],
                    qubit,
                    old(self).num_qubits,
                ),
            tab_s(*old(self), *final(self), qubit),
    {
        let ghost n = self.num_qubits;
        proof {
            assert(0 <= qubit / 64 < chunk_count(n) && qubit % 64 < 64) by (nonlinear_arith)
                requires
                    qubit < n,
                    n <= MAX_TABLEAU_QUBITS,
            ;
        }
        let chunk = qubit / 64;
        let bit = qubit % 64;
        let mask = 1u64 << (bit as u64);
        let rows = 2 * self.num_qubits;
        let mut r: usize = 0;
        while r < rows
            invariant
                r <= rows,
                self.num_qubits == n,
                self.wf(),
                qubit < n,
                rows == 2 * n,
                chunk == qubit / 64,
                bit == qubit % 64,
                mask == 1u64 << ((qubit % 64) as u64),
                forall|i: int|
                    0 <= i < r ==> s_row(old(self).data@[i], #[trigger] self.data@[i], qubit, n),
                forall|i: int| r <= i < rows ==> #[trigger] self.data@[i] == old(self).data@[i],
            decreases rows - r,
        {
            let mut row = Row { xmask: Vec::new(), zmask: Vec::new(), phase: false };
            self.data.set_and_swap(r, &mut row);
            let ghost pre = row;
            let x_set = (row.xmask[chunk] & mask) != 0;
            let z_set = (row.zmask[chunk] & mask) != 0;
            proof {
                lemma_test_bit(row.xmask@[chunk as int], (bit as u64));
                lemma_test_bit(row.zmask@[chunk as int], (bit as u64));
                assert(x_set == row_x(pre, qubit) && z_set == row_z(pre, qubit));
            }
            if x_set {
                proof {
                    lemma_mask_toggle(row.zmask@, qubit, n);
                }
                let zv = row.zmask[chunk] ^ mask;
                row.zmask.set(chunk, zv);
                if z_set {
                    row.phase = !row.phase;
                }
            }
            proof {
                assert(s_row(pre, row, qubit, n));
            }
            self.data.set_and_swap(r, &mut row);
            r = r + 1;
        }
    }

    /// Controlled-NOT: for every row, per the conjugation rule
    /// `X_c -> X_c X_t`, `Z_t -> Z_c Z_t` (with `X_t` and `Z_c`
    /// unchanged), the target X bit is toggled by the control's X bit
    /// and the control Z bit by the target's Z bit, with the sign
    /// correction for the anticommuting case, all read before any
    /// write.
    pub fn apply_cnot(&mut self, control: usize, target: usize)
        requires
            old(self).wf(),
            control < old(self).num_qubits,
            target < old(self).num_qubits,
            control != target,
        ensures
            final(self).wf(),
            final(self).num_qubits == old(self).num_qubits,
            forall|r: int|
                0 <= r < old(self).data@.len() ==> cnot_row(
                    old(self).data@[r],
                    #[trigger] final(self).data@[r],
                    control,
                    target,
                    old(self).num_qubits,
                ),
            tab_cnot(*old(self), *final(self), control, target),
    {
        let ghost n = self.num_qubits;
        proof {
            assert(0 <= control / 64 < chunk_count(n) && control % 64 < 64 && 0 <= target / 64
                < chunk_count(n) && target % 64 < 64) by (nonlinear_arith)
                requires
                    control < n,
                    target < n,
                    n <= MAX_TABLEAU_QUBITS,
            ;
        }
        let c_chunk = control / 64;
        let c_bit = control % 64;
        let c_mask = 1u64 << (c_bit as u64);
        let t_chunk = target / 64;
        let t_bit = target % 64;
        let t_mask = 1u64 << (t_bit as u64);
        let rows = 2 * self.num_qubits;
        let mut r: usize = 0;
        while r < rows
            invariant
                r <= rows,
                self.num_qubits == n,
                self.wf(),
                control < n,
                target < n,
                control != target,
                rows == 2 * n,
                c_chunk == control / 64,
                c_bit == control % 64,
                c_mask == 1u64 << ((control % 64) as u64),
                t_chunk == target / 64,
                t_bit == target % 64,
                t_mask == 1u64 << ((target % 64) as u64),
                forall|i: int|
                    0 <= i < r ==> cnot_row(
                        old(self).data@[i],
                        #[trigger] self.data@[i],
                        control,
                        target,
                        n,
                    ),
                forall|i: int| r <= i < rows ==> #[trigger] self.data@[i] == old(self).data@[i],
            decreases rows - r,
        {
            let mut row = Row { xmask: Vec::new(), zmask: Vec::new(), phase: false };
            self.data.set_and_swap(r, &mut row);
            let ghost pre = row;
            let c_x_set = (row.xmask[c_chunk] & c_mask) != 0;
            let c_z_set = (row.zmask[c_chunk] & c_mask) != 0;
            let t_x_set = (row.xmask[t_chunk] & t_mask) != 0;
            let t_z_set = (row.zmask[t_chunk] & t_mask) != 0;
            proof {
                lemma_test_bit(row.xmask@[c_chunk as int], (c_bit as u64));
                lemma_test_bit(row.zmask@[c_chunk as int], (c_bit as u64));
                lemma_test_bit(row.xmask@[t_chunk as int], (t_bit as u64));
                lemma_test_bit(row.zmask@[t_chunk as int], (t_bit as u64));
                assert(c_x_set == row_x(pre, control) && c_z_set == row_z(pre, control) && t_x_set
                    == row_x(pre, target) && t_z_set == row_z(pre, target));
            }
            if c_x_set && t_z_set && (t_x_set == c_z_set) {
                row.phase = !row.phase;
            }
            if c_x_set {
                proof {
                    lemma_mask_toggle(row.xmask@, target, n);
                }
                let v = row.xmask[t_chunk] ^ t_mask;
                row.xmask.set(t_chunk, v);
            }
            if t_z_set {
                proof {
                    lemma_mask_toggle(row.zmask@, control, n);
                }
                let v = row.zmask[c_chunk] ^ c_mask;
                row.zmask.set(c_chunk, v);
            }
            proof {
                assert(cnot_row(pre, row, control, target, n));
            }
            self.data.set_and_swap(r, &mut row);
            r = r + 1;
        }
    }

    /// Build the pure `Z_qubit` row with the given sign.
    fn z_only_row(num_qubits: usize, qubit: usize, phase: bool) -> (r: Row)
        requires
            qubit < num_qubits,
            num_qubits <= MAX_TABLEAU_QUBITS,
        ensures
            r.xmask@.len() == chunk_count(num_qubits),
            r.zmask@.len() == chunk_count(num_qubits),
            forall|q2: usize|
                q2 < num_qubits ==> #[trigger] row_x(r, q2) == false && row_z(r, q2) == (q2
                    == qubit),
            r.phase == phase,
    {
        let chunks = (num_qubits + 63) / 64;
        let mut xmask: Vec<u64> = Vec::new();
        let mut zmask: Vec<u64> = Vec::new();
        let mut c: usize = 0;
        while c < chunks
            invariant
                c <= chunks,
                xmask@.len() == c,
                zmask@.len() == c,
                forall|t: int| 0 <= t < c ==> xmask@[t] == 0u64 && zmask@[t] == 0u64,
            decreases chunks - c,
        {
            xmask.push(0);
            zmask.push(0);
            c = c + 1;
        }
        proof {
            assert(qubit / 64 < chunk_count(num_qubits) && qubit % 64 < 64) by (nonlinear_arith)
                requires
                    qubit < num_qubits,
            ;
        }
        let chunk = qubit / 64;
        let bit = qubit % 64;
        zmask.set(chunk, 1u64 << (bit as u64));
        let row = Row { xmask, zmask, phase };
        proof {
            assert forall|q2: usize| q2 < num_qubits implies !row_x(row, q2) && (row_z(row, q2) == (
            q2 == qubit)) by {
                assert(0 <= q2 / 64 < chunk_count(num_qubits) && q2 % 64 < 64) by (nonlinear_arith)
                    requires
                        q2 < num_qubits,
                        num_qubits <= MAX_TABLEAU_QUBITS,
                ;
                assert((0u64 >> ((q2 % 64) as u64)) & 1u64 == 0u64) by (bit_vector);
                let rb = (qubit % 64) as u64;
                let qb = (q2 % 64) as u64;
                assert(rb < 64 && qb < 64 ==> (((1u64 << rb) >> qb) & 1u64 == 1u64) == (rb == qb))
                    by (bit_vector);
                if q2 / 64 == qubit / 64 {
                    assert(q2 == 64 * (q2 / 64) + q2 % 64);
                    assert(qubit == 64 * (qubit / 64) + qubit % 64);
                    assert(q2 % 64 == qubit % 64 ==> q2 == qubit);
                }
            }
        }
        row
    }

    /// Measure qubit `qubit` in the Z basis given the coin draw `coin`:
    /// the whole update is deterministic in `coin`, which lets tests fix
    /// outcomes.  When some row anticommutes (X bit at `qubit` set), the
    /// outcome is `coin`, the first such row becomes the signed `Z_qubit`
    /// generator, and that row's pre-replacement content is multiplied
    /// into every other anticommuting row, clearing their X bits at
    /// `qubit` so the group again determines the measurement — repeated
    /// measurement is then idempotent.  Otherwise the outcome is already
    /// determined and the tableau is left untouched.
    #[verifier::rlimit(30)]
    pub fn measure_z_with(&mut self, qubit: usize, coin: bool) -> (outcome: bool)
        requires
            old(self).wf(),
            qubit < old(self).num_qubits,
        ensures
            final(self).wf(),
            final(self).num_qubits == old(self).num_qubits,
            measure_post(*old(self), *final(self), qubit, coin, outcome),
    {
        let ghost n0 = self.num_qubits;
        let n = self.num_qubits;
        let rows = 2 * n;
        let mut p: usize = rows;
        let mut r: usize = 0;
        while r < rows
            invariant
                r <= rows,
                self.num_qubits == n0,
                self.wf(),
                qubit < n0,
                rows == 2 * n0,
                p == rows || (p < r && row_x(self.data@[p as int], qubit) && (forall|r2: int|
                    0 <= r2 < p ==> !row_x(#[trigger] self.data@[r2], qubit))),
                p == rows ==> (forall|r2: int|
                    0 <= r2 < r ==> !row_x(#[trigger] self.data@[r2], qubit)),
            decreases rows - r,
        {
            if p == rows {
                if self.x_bit(r, qubit) {
                    p = r;
                }
            }
            r = r + 1;
        }
        let ghost pre = *self;
        if p < rows {
            let mut prow = Self::z_only_row(n, qubit, coin);
            self.data.set_and_swap(p, &mut prow);
            let ghost oldp = prow;
            proof {
                assert(oldp == pre.data@[p as int]);
            }
            let chunks_len = prow.xmask.len();
            let mut r2: usize = 0;
            while r2 < rows
                invariant
                    r2 <= rows,
                    self.num_qubits == n0,
                    self.wf(),
                    qubit < n0,
                    rows == 2 * n0,
                    p < rows,
                    pre.wf(),
                    pre.num_qubits == n0,
                    pre.data@.len() == rows,
                    prow == oldp,
                    oldp == pre.data@[p as int],
                    prow.xmask@.len() == chunk_count(n0),
                    prow.zmask@.len() == chunk_count(n0),
                    chunks_len == chunk_count(n0),
                    forall|q2: usize|
                        q2 < n0 ==> #[trigger] row_x(self.data@[p as int], q2) == false && row_z(
                            self.data@[p as int],
                            q2,
                        ) == (q2 == qubit),
                    self.data@[p as int].phase == coin,
                    forall|i: int|
                        0 <= i < r2 && i != p && row_x(#[trigger] pre.data@[i], qubit)
                            ==> row_mult(pre.data@[i], self.data@[i], oldp, n0),
                    forall|i: int|
                        0 <= i < r2 && i != p && !row_x(#[trigger] pre.data@[i], qubit)
                            ==> self.data@[i] == pre.data@[i],
                    forall|i: int|
                        r2 <= i < rows && i != p ==> #[trigger] self.data@[i] == pre.data@[i],
                decreases rows - r2,
            {
                if r2 != p {
                    if self.x_bit(r2, qubit) {
                        let ghost dpre = self.data@;
                        let mut row = Row { xmask: Vec::new(), zmask: Vec::new(), phase: false };
                        self.data.set_and_swap(r2, &mut row);
                        let ghost prer = row;
                        let mut ci: usize = 0;
                        while ci < chunks_len
                            invariant
                                ci <= chunks_len,
                                chunks_len == chunk_count(n0),
                                prow.xmask@.len() == chunk_count(n0),
                                prow.zmask@.len() == chunk_count(n0),
                                row.xmask@.len() == chunk_count(n0),
                                row.zmask@.len() == chunk_count(n0),
                                prer.xmask@.len() == chunk_count(n0),
                                prer.zmask@.len() == chunk_count(n0),
                                row.phase == prer.phase,
                                forall|ti: int|
                                    0 <= ti < ci ==> #[trigger] row.xmask@[ti] == (prer.xmask@[ti]
                                        ^ prow.xmask@[ti]),
                                forall|ti: int|
                                    0 <= ti < ci ==> #[trigger] row.zmask@[ti] == (prer.zmask@[ti]
                                        ^ prow.zmask@[ti]),
                                forall|ti: int|
                                    ci <= ti < chunk_count(n0) ==> #[trigger] row.xmask@[ti]
                                        == prer.xmask@[ti],
                                forall|ti: int|
                                    ci <= ti < chunk_count(n0) ==> #[trigger] row.zmask@[ti]
                                        == prer.zmask@[ti],
                            decreases chunks_len - ci,
                        {
                            let xv = row.xmask[ci] ^ prow.xmask[ci];
                            row.xmask.set(ci, xv);
                            let zv = row.zmask[ci] ^ prow.zmask[ci];
                            row.zmask.set(ci, zv);
                            ci = ci + 1;
                        }
                        if prow.phase {
                            row.phase = !row.phase;
                        }
                        proof {
                            lemma_vec_xor_bits(prer.xmask@, prow.xmask@, row.xmask@, n0);
                            lemma_vec_xor_bits(prer.zmask@, prow.zmask@, row.zmask@, n0);
                            assert(row_mult(prer, row, oldp, n0));
                        }
                        self.data.set_and_swap(r2, &mut row);
                        proof {
                            assert(forall|i: int|
                                0 <= i < dpre.len() && i != r2 ==> #[trigger] self.data@[i]
                                    == dpre[i]);
                            assert(self.data@[p as int] == dpre[p as int]);
                        }
                    }
                }
                r2 = r2 + 1;
            }
            proof {
                assert(is_first_x_row(pre, qubit, p as int));
                assert(has_x_row(pre, qubit));
                assert(self.data@.len() == pre.data@.len());
                assert(forall|q2: usize|
                    q2 < n0 ==> #[trigger] row_x(self.data@[p as int], q2) == false && row_z(
                        self.data@[p as int],
                        q2,
                    ) == (q2 == qubit));
                assert(self.data@[p as int].phase == coin);
                assert(forall|i: int|
                    0 <= i < pre.data@.len() && i != p && row_x(#[trigger] pre.data@[i], qubit)
                        ==> row_mult(pre.data@[i], self.data@[i], pre.data@[p as int], n0));
                assert(forall|i: int|
                    0 <= i < pre.data@.len() && i != p && !row_x(#[trigger] pre.data@[i], qubit)
                        ==> self.data@[i] == pre.data@[i]);
                assert(collapse_rows(pre, *self, qubit, coin, p as int));
            }
            coin
        } else {
            proof {
                assert(!has_x_row(pre, qubit));
            }
            let mut pz: usize = n;
            let mut r3: usize = 0;
            while r3 < n
                invariant
                    r3 <= n,
                    self.num_qubits == n0,
                    n == n0,
                    self.wf(),
                    qubit < n0,
                    pz == n || (pz < r3 && row_z(self.data@[pz as int], qubit) && (forall|i: int|
                        0 <= i < pz ==> !row_z(#[trigger] self.data@[i], qubit))),
                    pz == n ==> (forall|i: int|
                        0 <= i < r3 ==> !row_z(#[trigger] self.data@[i], qubit)),
                decreases n - r3,
            {
                if pz == n {
                    if self.z_bit(r3, qubit) {
                        pz = r3;
                    }
                }
                r3 = r3 + 1;
            }
            if pz < n {
                let ph = self.phase_bit(pz);
                proof {
                    assert(is_first_stab_z_row(pre, qubit, pz as int));
                }
                ph
            } else {
                false
            }
        }
    }

    /// Measure qubit `qubit` in the Z basis.  The random source is
    /// consulted only when the outcome is undetermined (some row has an
    /// X bit at `qubit`), as in a lazily drawn coin.
    pub fn measure_z(&mut self, qubit: usize) -> (outcome: bool)
        requires
            old(self).wf(),
            qubit < old(self).num_qubits,
        ensures
            final(self).wf(),
            final(self).num_qubits == old(self).num_qubits,
            exists|coin: bool| measure_post(*old(self), *final(self), qubit, coin, outcome),
    {
        let rows = 2 * self.num_qubits;
        let mut undetermined = false;
        let mut r: usize = 0;
        while r < rows
            invariant
                r <= rows,
                self.wf(),
                qubit < self.num_qubits,
                rows == 2 * self.num_qubits,
                undetermined <==> exists|r2: int|
                    0 <= r2 < r && row_x(#[trigger] self.data@[r2], qubit),
            decreases rows - r,
        {
            if self.x_bit(r, qubit) {
                undetermined = true;
            }
            r = r + 1;
        }
        let coin = if undetermined {
            crate::random::coin_flip()
        } else {
            false
        };
        let outcome = self.measure_z_with(qubit, coin);
        proof {
            assert(measure_post(*old(self), *self, qubit, coin, outcome));
        }
        outcome
    }

    /// Sign bit of row `row`.
    pub fn phase_bit(&self, row: usize) -> (r: bool)
        requires
            self.wf(),
            row < 2 * self.num_qubits,
        ensures
            r == self.data@[row as int].phase,
    {
        self.data[row].phase
    }
}

} // verus!
