//! Decoding of the thermal-array frame and the column-weighted bearing.

use vstd::prelude::*;

verus! {

/// The 12-bit two's-complement word that a pixel's two bytes carry:
/// the low byte, then the low nibble of the high byte.
pub open spec fn pixel_word(lo: u8, hi: u8) -> int {
    (hi as int % 16) * 256 + lo as int
}

/// The reading of one pixel in quarter degrees Celsius.
pub open spec fn pixel_value(lo: u8, hi: u8) -> int {
    let w = pixel_word(lo, hi);
    if w >= 2048 {
        w - 4096
    } else {
        w
    }
}

/// Decodes one pixel from its low and high register bytes, in quarter degrees.
pub fn pixel_from_bytes(lo: u8, hi: u8) -> (q: i16)
    ensures
        q == pixel_value(lo, hi),
        -2048 <= q <= 2047,
{
    let lo16: u16 = lo as u16;
    let hi16: u16 = hi as u16;
    let raw: u16 = ((hi16 << 8u16) | lo16) & 0x0FFFu16;
    assert(raw == (hi16 % 16) * 256 + lo16 && raw < 4096 && ((raw & 0x800u16 != 0) <==> raw >= 2048))
        by (bit_vector)
        requires
            lo16 < 256,
            hi16 < 256,
            raw == ((hi16 << 8u16) | lo16) & 0x0FFFu16,
    ;
    if raw & 0x800u16 != 0 {
        (raw as i16) - 4096i16
    } else {
        raw as i16
    }
}


/// The low and high register bytes that carry a reading of `v` quarter
/// degrees, with the high byte's unused upper nibble clear.
pub open spec fn pixel_bytes(v: int) -> (u8, u8) {
    let w = if v < 0 {
        v + 4096
    } else {
        v
    };
    ((w % 256) as u8, (w / 256) as u8)
}

/// The pixel encoding is a bijection between the readings -2048..=2047 and
/// the byte pairs whose high byte has a clear upper nibble; the upper nibble
/// of the high byte never affects the reading.
pub proof fn lemma_pixel_encoding_bijective(v: int, lo: u8, hi: u8)
    ensures
        -2048 <= v <= 2047 ==> pixel_value(pixel_bytes(v).0, pixel_bytes(v).1) == v,
        -2048 <= v <= 2047 ==> pixel_bytes(v).1 < 16,
        pixel_value(lo, hi) == pixel_value(lo, hi % 16),
        pixel_bytes(pixel_value(lo, hi)) == (lo, hi % 16),
{
}

/// Decodes a full 8x8 frame: pixel `i` is carried by bytes `2i` (low) and
/// `2i + 1` (high), and the frame is stored row by row.
pub fn decode_frame(buf: &[u8; 128]) -> (temps: [i16; 64])
    ensures
        forall|i: int| 0 <= i < 64 ==> #[trigger] temps[i] == pixel_value(buf[2 * i], buf[2 * i + 1]),
{
    let mut temps: [i16; 64] = [0i16; 64];
    for i in 0..64usize
        invariant
            forall|j: int| 0 <= j < i ==> #[trigger] temps[j] == pixel_value(buf[2 * j], buf[2 * j + 1]),
    {
        let q = pixel_from_bytes(buf[2 * i], buf[2 * i + 1]);
        temps[i] = q;
    }
    temps
}


/// Sum of column `c` over the first `rows` rows of a row-major 8x8 frame.
pub open spec fn column_sum_rows(t: Seq<i16>, c: int, rows: nat) -> int
    decreases rows,
{
    if rows == 0 {
        0
    } else {
        column_sum_rows(t, c, (rows - 1) as nat) + t[8 * (rows - 1) + c]
    }
}

/// Sum of column `c` over the whole frame.
pub open spec fn column_sum(t: Seq<i16>, c: int) -> int {
    column_sum_rows(t, c, 8)
}

/// Sum of the first `n` column sums.
pub open spec fn columns_total(t: Seq<i16>, n: nat) -> int
    decreases n,
{
    if n == 0 {
        0
    } else {
        columns_total(t, (n - 1) as nat) + column_sum(t, n - 1)
    }
}

/// Sum of the first `n` column sums, column `c` weighted by `2c + 1`, that is
/// twice the distance of its centre from the left edge.
pub open spec fn columns_weighted(t: Seq<i16>, n: nat) -> int
    decreases n,
{
    if n == 0 {
        0
    } else {
        columns_weighted(t, (n - 1) as nat) + (2 * (n - 1) + 1) * column_sum(t, n - 1)
    }
}

/// Sum of all readings of the frame.
pub open spec fn frame_total(t: Seq<i16>) -> int {
    columns_total(t, 8)
}

/// Sum of all readings, each weighted by `2c + 1` for its column `c`.
pub open spec fn frame_weighted(t: Seq<i16>) -> int {
    columns_weighted(t, 8)
}

/// The column centroid of a frame, kept exact.
///
/// With readings in quarter degrees, the mean column position (0.5 for the
/// left column's centre, 7.5 for the right one's) is `weighted / (2 * total)`,
/// and the bearing across the sensor's field of view of ±π/3 is
/// `π * (weighted - 8 * total) / (24 * total)` radians.
#[derive(Clone, Copy, Debug, PartialEq, Eq)]
pub struct ColumnAngle {
    /// Sum of the readings, each weighted by `2c + 1` for its column `c`.
    pub weighted: i64,
    /// Sum of the readings; never zero.
    pub total: i64,
}

impl ColumnAngle {
    /// Numerator of the bearing as a fraction of π.
    pub open spec fn pi_numerator(self) -> int {
        self.weighted - 8 * self.total
    }

    /// Denominator of the bearing as a fraction of π.
    pub open spec fn pi_denominator(self) -> int {
        24 * self.total
    }
}

/// Column-weighted bearing of the warmest region of a frame, in quarter
/// degrees per reading. There is none where the readings sum to zero.
pub fn angle_from_column_weighted(temps: &[i16; 64]) -> (res: Option<ColumnAngle>)
    ensures
        res is None <==> frame_total(temps@) == 0,
        res matches Some(a) ==> a.weighted == frame_weighted(temps@) && a.total == frame_total(
            temps@,
        ),
{
    let ghost t = temps@;
    let mut col_sums: [i64; 8] = [0i64; 8];
    for r in 0..8usize
        invariant
            t == temps@,
            forall|c: int| 0 <= c < 8 ==> #[trigger] col_sums[c] == column_sum_rows(t, c, r as nat),
            forall|c: int| 0 <= c < 8 ==> -32768 * r <= #[trigger] col_sums[c] <= 32768 * r,
    {
        for c in 0..8usize
            invariant
                t == temps@,
                r < 8,
                forall|k: int| 0 <= k < c ==> #[trigger] col_sums[k] == column_sum_rows(t, k, (r + 1) as nat),
                forall|k: int| c <= k < 8 ==> #[trigger] col_sums[k] == column_sum_rows(t, k, r as nat),
                forall|k: int| 0 <= k < c ==> -32768 * (r + 1) <= #[trigger] col_sums[k] <= 32768 * (r + 1),
                forall|k: int| c <= k < 8 ==> -32768 * r <= #[trigger] col_sums[k] <= 32768 * r,
        {
            let v: i64 = temps[r * 8 + c] as i64;
            assert(column_sum_rows(t, c as int, (r + 1) as nat) == column_sum_rows(t, c as int, r as nat) + t[8 * r + c]);
            col_sums[c] = col_sums[c] + v;
        }
    }
    let mut total: i64 = 0;
    let mut weighted: i64 = 0;
    for c in 0..8usize
        invariant
            t == temps@,
            forall|k: int| 0 <= k < 8 ==> #[trigger] col_sums[k] == column_sum(t, k),
            forall|k: int| 0 <= k < 8 ==> -262144 <= #[trigger] col_sums[k] <= 262144,
            total == columns_total(t, c as nat),
            weighted == columns_weighted(t, c as nat),
            -262144 * c <= total <= 262144 * c,
            -3932160 * c <= weighted <= 3932160 * c,
    {
        let x: i64 = col_sums[c];
        let w: i64 = 2 * (c as i64) + 1;
        assert(-3932160 <= w * x <= 3932160) by (nonlinear_arith)
            requires
                1 <= w <= 15,
                -262144 <= x <= 262144,
        ;
        total = total + x;
        weighted = weighted + w * x;
    }
    if total == 0 {
        None
    } else {
        Some(ColumnAngle { weighted, total })
    }
}


/// The total is the sum of the eight column sums, and the weighted sum
/// weights the columns, left to right, by 1, 3, 5, ..., 15.
pub proof fn lemma_frame_sums_unfold(t: Seq<i16>)
    ensures
        frame_total(t) == column_sum(t, 0) + column_sum(t, 1) + column_sum(t, 2) + column_sum(t, 3)
            + column_sum(t, 4) + column_sum(t, 5) + column_sum(t, 6) + column_sum(t, 7),
        frame_weighted(t) == column_sum(t, 0) + 3 * column_sum(t, 1) + 5 * column_sum(t, 2) + 7
            * column_sum(t, 3) + 9 * column_sum(t, 4) + 11 * column_sum(t, 5) + 13 * column_sum(t, 6)
            + 15 * column_sum(t, 7),
{
    assert(columns_total(t, 0) == 0);
    assert(columns_total(t, 1) == columns_total(t, 0) + column_sum(t, 0));
    assert(columns_total(t, 2) == columns_total(t, 1) + column_sum(t, 1));
    assert(columns_total(t, 3) == columns_total(t, 2) + column_sum(t, 2));
    assert(columns_total(t, 4) == columns_total(t, 3) + column_sum(t, 3));
    assert(columns_total(t, 5) == columns_total(t, 4) + column_sum(t, 4));
    assert(columns_total(t, 6) == columns_total(t, 5) + column_sum(t, 5));
    assert(columns_total(t, 7) == columns_total(t, 6) + column_sum(t, 6));
    assert(columns_total(t, 8) == columns_total(t, 7) + column_sum(t, 7));
    assert(columns_weighted(t, 0) == 0);
    assert(columns_weighted(t, 1) == columns_weighted(t, 0) + 1 * column_sum(t, 0));
    assert(columns_weighted(t, 2) == columns_weighted(t, 1) + 3 * column_sum(t, 1));
    assert(columns_weighted(t, 3) == columns_weighted(t, 2) + 5 * column_sum(t, 2));
    assert(columns_weighted(t, 4) == columns_weighted(t, 3) + 7 * column_sum(t, 3));
    assert(columns_weighted(t, 5) == columns_weighted(t, 4) + 9 * column_sum(t, 4));
    assert(columns_weighted(t, 6) == columns_weighted(t, 5) + 11 * column_sum(t, 5));
    assert(columns_weighted(t, 7) == columns_weighted(t, 6) + 13 * column_sum(t, 6));
    assert(columns_weighted(t, 8) == columns_weighted(t, 7) + 15 * column_sum(t, 7));
}

/// The frame seen in a mirror: column `c` of each row swaps with column `7 - c`.
pub open spec fn mirrored(t: Seq<i16>) -> Seq<i16> {
    Seq::new(t.len(), |i: int| t[8 * (i / 8) + 7 - i % 8])
}

proof fn lemma_mirror_column_rows(t: Seq<i16>, c: int, rows: nat)
    requires
        t.len() == 64,
        0 <= c < 8,
        rows <= 8,
    ensures
        column_sum_rows(mirrored(t), c, rows) == column_sum_rows(t, 7 - c, rows),
    decreases rows,
{
    if rows > 0 {
        lemma_mirror_column_rows(t, c, (rows - 1) as nat);
        let i = 8 * (rows - 1) + c;
        assert(i / 8 == rows - 1 && i % 8 == c) by (nonlinear_arith)
            requires
                i == 8 * (rows - 1) + c,
                0 <= c < 8,
                1 <= rows,
        ;
    }
}

proof fn lemma_columns_mirror(t: Seq<i16>)
    requires
        t.len() == 64,
    ensures
        forall|c: int| 0 <= c < 8 ==> #[trigger] column_sum(mirrored(t), c) == column_sum(t, 7 - c),
{
    assert forall|c: int| 0 <= c < 8 implies #[trigger] column_sum(mirrored(t), c) == column_sum(t, 7 - c) by {
        lemma_mirror_column_rows(t, c, 8);
    }
}

/// Mirroring a frame keeps its total and negates its bearing: the numerator
/// of the bearing as a fraction of π changes sign, the denominator stays.
pub proof fn lemma_mirror_negates_bearing(t: Seq<i16>)
    requires
        t.len() == 64,
    ensures
        frame_total(mirrored(t)) == frame_total(t),
        frame_weighted(mirrored(t)) - 8 * frame_total(mirrored(t)) == -(frame_weighted(t) - 8
            * frame_total(t)),
{
    lemma_columns_mirror(t);
    let m = mirrored(t);
    lemma_frame_sums_unfold(t);
    lemma_frame_sums_unfold(m);
    assert(column_sum(m, 0) == column_sum(t, 7));
    assert(column_sum(m, 1) == column_sum(t, 6));
    assert(column_sum(m, 2) == column_sum(t, 5));
    assert(column_sum(m, 3) == column_sum(t, 4));
    assert(column_sum(m, 4) == column_sum(t, 3));
    assert(column_sum(m, 5) == column_sum(t, 2));
    assert(column_sum(m, 6) == column_sum(t, 1));
    assert(column_sum(m, 7) == column_sum(t, 0));
}

/// A frame whose pixels all read the same has its centroid in the middle:
/// its bearing is zero.
pub proof fn lemma_uniform_frame_faces_ahead(t: Seq<i16>, v: i16)
    requires
        t.len() == 64,
        forall|i: int| 0 <= i < 64 ==> #[trigger] t[i] == v,
    ensures
        frame_total(t) == 64 * v,
        frame_weighted(t) - 8 * frame_total(t) == 0,
{
    assert forall|c: int| 0 <= c < 8 implies #[trigger] column_sum(t, c) == 8 * v by {
        reveal_with_fuel(column_sum_rows, 9);
        assert(t[c] == v && t[8 + c] == v && t[16 + c] == v && t[24 + c] == v);
        assert(t[32 + c] == v && t[40 + c] == v && t[48 + c] == v && t[56 + c] == v);
    }
    lemma_frame_sums_unfold(t);
    assert(column_sum(t, 0) == 8 * v && column_sum(t, 1) == 8 * v && column_sum(t, 2) == 8 * v
        && column_sum(t, 3) == 8 * v);
    assert(column_sum(t, 4) == 8 * v && column_sum(t, 5) == 8 * v && column_sum(t, 6) == 8 * v
        && column_sum(t, 7) == 8 * v);
}

proof fn lemma_column_rows_nonnegative(t: Seq<i16>, c: int, rows: nat)
    requires
        t.len() == 64,
        0 <= c < 8,
        rows <= 8,
        forall|i: int| 0 <= i < 64 ==> #[trigger] t[i] >= 0,
    ensures
        column_sum_rows(t, c, rows) >= 0,
    decreases rows,
{
    if rows > 0 {
        lemma_column_rows_nonnegative(t, c, (rows - 1) as nat);
        assert(t[8 * (rows - 1) + c] >= 0);
    }
}

/// Where no pixel reads below zero and some reads above, the centroid lies
/// between the centres of the outer columns, so the bearing stays within
/// ±7π/24, inside the sensor's field of view of ±π/3.
pub proof fn lemma_bearing_within_field_of_view(t: Seq<i16>)
    requires
        t.len() == 64,
        forall|i: int| 0 <= i < 64 ==> #[trigger] t[i] >= 0,
    ensures
        frame_total(t) >= 0,
        -7 * frame_total(t) <= frame_weighted(t) - 8 * frame_total(t) <= 7 * frame_total(t),
{
    assert forall|c: int| 0 <= c < 8 implies #[trigger] column_sum(t, c) >= 0 by {
        lemma_column_rows_nonnegative(t, c, 8);
    }
    lemma_frame_sums_unfold(t);
    assert(column_sum(t, 0) >= 0 && column_sum(t, 1) >= 0 && column_sum(t, 2) >= 0 && column_sum(t, 3) >= 0);
    assert(column_sum(t, 4) >= 0 && column_sum(t, 5) >= 0 && column_sum(t, 6) >= 0 && column_sum(t, 7) >= 0);
}


/// The rows of a row-major 8x8 frame, top to bottom.
pub open spec fn frame_rows(t: Seq<i16>) -> Seq<Seq<i16>> {
    Seq::new(8, |r: int| t.subrange(8 * r, 8 * r + 8))
}

/// Adds a row's reading in column `c` to a running sum.
pub open spec fn add_column(c: int) -> spec_fn(int, Seq<i16>) -> int {
    |acc: int, row: Seq<i16>| acc + row[c]
}

proof fn lemma_column_sum_rows_as_fold(t: Seq<i16>, c: int, n: nat)
    requires
        t.len() == 64,
        0 <= c < 8,
        n <= 8,
    ensures
        column_sum_rows(t, c, n) == frame_rows(t).take(n as int).fold_left(0, add_column(c)),
    decreases n,
{
    let rows = frame_rows(t);
    if n == 0 {
        assert(rows.take(0).len() == 0);
    } else {
        lemma_column_sum_rows_as_fold(t, c, (n - 1) as nat);
        assert(rows.take(n as int).drop_last() =~= rows.take(n - 1));
        let row = rows.take(n as int).last();
        assert(row == t.subrange(8 * (n - 1), 8 * (n - 1) + 8));
        assert(row[c] == t[8 * (n - 1) + c]);
    }
}

proof fn lemma_add_column_commutes(c: int)
    ensures
        vstd::seq_lib::commutative_foldl(add_column(c)),
{
    let f = add_column(c);
    assert forall|x: Seq<i16>, y: Seq<i16>, v: int| #[trigger] f(f(v, x), y) == f(f(v, y), x) by {}
}

/// Only the column sums matter: a frame whose rows are those of another in
/// some order (the same rows, each as often) has the same total and the same
/// weighted sum, so the same bearing, or none alike.
pub proof fn lemma_row_order_irrelevant(t: Seq<i16>, u: Seq<i16>)
    requires
        t.len() == 64,
        u.len() == 64,
        frame_rows(u).to_multiset() == frame_rows(t).to_multiset(),
    ensures
        forall|c: int| 0 <= c < 8 ==> #[trigger] column_sum(u, c) == column_sum(t, c),
        frame_total(u) == frame_total(t),
        frame_weighted(u) == frame_weighted(t),
{
    assert forall|c: int| 0 <= c < 8 implies #[trigger] column_sum(u, c) == column_sum(t, c) by {
        lemma_column_sum_rows_as_fold(t, c, 8);
        lemma_column_sum_rows_as_fold(u, c, 8);
        assert(frame_rows(t).take(8) =~= frame_rows(t));
        assert(frame_rows(u).take(8) =~= frame_rows(u));
        lemma_add_column_commutes(c);
        vstd::seq_lib::lemma_fold_left_permutation(frame_rows(u), frame_rows(t), add_column(c), 0);
    }
    lemma_frame_sums_unfold(t);
    lemma_frame_sums_unfold(u);
    assert(column_sum(u, 0) == column_sum(t, 0) && column_sum(u, 1) == column_sum(t, 1));
    assert(column_sum(u, 2) == column_sum(t, 2) && column_sum(u, 3) == column_sum(t, 3));
    assert(column_sum(u, 4) == column_sum(t, 4) && column_sum(u, 5) == column_sum(t, 5));
    assert(column_sum(u, 6) == column_sum(t, 6) && column_sum(u, 7) == column_sum(t, 7));
}

proof fn lemma_scaled_column_rows(t: Seq<i16>, u: Seq<i16>, k: int, c: int, n: nat)
    requires
        t.len() == 64,
        u.len() == 64,
        0 <= c < 8,
        n <= 8,
        forall|i: int| 0 <= i < 64 ==> #[trigger] u[i] == k * t[i],
    ensures
        column_sum_rows(u, c, n) == k * column_sum_rows(t, c, n),
    decreases n,
{
    if n > 0 {
        lemma_scaled_column_rows(t, u, k, c, (n - 1) as nat);
        let a = column_sum_rows(t, c, (n - 1) as nat);
        let x = t[8 * (n - 1) + c] as int;
        assert(u[8 * (n - 1) + c] == k * x);
        assert(k * a + k * x == k * (a + x)) by (nonlinear_arith);
    }
}

/// Scaling every reading by the same non-zero factor scales the total and
/// the weighted sum alike: whether there is a bearing, and the bearing as a
/// fraction of π, do not change. Only the relative distribution of heat
/// matters, not the temperature scale.
pub proof fn lemma_scaling_keeps_bearing(t: Seq<i16>, u: Seq<i16>, k: int)
    requires
        t.len() == 64,
        u.len() == 64,
        k != 0,
        forall|i: int| 0 <= i < 64 ==> #[trigger] u[i] == k * t[i],
    ensures
        frame_total(u) == k * frame_total(t),
        frame_weighted(u) == k * frame_weighted(t),
        frame_total(u) == 0 <==> frame_total(t) == 0,
        (frame_weighted(u) - 8 * frame_total(u)) * (24 * frame_total(t)) == (frame_weighted(t) - 8
            * frame_total(t)) * (24 * frame_total(u)),
{
    assert forall|c: int| 0 <= c < 8 implies #[trigger] column_sum(u, c) == k * column_sum(t, c) by {
        lemma_scaled_column_rows(t, u, k, c, 8);
    }
    lemma_frame_sums_unfold(t);
    lemma_frame_sums_unfold(u);
    let s0 = column_sum(t, 0);
    let s1 = column_sum(t, 1);
    let s2 = column_sum(t, 2);
    let s3 = column_sum(t, 3);
    let s4 = column_sum(t, 4);
    let s5 = column_sum(t, 5);
    let s6 = column_sum(t, 6);
    let s7 = column_sum(t, 7);
    assert(column_sum(u, 0) == k * s0 && column_sum(u, 1) == k * s1 && column_sum(u, 2) == k * s2
        && column_sum(u, 3) == k * s3);
    assert(column_sum(u, 4) == k * s4 && column_sum(u, 5) == k * s5 && column_sum(u, 6) == k * s6
        && column_sum(u, 7) == k * s7);
    assert(k * s0 + k * s1 + k * s2 + k * s3 + k * s4 + k * s5 + k * s6 + k * s7 == k * (s0 + s1
        + s2 + s3 + s4 + s5 + s6 + s7)) by (nonlinear_arith);
    assert(k * s0 + 3 * (k * s1) + 5 * (k * s2) + 7 * (k * s3) + 9 * (k * s4) + 11 * (k * s5) + 13
        * (k * s6) + 15 * (k * s7) == k * (s0 + 3 * s1 + 5 * s2 + 7 * s3 + 9 * s4 + 11 * s5 + 13 * s6
        + 15 * s7)) by (nonlinear_arith);
    let tt = frame_total(t);
    let tw = frame_weighted(t);
    assert(k * tt == 0 <==> tt == 0) by (nonlinear_arith)
        requires
            k != 0,
    ;
    assert((k * tw - 8 * (k * tt)) * (24 * tt) == (tw - 8 * tt) * (24 * (k * tt))) by (nonlinear_arith);
}


/// The sum of column `c` is the sum of the eight readings in that column,
/// one from each row: `t[c]`, `t[8 + c]`, ..., `t[56 + c]`.
pub proof fn lemma_column_sum_reads_column(t: Seq<i16>, c: int)
    requires
        0 <= c < 8,
    ensures
        column_sum(t, c) == t[c] + t[8 + c] + t[16 + c] + t[24 + c] + t[32 + c] + t[40 + c] + t[48
            + c] + t[56 + c],
{
    reveal_with_fuel(column_sum_rows, 9);
}

/// Heat confined to one column puts the centroid at that column's centre:
/// the total is the sum of that column's readings, the weighted sum is
/// `2c + 1` times the total, and the bearing is `π * (2c - 7) / 24`: left of
/// centre for the four left columns, right of it for the four right ones.
pub proof fn lemma_single_column_centroid(t: Seq<i16>, c: int)
    requires
        t.len() == 64,
        0 <= c < 8,
        forall|i: int| 0 <= i < 64 && i % 8 != c ==> #[trigger] t[i] == 0,
    ensures
        frame_total(t) == t[c] + t[8 + c] + t[16 + c] + t[24 + c] + t[32 + c] + t[40 + c] + t[48 + c]
            + t[56 + c],
        frame_weighted(t) == (2 * c + 1) * frame_total(t),
        frame_weighted(t) - 8 * frame_total(t) == (2 * c - 7) * frame_total(t),
{
    assert forall|k: int| 0 <= k < 8 && k != c implies #[trigger] column_sum(t, k) == 0 by {
        lemma_column_sum_reads_column(t, k);
        assert((8 + k) % 8 == k && (16 + k) % 8 == k && (24 + k) % 8 == k && (32 + k) % 8 == k);
        assert((40 + k) % 8 == k && (48 + k) % 8 == k && (56 + k) % 8 == k && k % 8 == k);
        assert(t[k] == 0 && t[8 + k] == 0 && t[16 + k] == 0 && t[24 + k] == 0);
        assert(t[32 + k] == 0 && t[40 + k] == 0 && t[48 + k] == 0 && t[56 + k] == 0);
    }
    lemma_column_sum_reads_column(t, c);
    lemma_frame_sums_unfold(t);
    let s = column_sum(t, c);
    assert(column_sum(t, 0) == (if c == 0 { s } else { 0 }));
    assert(column_sum(t, 1) == (if c == 1 { s } else { 0 }));
    assert(column_sum(t, 2) == (if c == 2 { s } else { 0 }));
    assert(column_sum(t, 3) == (if c == 3 { s } else { 0 }));
    assert(column_sum(t, 4) == (if c == 4 { s } else { 0 }));
    assert(column_sum(t, 5) == (if c == 5 { s } else { 0 }));
    assert(column_sum(t, 6) == (if c == 6 { s } else { 0 }));
    assert(column_sum(t, 7) == (if c == 7 { s } else { 0 }));
    assert(frame_total(t) == s);
    let w = frame_weighted(t);
    if c == 0 {
        assert(w == 1 * s);
        assert(w == (2 * c + 1) * s);
    } else if c == 1 {
        assert(w == 3 * s);
        assert(w == (2 * c + 1) * s);
    } else if c == 2 {
        assert(w == 5 * s);
        assert(w == (2 * c + 1) * s);
    } else if c == 3 {
        assert(w == 7 * s);
        assert(w == (2 * c + 1) * s);
    } else if c == 4 {
        assert(w == 9 * s);
        assert(w == (2 * c + 1) * s);
    } else if c == 5 {
        assert(w == 11 * s);
        assert(w == (2 * c + 1) * s);
    } else if c == 6 {
        assert(w == 13 * s);
        assert(w == (2 * c + 1) * s);
    } else {
        assert(w == 15 * s);
        assert(w == (2 * c + 1) * s);
    }
    assert(w - 8 * s == (2 * c - 7) * s) by (nonlinear_arith)
        requires
            w == (2 * c + 1) * s,
    ;
}

} // verus!
