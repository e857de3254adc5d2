//! The ε-expansion of the in-hypersphere determinant, term by term.
//!
//! By multilinearity, the perturbed determinant is the sum, over the ways to
//! pick at most one perturbed entry per row and per column, of the product of
//! the picked perturbations times the minor left after removing their rows and
//! columns. The removals are enumerated by their number, then by the positions
//! of their rows (non-decreasing, so that each set of rows comes once) and
//! columns (free); each removed pair whose row and column add up to an odd
//! number flips the sign.
use vstd::arithmetic::power::{lemma_pow_increases, lemma_pow_positive, pow};
use vstd::prelude::*;

use crate::symbolic::{
    coords_in_range, copy_vec, det_well_formed, digit, efactor_of, increasing_within, lemma_add_assoc,
    lemma_efactor_nonneg, DetView, Determinant, EFactor, Term, TermView,
};

verus! {

/// The coordinates whose product of perturbations is the largest ε-factor
/// that can still decide a sign.
pub open spec fn big_e_coords(dim: nat) -> Seq<[usize; 2]> {
    Seq::new((dim - 1) as nat, |i: int| [i as usize, i as usize]) + seq![
        [(dim - 1) as usize, (dim - 1) as usize],
        [(dim - 1) as usize, (dim - 1) as usize],
        [dim as usize, (dim - 1) as usize],
    ]
}

/// The largest ε-factor that can still decide a sign.
pub open spec fn largest_efactor(dim: nat) -> int {
    efactor_of(dim, big_e_coords(dim))
}

/// What holds of every term of the expansion in `dim` dimensions: its
/// ε-factor is at most `bound`; its determinant is a square submatrix with
/// strictly increasing rows and columns; a variable multiplier is a coordinate
/// of a row that the determinant left out, and comes with the constant ±2;
/// a term without one has the constant ±1.
pub open spec fn term_ok(dim: nat, bound: int, et: (EFactor, Term)) -> bool {
    let (e, t) = et;
    &&& e.0 <= bound
    &&& det_well_formed(t.det@, dim)
    &&& match t.var_mult {
        Some(v) => v[0] <= dim && v[1] < dim && !t.det.rows@.contains(v[0]) && (t.const_mult == 2
            || t.const_mult == -2),
        None => t.const_mult == 1 || t.const_mult == -1,
    }
}

/// The full matrix: every row and every column.
pub open spec fn full(dim: nat) -> Seq<usize> {
    Seq::new(dim + 1, |i: int| i as usize)
}

proof fn lemma_small_dim(dim: nat)
    requires
        dim <= 3,
    ensures
        dim * (dim + 1) <= 12,
{
    assert(dim * (dim + 1) <= 12) by (nonlinear_arith)
        requires
            dim <= 3,
    ;
}

proof fn lemma_efactor_bound(dim: nat, coords: Seq<[usize; 2]>)
    requires
        1 <= dim <= 3,
        coords_in_range(dim, coords),
    ensures
        efactor_of(dim, coords) <= coords.len() * 177147,
    decreases coords.len(),
{
    if coords.len() > 0 {
        let last = coords.last();
        assert(coords_in_range(dim, coords.drop_last())) by {
            assert forall|k: int| 0 <= k < coords.drop_last().len() implies #[trigger] coords.drop_last()[k][1]
                < dim && coords.drop_last()[k][0] <= dim by {
                assert(coords[k][1] < dim);
            }
        }
        lemma_efactor_bound(dim, coords.drop_last());
        assert(coords[coords.len() - 1][1] < dim);
        let r = last[0] as nat;
        assert(dim * r <= 9) by (nonlinear_arith)
            requires
                dim <= 3,
                r <= dim,
        ;
        lemma_pow_increases(3, digit(dim, r, last[1] as nat), 11);
        assert(pow(3, 11) == 177147) by {
            reveal_with_fuel(pow, 12);
        }
    }
}

fn copy_coords(a: &Vec<[usize; 2]>) -> (r: Vec<[usize; 2]>)
    ensures
        r@ == a@,
{
    let mut r: Vec<[usize; 2]> = Vec::new();
    let mut k: usize = 0;
    while k < a.len()
        invariant
            k <= a@.len(),
            r@ == a@.take(k as int),
        decreases a@.len() - k,
    {
        r.push(a[k]);
        k = k + 1;
        assert(r@ =~= a@.take(k as int));
    }
    assert(a@.take(a@.len() as int) =~= a@);
    r
}

/// Removing an entry keeps a sequence strictly increasing and bounded.
proof fn lemma_remove_increasing(s: Seq<usize>, p: int, bound: nat)
    requires
        increasing_within(s, bound),
        0 <= p < s.len(),
    ensures
        increasing_within(s.remove(p), bound),
        !s.remove(p).contains(s[p]),
        forall|x: usize| s.remove(p).contains(x) ==> s.contains(x),
{
    let t = s.remove(p);
    assert forall|a: int, b: int| 0 <= a < b < t.len() implies t[a] < t[b] by {
        let ma = if a < p { a } else { a + 1 };
        let mb = if b < p { b } else { b + 1 };
        assert(t[a] == s[ma] && t[b] == s[mb]);
    }
    assert forall|x: usize| t.contains(x) implies s.contains(x) && x != s[p] by {
        let a = choose|a: int| 0 <= a < t.len() && t[a] == x;
        let ma = if a < p { a } else { a + 1 };
        assert(t[a] == s[ma]);
    }
}

/// What the removals made so far satisfy: each removed row and column is
/// out of the submatrix and in range.
pub open spec fn removed_ok(dim: nat, rows: Seq<usize>, cols: Seq<usize>, removed: Seq<[usize; 2]>) -> bool {
    forall|k: int|
        #![trigger removed[k]]
        0 <= k < removed.len() ==> removed[k][0] <= dim && removed[k][1] <= dim && !rows.contains(
            removed[k][0],
        ) && !cols.contains(removed[k][1])
}

/// A term of the expansion with its ε-factor, as plain values.
pub open spec fn entry_view(et: (EFactor, Term)) -> (u64, TermView) {
    (et.0.0, et.1@)
}

/// The terms of `s` with their ε-factors, as plain values.
pub open spec fn entries_view(s: Seq<(EFactor, Term)>) -> Seq<(u64, TermView)> {
    s.map_values(|et: (EFactor, Term)| entry_view(et))
}

/// `(e, t)` alone when `e` does not exceed `big`, else nothing.
pub open spec fn kept_if(e: int, t: TermView, big: int) -> Seq<(u64, TermView)> {
    if e <= big {
        seq![(e as u64, t)]
    } else {
        Seq::empty()
    }
}

/// The row at which the magnitude column was removed, if it was.
pub open spec fn magnitude_row(removed: Seq<[usize; 2]>, dim: nat) -> Option<usize>
    decreases removed.len(),
{
    if removed.len() == 0 {
        None
    } else if removed.last()[1] == dim {
        Some(removed.last()[0])
    } else {
        magnitude_row(removed.drop_last(), dim)
    }
}

/// The removed pairs in coordinate columns, in order.
pub open spec fn coordinate_pairs(removed: Seq<[usize; 2]>, dim: nat) -> Seq<[usize; 2]>
    decreases removed.len(),
{
    if removed.len() == 0 {
        Seq::empty()
    } else {
        let init = coordinate_pairs(removed.drop_last(), dim);
        if removed.last()[1] == dim {
            init
        } else {
            init.push(removed.last())
        }
    }
}

/// The terms that the perturbed magnitude of row `r` contributes for the
/// coordinates from `j` on: `2·p_r[j]·ε_(r,j)` and `ε_(r,j)²` for each.
pub open spec fn magnitude_terms(
    dim: nat,
    others: Seq<[usize; 2]>,
    r: usize,
    det: DetView,
    mult: int,
    big: int,
    j: nat,
) -> Seq<(u64, TermView)>
    decreases dim - j,
{
    if j >= dim {
        Seq::empty()
    } else {
        let once = others.push([r, j as usize]);
        kept_if(efactor_of(dim, once), ((2 * mult) as i32, Some([r, j as usize]), det), big) + kept_if(
            efactor_of(dim, once.push([r, j as usize])),
            (mult as i32, None, det),
            big,
        ) + magnitude_terms(dim, others, r, det, mult, big, j + 1)
    }
}

/// The terms of the minor `det` left after the removals in `removed`, with sign `mult`.
pub open spec fn minor_terms(dim: nat, det: DetView, removed: Seq<[usize; 2]>, mult: int, big: int) -> Seq<
    (u64, TermView),
> {
    let others = coordinate_pairs(removed, dim);
    match magnitude_row(removed, dim) {
        Some(r) => magnitude_terms(dim, others, r, det, mult, big, 0),
        None => kept_if(efactor_of(dim, others), (mult as i32, None, det), big),
    }
}

/// The sign after removing the entry at row `r` and column `c`.
pub open spec fn flipped(mult: int, r: usize, c: usize) -> int {
    if (r + c) % 2 == 1 {
        -mult
    } else {
        mult
    }
}

/// The terms of all ways to remove `left` more entries from the submatrix
/// `rows × cols`, one per row and column, at row positions no smaller than
/// `min_row` (so that each set of rows comes once) and in any column.
pub open spec fn removals(
    dim: nat,
    left: nat,
    min_row: int,
    rows: Seq<usize>,
    cols: Seq<usize>,
    removed: Seq<[usize; 2]>,
    mult: int,
    big: int,
) -> Seq<(u64, TermView)>
    decreases left, 2nat, 0int,
{
    if left == 0 {
        minor_terms(dim, (rows, cols), removed, mult, big)
    } else {
        row_removals(dim, left, min_row, rows, cols, removed, mult, big)
    }
}

/// The removals whose next row position is `rp` or later.
pub open spec fn row_removals(
    dim: nat,
    left: nat,
    rp: int,
    rows: Seq<usize>,
    cols: Seq<usize>,
    removed: Seq<[usize; 2]>,
    mult: int,
    big: int,
) -> Seq<(u64, TermView)>
    decreases left, 1nat, rows.len() - rp,
{
    if 0 < left && 0 <= rp < rows.len() && rp + left <= rows.len() {
        column_removals(dim, left, rp, 0, rows, cols, removed, mult, big) + row_removals(
            dim,
            left,
            rp + 1,
            rows,
            cols,
            removed,
            mult,
            big,
        )
    } else {
        Seq::empty()
    }
}

/// The removals whose next entry is at row position `rp` and column position
/// `cp` or later.
pub open spec fn column_removals(
    dim: nat,
    left: nat,
    rp: int,
    cp: int,
    rows: Seq<usize>,
    cols: Seq<usize>,
    removed: Seq<[usize; 2]>,
    mult: int,
    big: int,
) -> Seq<(u64, TermView)>
    decreases left, 0nat, cols.len() - cp,
{
    if 0 < left && 0 <= rp < rows.len() && 0 <= cp < cols.len() {
        removals(
            dim,
            (left - 1) as nat,
            rp,
            rows.remove(rp),
            cols.remove(cp),
            removed.push([rows[rp], cols[cp]]),
            flipped(mult, rows[rp], cols[cp]),
            big,
        ) + column_removals(dim, left, rp, cp + 1, rows, cols, removed, mult, big)
    } else {
        Seq::empty()
    }
}

/// The terms with `i` or more removed entries.
pub open spec fn expansion_from(dim: nat, i: nat) -> Seq<(u64, TermView)>
    decreases dim + 2 - i,
{
    if i > dim + 1 {
        Seq::empty()
    } else {
        removals(dim, i, 0, full(dim), full(dim), Seq::empty(), 1, largest_efactor(dim)) + expansion_from(
            dim,
            i + 1,
        )
    }
}

/// The ε-expansion of the in-hypersphere determinant in `dim` dimensions, up
/// to the largest ε-factor that can still decide a sign: the unperturbed
/// determinant, then the terms with one removed entry, two, and so on.
pub open spec fn expansion(dim: nat) -> Seq<(u64, TermView)> {
    seq![(0u64, (1i32, None::<[usize; 2]>, (full(dim), full(dim))))] + expansion_from(dim, 1)
}

proof fn lemma_entries_push(s: Seq<(EFactor, Term)>, x: (EFactor, Term))
    ensures
        entries_view(s.push(x)) == entries_view(s).push(entry_view(x)),
{
    assert(entries_view(s.push(x)) =~= entries_view(s).push(entry_view(x)));
}

/// Adds the terms of the submatrix that is left after the removals in `removed`.
/// When the magnitude column was removed at row `r`, the perturbed magnitude
/// `Σ_j (p_r[j] + ε_(r,j))²` contributes, for each coordinate `j`, a term
/// `2·p_r[j]·ε_(r,j)` and a term `ε_(r,j)²`.
fn emit_terms(
    dim: usize,
    det: Determinant,
    removed: &Vec<[usize; 2]>,
    mult: i32,
    big_e: u64,
    out: &mut Vec<(EFactor, Term)>,
)
    requires
        1 <= dim <= 3,
        det_well_formed(det@, dim as nat),
        removed@.len() <= dim + 1,
        removed_ok(dim as nat, det.rows@, det.cols@, removed@),
        mult == 1 || mult == -1,
        forall|k: int| 0 <= k < old(out)@.len() ==> term_ok(dim as nat, big_e as int, #[trigger] old(out)@[k]),
    ensures
        final(out)@.len() >= old(out)@.len(),
        forall|k: int| 0 <= k < old(out)@.len() ==> final(out)@[k] == old(out)@[k],
        forall|k: int| 0 <= k < final(out)@.len() ==> term_ok(dim as nat, big_e as int, #[trigger] final(out)@[k]),
        entries_view(final(out)@) == entries_view(old(out)@) + minor_terms(
            dim as nat,
            det@,
            removed@,
            mult as int,
            big_e as int,
        ),
{
    let mut mag: Option<usize> = None;
    let mut others: Vec<[usize; 2]> = Vec::new();
    let mut k: usize = 0;
    while k < removed.len()
        invariant
            k <= removed@.len(),
            removed_ok(dim as nat, det.rows@, det.cols@, removed@),
            others@.len() <= k,
            coords_in_range(dim as nat, others@),
            mag matches Some(r) ==> r <= dim && !det.rows@.contains(r),
            mag == magnitude_row(removed@.take(k as int), dim as nat),
            others@ == coordinate_pairs(removed@.take(k as int), dim as nat),
        decreases removed@.len() - k,
    {
        let pair = removed[k];
        proof {
            assert(removed@.take(k + 1).drop_last() =~= removed@.take(k as int));
            assert(removed@.take(k + 1).last() == pair);
        }
        assert(removed@[k as int] == pair);
        assert(pair[0] <= dim && pair[1] <= dim && !det.rows@.contains(pair[0]));
        if pair[1] == dim {
            mag = Some(pair[0]);
        } else {
            others.push(pair);
        }
        k = k + 1;
    }
    proof {
        assert(removed@.take(removed@.len() as int) =~= removed@);
    }
    let ghost start = out@;
    match mag {
        Some(r) => {
            let mut j: usize = 0;
            while j < dim
                invariant
                    1 <= dim <= 3,
                    j <= dim,
                    r <= dim,
                    !det.rows@.contains(r),
                    det_well_formed(det@, dim as nat),
                    others@.len() <= dim + 1,
                    coords_in_range(dim as nat, others@),
                    mult == 1 || mult == -1,
                    out@.len() >= start.len(),
                    forall|k: int| 0 <= k < start.len() ==> out@[k] == start[k],
                    forall|k: int| 0 <= k < out@.len() ==> term_ok(dim as nat, big_e as int, #[trigger] out@[k]),
                    entries_view(start) + magnitude_terms(dim as nat, others@, r, det@, mult as int, big_e as int, 0)
                        == entries_view(out@) + magnitude_terms(
                        dim as nat,
                        others@,
                        r,
                        det@,
                        mult as int,
                        big_e as int,
                        j as nat,
                    ),
                decreases dim - j,
            {
                let ghost before = out@;
                let mut once = copy_coords(&others);
                once.push([r, j]);
                proof {
                    assert(coords_in_range(dim as nat, once@)) by {
                        assert forall|k: int| 0 <= k < once@.len() implies #[trigger] once@[k][1] < dim
                            && once@[k][0] <= dim by {
                            if k < others@.len() {
                                assert(others@[k][1] < dim);
                            }
                        }
                    }
                    lemma_efactor_bound(dim as nat, once@);
                    lemma_small_dim(dim as nat);
                }
                let e1 = EFactor::new(dim, once.as_slice());
                if e1.0 <= big_e {
                    let t = Term::new(mult * 2, Some([r, j]), det.duplicate());
                    proof {
                        lemma_entries_push(out@, (e1, t));
                    }
                    out.push((e1, t));
                }
                let ghost middle = out@;
                assert(entries_view(middle) == entries_view(before) + kept_if(
                    efactor_of(dim as nat, others@.push([r, j])),
                    ((2 * mult) as i32, Some([r, j]), det@),
                    big_e as int,
                ));
                let mut twice = once;
                twice.push([r, j]);
                proof {
                    assert(coords_in_range(dim as nat, twice@)) by {
                        assert forall|k: int| 0 <= k < twice@.len() implies #[trigger] twice@[k][1] < dim
                            && twice@[k][0] <= dim by {
                            if k < others@.len() {
                                assert(others@[k][1] < dim);
                            }
                        }
                    }
                    lemma_efactor_bound(dim as nat, twice@);
                    lemma_small_dim(dim as nat);
                }
                let e2 = EFactor::new(dim, twice.as_slice());
                if e2.0 <= big_e {
                    let t = Term::new(mult, None, det.duplicate());
                    proof {
                        lemma_entries_push(out@, (e2, t));
                    }
                    out.push((e2, t));
                }
                proof {
                    let a = kept_if(
                        efactor_of(dim as nat, others@.push([r, j])),
                        ((2 * mult) as i32, Some([r, j]), det@),
                        big_e as int,
                    );
                    let b = kept_if(
                        efactor_of(dim as nat, others@.push([r, j]).push([r, j])),
                        (mult as i32, None, det@),
                        big_e as int,
                    );
                    let rest = magnitude_terms(dim as nat, others@, r, det@, mult as int, big_e as int, (j + 1) as nat);
                    assert(entries_view(out@) == entries_view(middle) + b);
                    lemma_add_assoc(entries_view(before), a, b);
                    lemma_add_assoc(entries_view(before), a + b, rest);
                    lemma_add_assoc(entries_view(before) + a, b, rest);
                }
                j = j + 1;
            }
        },
        None => {
            proof {
                lemma_efactor_bound(dim as nat, others@);
                lemma_small_dim(dim as nat);
            }
            let e = EFactor::new(dim, others.as_slice());
            if e.0 <= big_e {
                let t = Term::new(mult, None, det);
                proof {
                    lemma_entries_push(out@, (e, t));
                }
                out.push((e, t));
            }
        },
    }
}

/// Enumerates the ways to remove `left` more pairs (row, column) from the
/// submatrix `rows × cols`, rows at positions no smaller than `min_row` and in
/// any column, and adds the terms of each resulting minor. The sign flips with
/// each removed pair whose row and column add up to an odd number.
fn expand(
    dim: usize,
    left: usize,
    min_row: usize,
    rows: &Vec<usize>,
    cols: &Vec<usize>,
    removed: &Vec<[usize; 2]>,
    mult: i32,
    big_e: u64,
    out: &mut Vec<(EFactor, Term)>,
)
    requires
        1 <= dim <= 3,
        det_well_formed((rows@, cols@), dim as nat),
        rows@.len() + removed@.len() == dim + 1,
        left <= rows@.len(),
        removed_ok(dim as nat, rows@, cols@, removed@),
        mult == 1 || mult == -1,
        forall|k: int| 0 <= k < old(out)@.len() ==> term_ok(dim as nat, big_e as int, #[trigger] old(out)@[k]),
    ensures
        final(out)@.len() >= old(out)@.len(),
        forall|k: int| 0 <= k < old(out)@.len() ==> final(out)@[k] == old(out)@[k],
        forall|k: int| 0 <= k < final(out)@.len() ==> term_ok(dim as nat, big_e as int, #[trigger] final(out)@[k]),
        entries_view(final(out)@) == entries_view(old(out)@) + removals(
            dim as nat,
            left as nat,
            min_row as int,
            rows@,
            cols@,
            removed@,
            mult as int,
            big_e as int,
        ),
    decreases left,
{
    if left == 0 {
        let det = Determinant::new(copy_vec(rows), copy_vec(cols));
        emit_terms(dim, det, removed, mult, big_e, out);
        return;
    }
    let ghost all_rows = row_removals(
        dim as nat,
        left as nat,
        min_row as int,
        rows@,
        cols@,
        removed@,
        mult as int,
        big_e as int,
    );
    let ghost start = out@;
    let mut rp: usize = min_row;
    while rp < rows.len() && rp + left <= rows.len()
        invariant
            1 <= dim <= 3,
            1 <= left <= rows@.len(),
            det_well_formed((rows@, cols@), dim as nat),
            rows@.len() + removed@.len() == dim + 1,
            removed_ok(dim as nat, rows@, cols@, removed@),
            mult == 1 || mult == -1,
            out@.len() >= start.len(),
            forall|k: int| 0 <= k < start.len() ==> out@[k] == start[k],
            forall|k: int| 0 <= k < out@.len() ==> term_ok(dim as nat, big_e as int, #[trigger] out@[k]),
            entries_view(start) + all_rows == entries_view(out@) + row_removals(
                dim as nat,
                left as nat,
                rp as int,
                rows@,
                cols@,
                removed@,
                mult as int,
                big_e as int,
            ),
        decreases rows@.len() - rp,
    {
        let ghost row_start = out@;
        let mut cp: usize = 0;
        while cp < cols.len()
            invariant
                1 <= dim <= 3,
                1 <= left <= rows@.len(),
                rp < rows@.len(),
                det_well_formed((rows@, cols@), dim as nat),
                rows@.len() + removed@.len() == dim + 1,
                removed_ok(dim as nat, rows@, cols@, removed@),
                mult == 1 || mult == -1,
                out@.len() >= start.len(),
                forall|k: int| 0 <= k < start.len() ==> out@[k] == start[k],
                forall|k: int| 0 <= k < out@.len() ==> term_ok(dim as nat, big_e as int, #[trigger] out@[k]),
                entries_view(row_start) + column_removals(
                    dim as nat,
                    left as nat,
                    rp as int,
                    0,
                    rows@,
                    cols@,
                    removed@,
                    mult as int,
                    big_e as int,
                ) == entries_view(out@) + column_removals(
                    dim as nat,
                    left as nat,
                    rp as int,
                    cp as int,
                    rows@,
                    cols@,
                    removed@,
                    mult as int,
                    big_e as int,
                ),
            decreases cols@.len() - cp,
        {
            let ghost before = out@;
            let mut rows2 = copy_vec(rows);
            let er = rows2.remove(rp);
            let mut cols2 = copy_vec(cols);
            let ec = cols2.remove(cp);
            let mut removed2 = copy_coords(removed);
            removed2.push([er, ec]);
            proof {
                lemma_remove_increasing(rows@, rp as int, dim as nat);
                lemma_remove_increasing(cols@, cp as int, dim as nat);
                assert(removed_ok(dim as nat, rows2@, cols2@, removed2@)) by {
                    assert forall|k: int| 0 <= k < removed2@.len() implies #[trigger] removed2@[k][0] <= dim
                        && removed2@[k][1] <= dim && !rows2@.contains(removed2@[k][0]) && !cols2@.contains(
                        removed2@[k][1],
                    ) by {
                        assert(removed2@[k] == removed2@[k]);
                        if k < removed@.len() {
                            assert(removed2@[k] == removed@[k]);
                            assert(!rows@.contains(removed@[k][0]));
                        }
                    }
                }
            }
            let mult2 = if (er + ec) % 2 == 1 { -mult } else { mult };
            expand(dim, left - 1, rp, &rows2, &cols2, &removed2, mult2, big_e, out);
            proof {
                let inner = removals(
                    dim as nat,
                    (left - 1) as nat,
                    rp as int,
                    rows2@,
                    cols2@,
                    removed2@,
                    mult2 as int,
                    big_e as int,
                );
                let rest = column_removals(
                    dim as nat,
                    left as nat,
                    rp as int,
                    cp + 1,
                    rows@,
                    cols@,
                    removed@,
                    mult as int,
                    big_e as int,
                );
                assert(mult2 as int == flipped(mult as int, er, ec));
                lemma_add_assoc(entries_view(before), inner, rest);
            }
            cp = cp + 1;
        }
        proof {
            let rest = row_removals(
                dim as nat,
                left as nat,
                rp + 1,
                rows@,
                cols@,
                removed@,
                mult as int,
                big_e as int,
            );
            let here = column_removals(
                dim as nat,
                left as nat,
                rp as int,
                0,
                rows@,
                cols@,
                removed@,
                mult as int,
                big_e as int,
            );
            assert(entries_view(out@) + column_removals(
                dim as nat,
                left as nat,
                rp as int,
                cp as int,
                rows@,
                cols@,
                removed@,
                mult as int,
                big_e as int,
            ) =~= entries_view(out@));
            lemma_add_assoc(entries_view(row_start), here, rest);
        }
        rp = rp + 1;
    }
    proof {
        assert(entries_view(out@) + row_removals(
            dim as nat,
            left as nat,
            rp as int,
            rows@,
            cols@,
            removed@,
            mult as int,
            big_e as int,
        ) =~= entries_view(out@));
    }
}

/// The terms of the ε-expansion of the in-hypersphere determinant of
/// `dim + 2` points in `dim` dimensions, each with its ε-factor, up to the
/// largest ε-factor that can still decide a sign. The first is the
/// unperturbed determinant itself.
pub fn terms(dim: usize) -> (r: Vec<(EFactor, Term)>)
    requires
        1 <= dim <= 3,
    ensures
        r@.len() >= 1,
        r@[0].0 == EFactor(0),
        r@[0].1.const_mult == 1,
        r@[0].1.var_mult is None,
        r@[0].1.det@ == (full(dim as nat), full(dim as nat)),
        forall|k: int| 0 <= k < r@.len() ==> term_ok(dim as nat, largest_efactor(dim as nat), #[trigger] r@[k]),
        entries_view(r@) == expansion(dim as nat),
{
    let mut big: Vec<[usize; 2]> = Vec::new();
    let mut i: usize = 0;
    while i + 1 < dim
        invariant
            1 <= dim <= 3,
            i < dim,
            big@ == Seq::new(i as nat, |m: int| [m as usize, m as usize]),
        decreases dim - i,
    {
        big.push([i, i]);
        i = i + 1;
        assert(big@ =~= Seq::new(i as nat, |m: int| [m as usize, m as usize]));
    }
    big.push([dim - 1, dim - 1]);
    big.push([dim - 1, dim - 1]);
    big.push([dim, dim - 1]);
    proof {
        assert(big@ =~= big_e_coords(dim as nat));
        assert(coords_in_range(dim as nat, big@)) by {
            assert forall|k: int| 0 <= k < big@.len() implies #[trigger] big@[k][1] < dim && big@[k][0] <= dim by {
                if k < dim - 1 {
                    assert(big@[k] == [k as usize, k as usize]);
                }
            }
        }
        lemma_efactor_bound(dim as nat, big@);
        lemma_small_dim(dim as nat);
    }
    let big_e = EFactor::new(dim, big.as_slice());

    let mut all: Vec<usize> = Vec::new();
    let mut n: usize = 0;
    while n <= dim
        invariant
            1 <= dim <= 3,
            n <= dim + 1,
            all@ == Seq::new(n as nat, |m: int| m as usize),
        decreases dim + 1 - n,
    {
        all.push(n);
        n = n + 1;
        assert(all@ =~= Seq::new(n as nat, |m: int| m as usize));
    }
    assert(all@ =~= full(dim as nat));
    assert(det_well_formed((all@, all@), dim as nat));

    let mut out: Vec<(EFactor, Term)> = Vec::new();
    let none: Vec<[usize; 2]> = Vec::new();
    let e0 = EFactor::new(dim, none.as_slice());
    proof {
        lemma_pow_positive(3, 0);
        lemma_efactor_nonneg(dim as nat, big@);
    }
    out.push((e0, Term::new(1, None, Determinant::new(copy_vec(&all), copy_vec(&all)))));
    proof {
        assert(entries_view(out@) =~= seq![(0u64, (1i32, None::<[usize; 2]>, (full(dim as nat), full(dim as nat))))]);
        assert(none@ =~= Seq::<[usize; 2]>::empty());
    }

    let mut i: usize = 1;
    while i <= dim + 1
        invariant
            1 <= dim <= 3,
            1 <= i <= dim + 2,
            all@ == full(dim as nat),
            none@.len() == 0,
            det_well_formed((all@, all@), dim as nat),
            big_e.0 == largest_efactor(dim as nat),
            out@.len() >= 1,
            out@[0].0 == EFactor(0),
            out@[0].1.const_mult == 1,
            out@[0].1.var_mult is None,
            out@[0].1.det@ == (full(dim as nat), full(dim as nat)),
            forall|k: int| 0 <= k < out@.len() ==> term_ok(dim as nat, largest_efactor(dim as nat), #[trigger] out@[k]),
            none@ == Seq::<[usize; 2]>::empty(),
            entries_view(out@) + expansion_from(dim as nat, i as nat) == expansion(dim as nat),
        decreases dim + 2 - i,
    {
        let ghost before = out@;
        expand(dim, i, 0, &all, &all, &none, 1, big_e.0, &mut out);
        proof {
            lemma_add_assoc(
                entries_view(before),
                removals(dim as nat, i as nat, 0, full(dim as nat), full(dim as nat), Seq::empty(), 1, largest_efactor(dim as nat)),
                expansion_from(dim as nat, (i + 1) as nat),
            );
        }
        i = i + 1;
    }
    assert(entries_view(out@) + expansion_from(dim as nat, i as nat) =~= entries_view(out@));
    out
}

} // verus!
