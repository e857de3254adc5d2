//! Determinants, terms and ε-factors of the symbolic expansion of the
//! in-hypersphere determinant, the determinants known to vanish, and the
//! reduction of the cases of a cascade.
//!
//! For `k = dim + 2` points in `dim` dimensions, the in-hypersphere matrix has
//! a row per point holding its `dim` coordinates, its squared magnitude and a
//! 1. Row and column numbers below count the first `dim + 1` rows and the
//! columns `0..dim` (coordinates) and `dim` (magnitude); the last row and the
//! column of 1s are always kept and never named.
//!
//! The perturbation of coordinate `c` of row `r` owns the base-3 digit
//! `dim·r + dim − 1 − c` of an ε-factor: an ε-factor is held as the integer
//! whose digits count how often each perturbation divides a term, and a
//! smaller integer is a dominant factor.
use vstd::arithmetic::power::{lemma_pow_increases, lemma_pow_positive, pow};
use vstd::prelude::*;

verus! {

/// A square submatrix of the in-hypersphere matrix, given by the rows and
/// columns it keeps besides the last row and the column of 1s.
#[derive(Clone, Debug, Default, PartialEq, Eq, Hash, PartialOrd, Ord)]
pub struct Determinant {
    pub rows: Vec<usize>,
    pub cols: Vec<usize>,
}

/// A term of the expansion: `const_mult`, times the unperturbed coordinate
/// `var_mult = [row, col]` if there is one, times the determinant `det`.
#[derive(Clone, Debug, PartialEq, Eq, Hash)]
pub struct Term {
    pub const_mult: i32,
    pub var_mult: Option<[usize; 2]>,
    pub det: Determinant,
}

/// The terms that share one ε-factor: its coefficient in the expansion.
#[derive(Clone, Debug, Default)]
pub struct TermSum {
    pub terms: Vec<Term>,
}

/// An ε-factor, held as the integer whose base-3 digits are its exponents.
#[derive(Clone, Copy, Debug, PartialEq, Eq, PartialOrd, Ord, Hash)]
pub struct EFactor(pub u64);

/// The rows and columns of a determinant.
pub type DetView = (Seq<usize>, Seq<usize>);

impl View for Determinant {
    type V = DetView;

    open spec fn view(&self) -> DetView {
        (self.rows@, self.cols@)
    }
}

/// The digit position of the perturbation of coordinate `c` of row `r`.
pub open spec fn digit(dim: nat, r: nat, c: nat) -> nat {
    (dim * r + dim - 1 - c) as nat
}

/// The ε-factor of the product of the perturbations of the coordinates in `coords`.
pub open spec fn efactor_of(dim: nat, coords: Seq<[usize; 2]>) -> int
    decreases coords.len(),
{
    if coords.len() == 0 {
        0
    } else {
        let last = coords.last();
        efactor_of(dim, coords.drop_last()) + pow(3, digit(dim, last[0] as nat, last[1] as nat))
    }
}

/// Every pair of `coords` names a coordinate column and a row of the matrix.
pub open spec fn coords_in_range(dim: nat, coords: Seq<[usize; 2]>) -> bool {
    forall|k: int| 0 <= k < coords.len() ==> #[trigger] coords[k][1] < dim && coords[k][0] <= dim
}

/// `s` is strictly increasing and its entries are at most `bound`.
pub open spec fn increasing_within(s: Seq<usize>, bound: nat) -> bool {
    &&& forall|a: int, b: int| 0 <= a < b < s.len() ==> s[a] < s[b]
    &&& forall|a: int| 0 <= a < s.len() ==> s[a] <= bound
}

/// A submatrix of the matrix in `dim` dimensions: square, with strictly
/// increasing rows and columns.
pub open spec fn det_well_formed(d: DetView, dim: nat) -> bool {
    &&& d.0.len() == d.1.len()
    &&& increasing_within(d.0, dim)
    &&& increasing_within(d.1, dim)
}

fn pow3(e: usize) -> (r: u64)
    requires
        pow(3, e as nat) <= u64::MAX,
    ensures
        r == pow(3, e as nat),
{
    let mut r: u64 = 1;
    let mut k: usize = 0;
    proof {
        reveal(pow);
    }
    while k < e
        invariant
            k <= e,
            r == pow(3, k as nat),
            pow(3, e as nat) <= u64::MAX,
        decreases e - k,
    {
        proof {
            lemma_pow_increases(3, (k + 1) as nat, e as nat);
            reveal(pow);
        }
        r = r * 3;
        k = k + 1;
    }
    r
}

proof fn lemma_efactor_prefix(dim: nat, coords: Seq<[usize; 2]>, n: int)
    requires
        0 <= n <= coords.len(),
    ensures
        0 <= efactor_of(dim, coords.take(n)) <= efactor_of(dim, coords),
    decreases coords.len(),
{
    if n < coords.len() {
        assert(coords.drop_last().take(n) =~= coords.take(n));
        lemma_efactor_prefix(dim, coords.drop_last(), n);
        let last = coords.last();
        lemma_pow_positive(3, digit(dim, last[0] as nat, last[1] as nat));
    } else {
        assert(coords.take(n) =~= coords);
        lemma_efactor_nonneg(dim, coords);
    }
}

pub(crate) proof fn lemma_efactor_nonneg(dim: nat, coords: Seq<[usize; 2]>)
    ensures
        efactor_of(dim, coords) >= 0,
    decreases coords.len(),
{
    if coords.len() > 0 {
        lemma_efactor_nonneg(dim, coords.drop_last());
        let last = coords.last();
        lemma_pow_positive(3, digit(dim, last[0] as nat, last[1] as nat));
    }
}

impl Determinant {
    pub fn new(rows: Vec<usize>, cols: Vec<usize>) -> (r: Self)
        ensures
            r.rows == rows,
            r.cols == cols,
    {
        Self { rows, cols }
    }

    /// A second determinant with the same rows and columns.
    pub fn duplicate(&self) -> (r: Self)
        ensures
            r@ == self@,
    {
        Determinant { rows: copy_vec(&self.rows), cols: copy_vec(&self.cols) }
    }

    /// The determinant itself, unless it is known to vanish.
    pub fn nonzero(self, zero_dets: &ZeroDets) -> (r: Option<Self>)
        ensures
            r == (if zero_dets@.contains(self@) { None } else { Some(self) }),
    {
        if zero_dets.contains(&self) {
            None
        } else {
            Some(self)
        }
    }
}

/// The determinants known to vanish.
pub struct ZeroDets {
    dets: Vec<Determinant>,
}

impl View for ZeroDets {
    type V = Set<DetView>;

    closed spec fn view(&self) -> Set<DetView> {
        Set::new(|d: DetView| exists|k: int| 0 <= k < self.dets@.len() && self.dets@[k]@ == d)
    }
}

impl ZeroDets {
    pub fn new() -> (r: Self)
        ensures
            r@ == Set::<DetView>::empty(),
    {
        let r = ZeroDets { dets: Vec::new() };
        assert(r@ =~= Set::<DetView>::empty());
        r
    }

    pub fn contains(&self, d: &Determinant) -> (r: bool)
        ensures
            r == self@.contains(d@),
    {
        let mut k: usize = 0;
        while k < self.dets.len()
            invariant
                k <= self.dets@.len(),
                forall|m: int| 0 <= m < k ==> self.dets@[m]@ != d@,
            decreases self.dets@.len() - k,
        {
            if same_vec(&self.dets[k].rows, &d.rows) && same_vec(&self.dets[k].cols, &d.cols) {
                assert(self.dets@[k as int]@ == d@);
                return true;
            }
            k = k + 1;
        }
        false
    }

    pub fn insert(&mut self, d: Determinant)
        ensures
            final(self)@ == old(self)@.insert(d@),
    {
        let ghost before = self.dets@;
        self.dets.push(d);
        assert(self@ =~= old(self)@.insert(d@)) by {
            assert forall|x: DetView| self@.contains(x) == old(self)@.insert(d@).contains(x) by {
                if old(self)@.contains(x) {
                    let k = choose|k: int| 0 <= k < before.len() && before[k]@ == x;
                    assert(self.dets@[k]@ == x);
                }
                if self@.contains(x) {
                    let k = choose|k: int| 0 <= k < self.dets@.len() && self.dets@[k]@ == x;
                    if k < before.len() {
                        assert(before[k]@ == x);
                    }
                }
                if x == d@ {
                    assert(self.dets@[before.len() as int]@ == x);
                }
            }
        }
    }
}

pub(crate) fn copy_vec(a: &Vec<usize>) -> (r: Vec<usize>)
    ensures
        r@ == a@,
{
    let mut r: Vec<usize> = Vec::new();
    let mut k: usize = 0;
    while k < a.len()
        invariant
            k <= a@.len(),
            r@ == a@.take(k as int),
        decreases a@.len() - k,
    {
        r.push(a[k]);
        k = k + 1;
        assert(r@ =~= a@.take(k as int));
    }
    assert(a@.take(a@.len() as int) =~= a@);
    r
}

fn same_vec(a: &Vec<usize>, b: &Vec<usize>) -> (r: bool)
    ensures
        r == (a@ == b@),
{
    if a.len() != b.len() {
        return false;
    }
    let mut k: usize = 0;
    while k < a.len()
        invariant
            k <= a@.len(),
            a@.len() == b@.len(),
            forall|m: int| 0 <= m < k ==> a@[m] == b@[m],
        decreases a@.len() - k,
    {
        if a[k] != b[k] {
            return false;
        }
        k = k + 1;
    }
    assert(a@ =~= b@);
    true
}

impl Term {
    pub fn new(const_mult: i32, var_mult: Option<[usize; 2]>, det: Determinant) -> (r: Self)
        ensures
            r.const_mult == const_mult,
            r.var_mult == var_mult,
            r.det == det,
    {
        Self { const_mult, var_mult, det }
    }

    /// The term itself, unless its determinant is known to vanish.
    pub fn nonzero(self, zero_dets: &ZeroDets) -> (r: Option<Self>)
        ensures
            r == (if zero_dets@.contains(self.det@) { None } else { Some(self) }),
    {
        let Term { const_mult, var_mult, det } = self;
        match det.nonzero(zero_dets) {
            Some(det) => Some(Term { const_mult, var_mult, det }),
            None => None,
        }
    }
}

/// The terms of `ts` whose determinants are not in `zero`, in their order.
pub open spec fn nonzero_terms(ts: Seq<Term>, zero: Set<DetView>) -> Seq<Term>
    decreases ts.len(),
{
    if ts.len() == 0 {
        Seq::empty()
    } else {
        let init = nonzero_terms(ts.drop_last(), zero);
        if zero.contains(ts.last().det@) {
            init
        } else {
            init.push(ts.last())
        }
    }
}

/// The determinant of one row `r` and one column `c`: it vanishes when
/// coordinate `c` of row `r` equals that of the last row.
pub open spec fn single(r: usize, c: usize) -> DetView {
    (seq![r], seq![c])
}

/// `zero` after learning that `d` vanishes. When `d` says that a coordinate
/// of a row equals that of the last row and all the other coordinates of that
/// row are known to be equal too, the magnitudes are equal as well.
pub open spec fn record_zero(zero: Set<DetView>, d: DetView, dim: nat) -> Set<DetView> {
    let z = zero.insert(d);
    if d.0.len() == 1 && d.1.len() == 1 && forall|c: usize| c < dim ==> #[trigger] z.contains(single(d.0[0], c)) {
        z.insert(single(d.0[0], dim as usize))
    } else {
        z
    }
}

/// The determinants known to vanish once the sum with terms `ts` has been
/// reduced against `zero`.
pub open spec fn zero_after_sum(zero: Set<DetView>, ts: Seq<Term>, dim: nat) -> Set<DetView> {
    let kept = nonzero_terms(ts, zero);
    if kept.len() == 1 && kept[0].var_mult is None {
        record_zero(zero, kept[0].det@, dim)
    } else {
        zero
    }
}

/// The determinants known to vanish when the sum at position `n` of `sums`
/// comes to be reduced, the sums before it having been reduced in order.
pub open spec fn zero_before(sums: Seq<(EFactor, TermSum)>, n: int, dim: nat) -> Set<DetView>
    decreases n,
{
    if n <= 0 {
        Set::empty()
    } else {
        zero_after_sum(zero_before(sums, n - 1, dim), sums[n - 1].1.terms@, dim)
    }
}

/// How the evaluator realises a case of a cascade.
#[derive(Clone, Copy, Debug, PartialEq, Eq)]
pub enum Pattern {
    /// The whole in-hypersphere determinant.
    Full,
    /// One determinant that keeps the magnitude column: a lifted determinant.
    Lifted,
    /// One determinant on the single coordinate column `axis`: a comparison of coordinates.
    Coordinate { axis: usize },
    /// One determinant on coordinate columns only: an orientation of a projection.
    Projection,
    /// A determinant without variable multiplier plus one with a variable multiplier.
    LiftedPlusCoordinate,
    /// Two terms with variable multipliers on the same determinant.
    CoordinatePair,
}

/// The pattern of a reduced sum with terms `ts`, if it has one.
pub open spec fn pattern_of(ts: Seq<Term>, dim: nat) -> Option<Pattern> {
    if ts.len() == 1 && ts[0].var_mult is None {
        let cols = ts[0].det.cols@;
        if cols.len() == dim + 1 {
            Some(Pattern::Full)
        } else if cols.len() > 0 && cols.last() == dim {
            Some(Pattern::Lifted)
        } else if cols.len() == 1 {
            Some(Pattern::Coordinate { axis: cols[0] })
        } else {
            Some(Pattern::Projection)
        }
    } else if ts.len() == 2 && ts[0].var_mult is None && ts[1].var_mult is Some {
        Some(Pattern::LiftedPlusCoordinate)
    } else if ts.len() == 2 && ts[0].var_mult is Some && ts[1].var_mult is Some && ts[0].det@
        == ts[1].det@ {
        Some(Pattern::CoordinatePair)
    } else {
        None
    }
}

impl TermSum {
    /// The pattern by which the evaluator realises this sum; `None` for a
    /// sum of a shape that no pattern covers.
    pub fn pattern(&self, dim: usize) -> (r: Option<Pattern>)
        ensures
            r == pattern_of(self.terms@, dim as nat),
    {
        let ts = &self.terms;
        if ts.len() == 1 && ts[0].var_mult.is_none() {
            let cols = &ts[0].det.cols;
            if dim < usize::MAX && cols.len() == dim + 1 {
                Some(Pattern::Full)
            } else if cols.len() > 0 && cols[cols.len() - 1] == dim {
                Some(Pattern::Lifted)
            } else if cols.len() == 1 {
                Some(Pattern::Coordinate { axis: cols[0] })
            } else {
                Some(Pattern::Projection)
            }
        } else if ts.len() == 2 && ts[0].var_mult.is_none() && ts[1].var_mult.is_some() {
            Some(Pattern::LiftedPlusCoordinate)
        } else if ts.len() == 2 && ts[0].var_mult.is_some() && ts[1].var_mult.is_some() && same_vec(
            &ts[0].det.rows,
            &ts[1].det.rows,
        ) && same_vec(&ts[0].det.cols, &ts[1].det.cols) {
            Some(Pattern::CoordinatePair)
        } else {
            None
        }
    }

    pub fn new() -> (r: Self)
        ensures
            r.terms@ == Seq::<Term>::empty(),
    {
        TermSum { terms: Vec::new() }
    }

    /// Drops the terms whose determinants are known to vanish. A sum left with
    /// a single term without variable multiplier can only be reached when that
    /// determinant vanishes, so it is recorded in `zero_dets`. An empty sum is
    /// `None`: its case can never be reached.
    pub fn without_zero_dets(self, dim: usize, zero_dets: &mut ZeroDets) -> (r: Option<Self>)
        requires
            dim < usize::MAX,
        ensures
            r matches Some(s) ==> s.terms@ == nonzero_terms(self.terms@, old(zero_dets)@),
            r is None <==> nonzero_terms(self.terms@, old(zero_dets)@).len() == 0,
            final(zero_dets)@ == zero_after_sum(old(zero_dets)@, self.terms@, dim as nat),
    {
        let ghost all = self.terms@;
        let mut kept: Vec<Term> = Vec::new();
        for t in it: self.terms
            invariant
                it.seq() == all,
                kept@ == nonzero_terms(all.take(it.index() as int), zero_dets@),
        {
            proof {
                assert(all.take(it.index() + 1).drop_last() =~= all.take(it.index() as int));
            }
            if let Some(t) = t.nonzero(zero_dets) {
                kept.push(t);
            }
        }
        assert(all.take(all.len() as int) =~= all);
        if kept.len() == 1 && kept[0].var_mult.is_none() {
            let row = kept[0].det.rows.len() == 1 && kept[0].det.cols.len() == 1;
            let det = kept[0].det.duplicate();
            zero_dets.insert(det);
            if row {
                let r = kept[0].det.rows[0];
                let mut all_equal = true;
                let mut c: usize = 0;
                while c < dim
                    invariant
                        c <= dim,
                        all_equal == forall|c2: usize| c2 < c ==> #[trigger] zero_dets@.contains(single(r, c2)),
                    decreases dim - c,
                {
                    let probe = Determinant::new(vec![r], vec![c]);
                    assert(probe@ =~= single(r, c));
                    if !zero_dets.contains(&probe) {
                        all_equal = false;
                    }
                    c = c + 1;
                }
                if all_equal {
                    let mag = Determinant::new(vec![r], vec![dim]);
                    assert(mag@ =~= single(r, dim));
                    zero_dets.insert(mag);
                }
            }
        }
        if kept.len() == 0 {
            None
        } else {
            Some(TermSum { terms: kept })
        }
    }
}

/// The exponent of the perturbation of digit `t` in the ε-factor `e`.
pub open spec fn digit_of(e: int, t: nat) -> int {
    (e / pow(3, t)) % 3
}

/// The perturbations that divide the ε-factor `e` among the digits `t..n`, in
/// ascending order of digit: the row and column of each, and its exponent.
pub open spec fn perturbations_from(e: int, dim: nat, t: nat, n: nat) -> Seq<([usize; 2], u8)>
    decreases n - t,
{
    if t >= n || dim == 0 {
        Seq::empty()
    } else {
        let d = digit_of(e, t);
        let here = if d > 0 {
            seq![([(t / dim) as usize, (dim - 1 - t % dim) as usize], d as u8)]
        } else {
            Seq::empty()
        };
        here + perturbations_from(e, dim, t + 1, n)
    }
}

impl EFactor {
    /// The perturbations that divide this ε-factor among those of the first
    /// `points` rows in `dim` dimensions, in ascending order of digit: the row
    /// and column of each, and its exponent.
    pub fn perturbations(self, dim: usize, points: usize) -> (r: Vec<([usize; 2], u8)>)
        requires
            1 <= dim,
            dim * points <= usize::MAX,
        ensures
            r@ == perturbations_from(self.0 as int, dim as nat, 0, (dim * points) as nat),
    {
        let n = dim * points;
        let mut rest: u64 = self.0;
        let mut out: Vec<([usize; 2], u8)> = Vec::new();
        let mut t: usize = 0;
        proof {
            reveal(pow);
        }
        while t < n
            invariant
                1 <= dim,
                n == dim * points,
                t <= n,
                rest as int == self.0 as int / pow(3, t as nat),
                out@ + perturbations_from(self.0 as int, dim as nat, t as nat, n as nat) == perturbations_from(
                    self.0 as int,
                    dim as nat,
                    0,
                    n as nat,
                ),
            decreases n - t,
        {
            let d = rest % 3;
            let ghost before = out@;
            if d > 0 {
                out.push(([t / dim, dim - 1 - t % dim], d as u8));
            }
            proof {
                lemma_pow_positive(3, t as nat);
                vstd::arithmetic::div_mod::lemma_div_denominator(self.0 as int, pow(3, t as nat), 3);
                assert(pow(3, (t + 1) as nat) == 3 * pow(3, t as nat)) by {
                    reveal(pow);
                }
                let here = if d > 0 {
                    seq![([(t / dim) as usize, (dim - 1 - t % dim) as usize], d as u8)]
                } else {
                    Seq::<([usize; 2], u8)>::empty()
                };
                assert(out@ =~= before + here);
                lemma_add_assoc(
                    before,
                    here,
                    perturbations_from(self.0 as int, dim as nat, (t + 1) as nat, n as nat),
                );
            }
            rest = rest / 3;
            t = t + 1;
        }
        assert(out@ + perturbations_from(self.0 as int, dim as nat, t as nat, n as nat) =~= out@);
        out
    }

    /// The ε-factor of the product of the perturbations of the coordinates
    /// `[row, col]` in `coords`.
    pub fn new(dim: usize, coords: &[[usize; 2]]) -> (r: Self)
        requires
            coords_in_range(dim as nat, coords@),
            dim * (dim + 1) <= usize::MAX,
            efactor_of(dim as nat, coords@) <= u64::MAX,
        ensures
            r.0 == efactor_of(dim as nat, coords@),
    {
        let mut sum: u64 = 0;
        let mut k: usize = 0;
        while k < coords.len()
            invariant
                k <= coords@.len(),
                coords_in_range(dim as nat, coords@),
                dim * (dim + 1) <= usize::MAX,
                efactor_of(dim as nat, coords@) <= u64::MAX,
                sum == efactor_of(dim as nat, coords@.take(k as int)),
            decreases coords@.len() - k,
        {
            let r = coords[k][0];
            let c = coords[k][1];
            proof {
                assert(coords@[k as int][1] < dim && coords@[k as int][0] <= dim);
                assert(dim * r + dim <= dim * (dim + 1)) by (nonlinear_arith)
                    requires r <= dim;
                assert(coords@.take(k + 1).drop_last() =~= coords@.take(k as int));
                lemma_efactor_prefix(dim as nat, coords@, k + 1);
                lemma_efactor_prefix(dim as nat, coords@, k as int);
                lemma_pow_positive(3, digit(dim as nat, r as nat, c as nat));
            }
            let p = pow3(dim * r + dim - 1 - c);
            sum = sum + p;
            k = k + 1;
        }
        assert(coords@.take(coords@.len() as int) =~= coords@);
        EFactor(sum)
    }
}

pub(crate) proof fn lemma_add_assoc<A>(a: Seq<A>, b: Seq<A>, c: Seq<A>)
    ensures
        a + b + c == a + (b + c),
{
    assert(a + b + c =~= a + (b + c));
}

/// A term as plain values: its constant, its variable multiplier and the rows
/// and columns of its determinant.
pub type TermView = (i32, Option<[usize; 2]>, DetView);

impl View for Term {
    type V = TermView;

    open spec fn view(&self) -> TermView {
        (self.const_mult, self.var_mult, self.det@)
    }
}

/// Reduces the sums in order against the determinants known to vanish,
/// starting from none: each sum loses its terms with a vanishing determinant,
/// and an empty sum becomes `None`, a case that can never be reached.
pub fn reduce_sums(sums: Vec<(EFactor, TermSum)>, dim: usize) -> (r: Vec<(EFactor, Option<TermSum>)>)
    requires
        dim < usize::MAX,
    ensures
        r@.len() == sums@.len(),
        forall|k: int| 0 <= k < r@.len() ==> (#[trigger] r@[k]).0 == sums@[k].0,
        forall|k: int|
            0 <= k < r@.len() ==> ((#[trigger] r@[k]).1 is None <==> nonzero_terms(
                sums@[k].1.terms@,
                zero_before(sums@, k, dim as nat),
            ).len() == 0),
        forall|k: int|
            0 <= k < r@.len() ==> ((#[trigger] r@[k]).1 matches Some(s) ==> s.terms@ == nonzero_terms(
                sums@[k].1.terms@,
                zero_before(sums@, k, dim as nat),
            )),
{
    let ghost all = sums@;
    let mut zero = ZeroDets::new();
    let mut out: Vec<(EFactor, Option<TermSum>)> = Vec::new();
    for es in it: sums
        invariant
            it.seq() == all,
            dim < usize::MAX,
            out@.len() == it.index(),
            zero@ == zero_before(all, it.index() as int, dim as nat),
            forall|k: int| 0 <= k < out@.len() ==> (#[trigger] out@[k]).0 == all[k].0,
            forall|k: int|
                0 <= k < out@.len() ==> ((#[trigger] out@[k]).1 is None <==> nonzero_terms(
                    all[k].1.terms@,
                    zero_before(all, k, dim as nat),
                ).len() == 0),
            forall|k: int|
                0 <= k < out@.len() ==> ((#[trigger] out@[k]).1 matches Some(s) ==> s.terms@
                    == nonzero_terms(all[k].1.terms@, zero_before(all, k, dim as nat))),
    {
        let (e, sum) = es;
        let reduced = sum.without_zero_dets(dim, &mut zero);
        out.push((e, reduced));
    }
    out
}

} // verus!
