//! Expected reuse per byte, compared exactly.

use crate::positive::PositiveU64;
use std::cmp::Ordering;
use vstd::prelude::*;
use vstd::std_specs::cmp::{PartialEqSpecImpl, PartialOrdSpecImpl};

verus! {

/// Bytes in a mebibyte.
pub const MIB: u64 = 1_048_576;

/// Hits per byte, as an exact ratio.
#[derive(Clone, Copy, Debug)]
pub struct AdmissionScore {
    hits: u64,
    bytes: PositiveU64,
}

fn product(a: u64, b: u64) -> (r: u128)
    ensures
        r == a * b,
{
    assert(a * b <= u64::MAX * u64::MAX) by (nonlinear_arith)
        requires
            a <= u64::MAX,
            b <= u64::MAX,
    ;
    a as u128 * b as u128
}

impl AdmissionScore {
    pub closed spec fn hit_count(self) -> nat {
        self.hits as nat
    }

    pub closed spec fn byte_count(self) -> nat {
        self.bytes@
    }

    /// Whether this score's ratio is smaller than another's.
    pub open spec fn less(self, other: AdmissionScore) -> bool {
        self.hit_count() * other.byte_count() < other.hit_count() * self.byte_count()
    }

    /// Whether two scores have the same ratio.
    pub open spec fn equal(self, other: AdmissionScore) -> bool {
        self.hit_count() * other.byte_count() == other.hit_count() * self.byte_count()
    }

    pub fn new(hits: u64, bytes: PositiveU64) -> (r: Self)
        ensures
            r.hit_count() == hits,
            r.byte_count() == bytes@,
    {
        AdmissionScore { hits, bytes }
    }

    pub open spec fn dense_enough(self, minimum: u64) -> bool {
        self.hit_count() * MIB >= minimum * self.byte_count()
    }

    /// Whether there are at least so many hits per mebibyte.
    pub fn meets_hits_per_mib(self, minimum: u64) -> (r: bool)
        ensures
            r == self.dense_enough(minimum),
    {
        product(self.hits, MIB) >= product(minimum, self.bytes.get())
    }

    pub fn bytes(self) -> (r: PositiveU64)
        ensures
            r@ == self.byte_count(),
    {
        self.bytes
    }
}

impl PartialEq for AdmissionScore {
    fn eq(&self, other: &Self) -> (r: bool) {
        product(self.hits, other.bytes.get()) == product(other.hits, self.bytes.get())
    }
}

impl PartialEqSpecImpl for AdmissionScore {
    open spec fn obeys_eq_spec() -> bool {
        true
    }

    open spec fn eq_spec(&self, other: &Self) -> bool {
        self.equal(*other)
    }
}

impl Eq for AdmissionScore {

}

impl PartialOrd for AdmissionScore {
    fn partial_cmp(&self, other: &Self) -> (r: Option<Ordering>) {
        let mine = product(self.hits, other.bytes.get());
        let theirs = product(other.hits, self.bytes.get());
        if mine < theirs {
            Some(Ordering::Less)
        } else if mine == theirs {
            Some(Ordering::Equal)
        } else {
            Some(Ordering::Greater)
        }
    }
}

impl PartialOrdSpecImpl for AdmissionScore {
    open spec fn obeys_partial_cmp_spec() -> bool {
        true
    }

    open spec fn partial_cmp_spec(&self, other: &Self) -> Option<Ordering> {
        if self.less(*other) {
            Some(Ordering::Less)
        } else if self.equal(*other) {
            Some(Ordering::Equal)
        } else {
            Some(Ordering::Greater)
        }
    }
}

/// Scores are totally ordered by their ratio: exactly one of less, equal and greater holds of any
/// two, and less is transitive, also across equal scores.
pub proof fn scores_are_totally_ordered(a: AdmissionScore, b: AdmissionScore, c: AdmissionScore)
    requires
        a.byte_count() > 0,
        b.byte_count() > 0,
        c.byte_count() > 0,
    ensures
        a.less(b) || a.equal(b) || b.less(a),
        !(a.less(b) && b.less(a)),
        !(a.less(b) && a.equal(b)),
        a.equal(b) == b.equal(a),
        a.less(b) && b.less(c) ==> a.less(c),
        a.less(b) && b.equal(c) ==> a.less(c),
        a.equal(b) && b.less(c) ==> a.less(c),
        a.equal(b) && b.equal(c) ==> a.equal(c),
{
    let (ha, na) = (a.hit_count() as int, a.byte_count() as int);
    let (hb, nb) = (b.hit_count() as int, b.byte_count() as int);
    let (hc, nc) = (c.hit_count() as int, c.byte_count() as int);
    cross_less(ha, na, hb, nb, hc, nc);
    cross_equal(ha, na, hb, nb, hc, nc);
}

proof fn cross_less(ha: int, na: int, hb: int, nb: int, hc: int, nc: int)
    requires
        na > 0,
        nb > 0,
        nc > 0,
        ha >= 0,
        hb >= 0,
        hc >= 0,
    ensures
        ha * nb < hb * na && hb * nc <= hc * nb ==> ha * nc < hc * na,
        ha * nb <= hb * na && hb * nc < hc * nb ==> ha * nc < hc * na,
{
    if ha * nb < hb * na && hb * nc <= hc * nb {
        assert(ha * nb * nc < hb * na * nc) by (nonlinear_arith)
            requires
                ha * nb < hb * na,
                nc > 0,
        ;
        assert(hb * nc * na <= hc * nb * na) by (nonlinear_arith)
            requires
                hb * nc <= hc * nb,
                na > 0,
        ;
        assert(ha * nc < hc * na) by (nonlinear_arith)
            requires
                ha * nb * nc < hb * na * nc,
                hb * nc * na <= hc * nb * na,
                nb > 0,
        ;
    }
    if ha * nb <= hb * na && hb * nc < hc * nb {
        assert(ha * nb * nc <= hb * na * nc) by (nonlinear_arith)
            requires
                ha * nb <= hb * na,
                nc > 0,
        ;
        assert(hb * nc * na < hc * nb * na) by (nonlinear_arith)
            requires
                hb * nc < hc * nb,
                na > 0,
        ;
        assert(ha * nc < hc * na) by (nonlinear_arith)
            requires
                ha * nb * nc <= hb * na * nc,
                hb * nc * na < hc * nb * na,
                nb > 0,
        ;
    }
}

proof fn cross_equal(ha: int, na: int, hb: int, nb: int, hc: int, nc: int)
    requires
        na > 0,
        nb > 0,
        nc > 0,
    ensures
        ha * nb == hb * na && hb * nc == hc * nb ==> ha * nc == hc * na,
{
    if ha * nb == hb * na && hb * nc == hc * nb {
        assert(ha * nb * nc == hb * na * nc) by (nonlinear_arith)
            requires
                ha * nb == hb * na,
        ;
        assert(hb * nc * na == hc * nb * na) by (nonlinear_arith)
            requires
                hb * nc == hc * nb,
        ;
        assert(ha * nc == hc * na) by (nonlinear_arith)
            requires
                ha * nb * nc == hb * na * nc,
                hb * nc * na == hc * nb * na,
                nb > 0,
        ;
    }
}

/// A score rises with its hits and falls with its bytes.
pub proof fn scores_rise_with_hits_and_fall_with_bytes(a: AdmissionScore, b: AdmissionScore)
    requires
        a.byte_count() > 0,
        b.byte_count() > 0,
    ensures
        a.byte_count() == b.byte_count() ==> (a.less(b) <==> a.hit_count() < b.hit_count()),
        a.hit_count() == b.hit_count() && a.hit_count() > 0 ==> (a.less(b) <==> a.byte_count()
            > b.byte_count()),
        a.byte_count() == b.byte_count() && a.hit_count() == b.hit_count() ==> a.equal(b),
{
    let (ha, na) = (a.hit_count() as int, a.byte_count() as int);
    let (hb, nb) = (b.hit_count() as int, b.byte_count() as int);
    assert(na == nb ==> (ha * nb < hb * na <==> ha < hb)) by (nonlinear_arith)
        requires
            na > 0,
            nb > 0,
    ;
    assert(ha == hb && ha > 0 ==> (ha * nb < hb * na <==> na > nb)) by (nonlinear_arith)
        requires
            na > 0,
            nb > 0,
    ;
}

/// A score meets a floor exactly where each mebibyte has that many hits: a higher score meets every
/// floor that a lower one meets, and a floor of none is always met.
pub proof fn floors_are_hits_per_mebibyte(a: AdmissionScore, b: AdmissionScore, minimum: u64)
    requires
        a.byte_count() > 0,
        b.byte_count() > 0,
    ensures
        a.byte_count() == 1_048_576 ==> (a.dense_enough(minimum) <==> a.hit_count() >= minimum),
        a.dense_enough(minimum) && (a.less(b) || a.equal(b)) ==> b.dense_enough(minimum),
        a.dense_enough(0),
{
    let (ha, na) = (a.hit_count() as int, a.byte_count() as int);
    let (hb, nb) = (b.hit_count() as int, b.byte_count() as int);
    let (m, mib) = (minimum as int, MIB as int);
    assert(na == mib ==> (ha * mib >= m * na <==> ha >= m)) by (nonlinear_arith)
        requires
            na > 0,
            mib > 0,
    ;
    if ha * mib >= m * na && ha * nb <= hb * na {
        assert(hb * mib >= m * nb) by (nonlinear_arith)
            requires
                ha * mib >= m * na,
                ha * nb <= hb * na,
                na > 0,
                nb > 0,
                mib > 0,
                m >= 0,
                ha >= 0,
                hb >= 0,
        {
            assert(hb * mib * na >= ha * nb * mib) by (nonlinear_arith)
                requires
                    ha * nb <= hb * na,
                    mib > 0,
            ;
            assert(ha * nb * mib >= m * na * nb) by (nonlinear_arith)
                requires
                    ha * mib >= m * na,
                    nb > 0,
            ;
            assert(hb * mib >= m * nb) by (nonlinear_arith)
                requires
                    hb * mib * na >= m * na * nb,
                    na > 0,
            ;
        }
    }
}

} // verus!
