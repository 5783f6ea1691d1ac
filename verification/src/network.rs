//! The impedance-network tree and its reduction.
//!
//! A `Network` is a finite binary tree: a leaf impedance, or a series or
//! parallel combination of two sub-networks.  Reduction collapses any
//! such tree, post-order, to a single equivalent leaf: series children
//! combine by complex addition, parallel children by the two-impedance
//! formula `(za * zb) / (za + zb)`.

use vstd::prelude::*;

use crate::complex::{
    add_ok, add_v, div_ok, div_steps_v, div_v, eqv, lemma_div_eqv_args, lemma_div_steps_eqv,
    lemma_eqv_trans, lemma_norm_props, mul_ok, mul_v, norm_v, Cplx, CplxV,
};

verus! {

/// A two-terminal impedance network.
#[derive(Debug)]
pub enum Network {
    /// A single primitive impedance.
    Impedance(Cplx),
    /// Two sub-networks connected end-to-end.
    Series(Box<Network>, Box<Network>),
    /// Two sub-networks connected across the same two terminals.
    Parallel(Box<Network>, Box<Network>),
}

/// Failure of an operation on a network.
#[derive(Clone, Copy, Debug, PartialEq, Eq, Structural)]
pub enum NetError {
    /// A terminal derivation was invoked on a series or parallel node;
    /// the caller must reduce first.
    UnsupportedOnComposite,
    /// `unwrap_impedance` was invoked on a series or parallel node.
    InvalidExtraction,
    /// Exact arithmetic left the representable range, or a parallel
    /// combination or quotient divided by a complex zero.
    Numeric,
}

/// The equivalent impedance of a parallel pair, as computed: the
/// normalized product divided by the normalized sum.
pub open spec fn par_v(x: CplxV, y: CplxV) -> CplxV {
    div_steps_v(norm_v(mul_v(x, y)), norm_v(add_v(x, y)))
}

/// Every step of the parallel formula is defined and representable.
pub open spec fn par_ok(x: CplxV, y: CplxV) -> bool {
    mul_ok(x, y) && add_ok(x, y) && div_ok(norm_v(mul_v(x, y)), norm_v(add_v(x, y)))
}

/// The equivalent impedance of a network, as an unbounded value.
pub open spec fn reduce_v(n: Network) -> CplxV
    decreases n,
{
    match n {
        Network::Impedance(z) => z@,
        Network::Series(a, b) => norm_v(add_v(reduce_v(*a), reduce_v(*b))),
        Network::Parallel(a, b) => par_v(reduce_v(*a), reduce_v(*b)),
    }
}

/// Reduction of `n` stays within the representable range and never
/// divides by a complex zero.
pub open spec fn net_ok(n: Network) -> bool
    decreases n,
{
    match n {
        Network::Impedance(_) => true,
        Network::Series(a, b) => {
            net_ok(*a) && net_ok(*b) && add_ok(reduce_v(*a), reduce_v(*b))
        },
        Network::Parallel(a, b) => {
            net_ok(*a) && net_ok(*b) && par_ok(reduce_v(*a), reduce_v(*b))
        },
    }
}

/// Reducing a series composition of two leaves yields their complex
/// sum, and succeeds exactly when that sum is representable.
pub proof fn lemma_series_of_leaves(n: Network, z1: Cplx, z2: Cplx)
    requires
        n matches Network::Series(a, b) && *a == Network::Impedance(z1) && *b
            == Network::Impedance(z2),
        1 <= z1@.den,
        1 <= z2@.den,
    ensures
        reduce_v(n) == norm_v(add_v(z1@, z2@)),
        eqv(reduce_v(n), add_v(z1@, z2@)),
        net_ok(n) <==> add_ok(z1@, z2@),
{
    reveal_with_fuel(reduce_v, 2);
    reveal_with_fuel(net_ok, 2);
    assert(1 <= z1@.den * z2@.den) by (nonlinear_arith)
        requires
            1 <= z1@.den,
            1 <= z2@.den,
    ;
    lemma_norm_props(add_v(z1@, z2@));
}

/// Reducing a parallel composition of two leaves whose sum is not the
/// complex zero yields the two-impedance formula `(z1 * z2) / (z1 + z2)`,
/// and succeeds exactly when each step of that formula is representable.
pub proof fn lemma_parallel_of_leaves(n: Network, z1: Cplx, z2: Cplx)
    requires
        n matches Network::Parallel(a, b) && *a == Network::Impedance(z1) && *b
            == Network::Impedance(z2),
        1 <= z1@.den,
        1 <= z2@.den,
        !(add_v(z1@, z2@).re == 0 && add_v(z1@, z2@).im == 0),
    ensures
        reduce_v(n) == div_steps_v(norm_v(mul_v(z1@, z2@)), norm_v(add_v(z1@, z2@))),
        eqv(reduce_v(n), div_v(mul_v(z1@, z2@), add_v(z1@, z2@))),
        net_ok(n) <==> par_ok(z1@, z2@),
{
    reveal_with_fuel(reduce_v, 2);
    reveal_with_fuel(net_ok, 2);
    let m = mul_v(z1@, z2@);
    let a = add_v(z1@, z2@);
    assert(1 <= z1@.den * z2@.den) by (nonlinear_arith)
        requires
            1 <= z1@.den,
            1 <= z2@.den,
    ;
    lemma_norm_props(m);
    lemma_norm_props(a);
    let nm = norm_v(m);
    let na = norm_v(a);
    lemma_div_steps_eqv(nm, na);
    lemma_div_eqv_args(nm, m, na, a);
    assert(div_v(nm, na).den != 0) by (nonlinear_arith)
        requires
            div_v(nm, na).den == nm.den * (na.re * na.re + na.im * na.im),
            1 <= nm.den,
            !(na.re == 0 && na.im == 0),
    ;
    lemma_eqv_trans(div_steps_v(nm, na), div_v(nm, na), div_v(m, a));
}

/// A leaf network holding the impedance `z`.  Always succeeds.
pub fn leaf(z: Cplx) -> (r: Network)
    ensures
        r == Network::Impedance(z),
{
    Network::Impedance(z)
}

/// Series composition, consuming both networks.
pub fn series(a: Network, b: Network) -> (r: Network)
    ensures
        r matches Network::Series(x, y) && *x == a && *y == b,
{
    Network::Series(Box::new(a), Box::new(b))
}

/// Series composition of two borrowed networks, cloning both.
pub fn series_ref(a: &Network, b: &Network) -> (r: Network)
    ensures
        r matches Network::Series(x, y) && *x == *a && *y == *b,
{
    Network::Series(Box::new(a.duplicate()), Box::new(b.duplicate()))
}

/// Series composition, borrowing the left network and consuming the right.
pub fn series_ref_left(a: &Network, b: Network) -> (r: Network)
    ensures
        r matches Network::Series(x, y) && *x == *a && *y == b,
{
    Network::Series(Box::new(a.duplicate()), Box::new(b))
}

/// Series composition, consuming the left network and borrowing the right.
pub fn series_ref_right(a: Network, b: &Network) -> (r: Network)
    ensures
        r matches Network::Series(x, y) && *x == a && *y == *b,
{
    Network::Series(Box::new(a), Box::new(b.duplicate()))
}

/// Parallel composition, consuming both networks.
pub fn parallel(a: Network, b: Network) -> (r: Network)
    ensures
        r matches Network::Parallel(x, y) && *x == a && *y == b,
{
    Network::Parallel(Box::new(a), Box::new(b))
}

/// Parallel composition of two borrowed networks, cloning both.
pub fn parallel_ref(a: &Network, b: &Network) -> (r: Network)
    ensures
        r matches Network::Parallel(x, y) && *x == *a && *y == *b,
{
    Network::Parallel(Box::new(a.duplicate()), Box::new(b.duplicate()))
}

/// Parallel composition, borrowing the left network and consuming the right.
pub fn parallel_ref_left(a: &Network, b: Network) -> (r: Network)
    ensures
        r matches Network::Parallel(x, y) && *x == *a && *y == b,
{
    Network::Parallel(Box::new(a.duplicate()), Box::new(b))
}

/// Parallel composition, consuming the left network and borrowing the right.
pub fn parallel_ref_right(a: Network, b: &Network) -> (r: Network)
    ensures
        r matches Network::Parallel(x, y) && *x == a && *y == *b,
{
    Network::Parallel(Box::new(a), Box::new(b.duplicate()))
}

impl Network {
    /// A structurally equal copy; the original stays usable.
    pub fn duplicate(&self) -> (r: Network)
        ensures
            r == *self,
        decreases self,
    {
        match self {
            Network::Impedance(z) => Network::Impedance(*z),
            Network::Series(a, b) => {
                Network::Series(Box::new(a.duplicate()), Box::new(b.duplicate()))
            },
            Network::Parallel(a, b) => {
                Network::Parallel(Box::new(a.duplicate()), Box::new(b.duplicate()))
            },
        }
    }

    /// Collapse the network, post-order, to a single equivalent leaf.
    ///
    /// Succeeds exactly when every combination step is representable
    /// and no parallel pair sums to a complex zero; an already-reduced
    /// (leaf) network comes back unchanged.  A success is always a
    /// single leaf holding the equivalent impedance.
    pub fn reduce(self) -> (r: Result<Network, NetError>)
        ensures
            r is Ok <==> net_ok(self),
            r matches Ok(m) ==> m matches Network::Impedance(z) && z@ == reduce_v(self),
            self matches Network::Impedance(_) ==> r == Ok::<Network, NetError>(self),
            r matches Err(e) ==> e == NetError::Numeric,
        decreases self,
    {
        match self {
            Network::Impedance(z) => Ok(Network::Impedance(z)),
            Network::Series(a, b) => {
                let na = match (*a).reduce() {
                    Ok(m) => m,
                    Err(e) => {
                        return Err(e);
                    },
                };
                let nb = match (*b).reduce() {
                    Ok(m) => m,
                    Err(e) => {
                        return Err(e);
                    },
                };
                if let (Network::Impedance(za), Network::Impedance(zb)) = (na, nb) {
                    match za.checked_add(zb) {
                        Some(zc) => Ok(Network::Impedance(zc)),
                        None => Err(NetError::Numeric),
                    }
                } else {
                    proof {
                        assert(false);
                    }
                    Err(NetError::Numeric)
                }
            },
            Network::Parallel(a, b) => {
                let na = match (*a).reduce() {
                    Ok(m) => m,
                    Err(e) => {
                        return Err(e);
                    },
                };
                let nb = match (*b).reduce() {
                    Ok(m) => m,
                    Err(e) => {
                        return Err(e);
                    },
                };
                if let (Network::Impedance(za), Network::Impedance(zb)) = (na, nb) {
                    let prod = match za.checked_mul(zb) {
                        Some(p) => p,
                        None => {
                            return Err(NetError::Numeric);
                        },
                    };
                    let sum = match za.checked_add(zb) {
                        Some(s) => s,
                        None => {
                            return Err(NetError::Numeric);
                        },
                    };
                    match prod.checked_div(sum) {
                        Some(zc) => Ok(Network::Impedance(zc)),
                        None => Err(NetError::Numeric),
                    }
                } else {
                    proof {
                        assert(false);
                    }
                    Err(NetError::Numeric)
                }
            },
        }
    }

    /// The impedance held by a leaf; `InvalidExtraction` on a series or
    /// parallel node.
    pub fn unwrap_impedance(&self) -> (r: Result<Cplx, NetError>)
        ensures
            self matches Network::Impedance(z) ==> r == Ok::<Cplx, NetError>(*z),
            !(self matches Network::Impedance(_)) ==> r == Err::<Cplx, NetError>(
                NetError::InvalidExtraction,
            ),
    {
        match self {
            Network::Impedance(z) => Ok(*z),
            _ => Err(NetError::InvalidExtraction),
        }
    }

    /// The current `v / z` through a reduced (leaf) impedance under the
    /// voltage `v`; `UnsupportedOnComposite` on a series or parallel node.
    pub fn current_from_voltage(&self, v: Cplx) -> (r: Result<Cplx, NetError>)
        ensures
            self matches Network::Impedance(z) ==> ((div_ok(v@, z@) ==> (r matches Ok(c)
                && c@ == div_steps_v(v@, z@) && eqv(c@, div_v(v@, z@)))) && (!div_ok(v@, z@)
                ==> r == Err::<Cplx, NetError>(NetError::Numeric))),
            !(self matches Network::Impedance(_)) ==> r == Err::<Cplx, NetError>(
                NetError::UnsupportedOnComposite,
            ),
    {
        match self {
            Network::Impedance(z) => match v.checked_div(*z) {
                Some(c) => Ok(c),
                None => Err(NetError::Numeric),
            },
            _ => Err(NetError::UnsupportedOnComposite),
        }
    }

    /// The voltage `i * z` across a reduced (leaf) impedance carrying
    /// the current `i`; `UnsupportedOnComposite` on a series or parallel
    /// node.
    pub fn voltage_from_current(&self, i: Cplx) -> (r: Result<Cplx, NetError>)
        ensures
            self matches Network::Impedance(z) ==> ((mul_ok(i@, z@) ==> (r matches Ok(c)
                && c@ == norm_v(mul_v(i@, z@)) && eqv(c@, mul_v(i@, z@)))) && (!mul_ok(i@, z@)
                ==> r == Err::<Cplx, NetError>(NetError::Numeric))),
            !(self matches Network::Impedance(_)) ==> r == Err::<Cplx, NetError>(
                NetError::UnsupportedOnComposite,
            ),
    {
        match self {
            Network::Impedance(z) => match i.checked_mul(*z) {
                Some(c) => Ok(c),
                None => Err(NetError::Numeric),
            },
            _ => Err(NetError::UnsupportedOnComposite),
        }
    }
}

} // verus!
