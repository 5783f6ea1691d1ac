//! Diagnostic rendering of a network, for human inspection only.
//!
//! A leaf prints as its raw impedance components, `(re+imj)/den`; a
//! series node as `(A + B)`; a parallel node as `(A | B)`, recursively.

use vstd::prelude::*;
use vstd::string::StringExecFns;

use crate::complex::{Cplx, CplxV};
use crate::network::Network;

verus! {

/// Character of the decimal digit `d` (0 to 9).
pub open spec fn digit_text(d: int) -> Seq<char> {
    if d == 0 {
        "0"@
    } else if d == 1 {
        "1"@
    } else if d == 2 {
        "2"@
    } else if d == 3 {
        "3"@
    } else if d == 4 {
        "4"@
    } else if d == 5 {
        "5"@
    } else if d == 6 {
        "6"@
    } else if d == 7 {
        "7"@
    } else if d == 8 {
        "8"@
    } else {
        "9"@
    }
}

/// Decimal text of the nonnegative value `n`.
pub open spec fn nat_text(n: int) -> Seq<char>
    decreases n,
{
    if n < 10 {
        digit_text(n)
    } else {
        nat_text(n / 10) + digit_text(n % 10)
    }
}

/// Decimal text of `x`, with a leading minus sign when negative.
pub open spec fn int_text(x: int) -> Seq<char> {
    if x < 0 {
        "-"@ + nat_text(-x)
    } else {
        nat_text(x)
    }
}

/// A leaf impedance as `(re+imj)/den` over its raw components.
pub open spec fn cplx_text(z: CplxV) -> Seq<char> {
    "("@ + int_text(z.re) + "+"@ + int_text(z.im) + "j)/"@ + int_text(z.den)
}

/// A network in parenthesized infix notation: a leaf as its impedance,
/// `(A + B)` for a series node, `(A | B)` for a parallel node.
pub open spec fn net_text(n: Network) -> Seq<char>
    decreases n,
{
    match n {
        Network::Impedance(z) => cplx_text(z@),
        Network::Series(a, b) => "("@ + net_text(*a) + " + "@ + net_text(*b) + ")"@,
        Network::Parallel(a, b) => "("@ + net_text(*a) + " | "@ + net_text(*b) + ")"@,
    }
}

fn digit_str(d: u128) -> (r: &'static str)
    requires
        d < 10,
    ensures
        r@ == digit_text(d as int),
{
    if d == 0 {
        "0"
    } else if d == 1 {
        "1"
    } else if d == 2 {
        "2"
    } else if d == 3 {
        "3"
    } else if d == 4 {
        "4"
    } else if d == 5 {
        "5"
    } else if d == 6 {
        "6"
    } else if d == 7 {
        "7"
    } else if d == 8 {
        "8"
    } else {
        "9"
    }
}

fn append_u128(n: u128, out: &mut String)
    ensures
        final(out)@ == old(out)@ + nat_text(n as int),
    decreases n,
{
    if n < 10 {
        out.append(digit_str(n));
    } else {
        append_u128(n / 10, out);
        out.append(digit_str(n % 10));
        proof {
            assert(out@ =~= old(out)@ + nat_text(n as int));
        }
    }
}

fn append_i128(x: i128, out: &mut String)
    requires
        i128::MIN < x,
    ensures
        final(out)@ == old(out)@ + int_text(x as int),
{
    if x < 0 {
        out.append("-");
        let m: u128 = (-x) as u128;
        append_u128(m, out);
        proof {
            assert(out@ =~= old(out)@ + int_text(x as int));
        }
    } else {
        append_u128(x as u128, out);
    }
}

fn append_cplx(z: &Cplx, out: &mut String)
    ensures
        final(out)@ == old(out)@ + cplx_text(z@),
{
    out.append("(");
    append_i128(z.re_num(), out);
    out.append("+");
    append_i128(z.im_num(), out);
    out.append("j)/");
    append_i128(z.den(), out);
    proof {
        assert(out@ =~= old(out)@ + cplx_text(z@));
    }
}

fn append_net(n: &Network, out: &mut String)
    ensures
        final(out)@ == old(out)@ + net_text(*n),
    decreases n,
{
    match n {
        Network::Impedance(z) => {
            append_cplx(z, out);
        },
        Network::Series(a, b) => {
            out.append("(");
            append_net(&**a, out);
            out.append(" + ");
            append_net(&**b, out);
            out.append(")");
            proof {
                assert(out@ =~= old(out)@ + net_text(*n));
            }
        },
        Network::Parallel(a, b) => {
            out.append("(");
            append_net(&**a, out);
            out.append(" | ");
            append_net(&**b, out);
            out.append(")");
            proof {
                assert(out@ =~= old(out)@ + net_text(*n));
            }
        },
    }
}

/// The parenthesized infix text of the network.
pub fn render(n: &Network) -> (r: String)
    ensures
        r@ == net_text(*n),
{
    let mut out = String::new();
    append_net(n, &mut out);
    proof {
        assert(out@ =~= net_text(*n));
    }
    out
}

} // verus!
