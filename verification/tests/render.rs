use impedance_net::complex::Cplx;
use impedance_net::network::{leaf, parallel, series};
use impedance_net::render::render;

fn z(re: i128, im: i128, den: i128) -> Cplx {
    Cplx::new(re, im, den).expect("representable impedance")
}

#[test]
fn renders_leaf() {
    assert_eq!(render(&leaf(z(41, 76, 100))), "(41+76j)/100");
}

#[test]
fn renders_negative_components() {
    assert_eq!(render(&leaf(z(-3, -15, 2))), "(-3+-15j)/2");
}

#[test]
fn renders_series_infix() {
    let n = series(leaf(z(2, 0, 1)), leaf(z(0, 5, 2)));
    assert_eq!(render(&n), "((2+0j)/1 + (0+5j)/2)");
}

#[test]
fn renders_parallel_infix() {
    let n = parallel(leaf(z(1, 0, 1)), leaf(z(2, 3, 4)));
    assert_eq!(render(&n), "((1+0j)/1 | (2+3j)/4)");
}

#[test]
fn renders_nested_network() {
    let n = parallel(series(leaf(z(1, 0, 1)), leaf(z(2, 0, 1))), leaf(z(0, 3, 1)));
    assert_eq!(render(&n), "(((1+0j)/1 + (2+0j)/1) | (0+3j)/1)");
}
