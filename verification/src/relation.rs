//! What the functions that are handed in may return, as relations between their arguments
//! and results.

use vstd::prelude::*;

verus! {

/// Argument and result of `f`.
pub open spec fn unary<A, R, F: Fn(A) -> R>(f: F) -> spec_fn(A, R) -> bool {
    |a: A, r: R| call_ensures(f, (a,), r)
}

/// Arguments and result of `f`.
pub open spec fn binary<A, B, R, F: Fn(A, B) -> R>(f: F) -> spec_fn(A, B, R) -> bool {
    |a: A, b: B, r: R| call_ensures(f, (a, b), r)
}

/// Arguments and result of `f`.
pub open spec fn ternary<A, B, C, R, F: Fn(A, B, C) -> R>(f: F) -> spec_fn(A, B, C, R) -> bool {
    |a: A, b: B, c: C, r: R| call_ensures(f, (a, b, c), r)
}

/// Arguments and result of `f`.
pub open spec fn quinary<A, B, C, D, G, R, F: Fn(A, B, C, D, G) -> R>(f: F) -> spec_fn(
    A,
    B,
    C,
    D,
    G,
    R,
) -> bool {
    |a: A, b: B, c: C, d: D, g: G, r: R| call_ensures(f, (a, b, c, d, g), r)
}

/// A relation holds of exactly what the function may return.
pub proof fn law_relations_are_calls<
    A,
    R,
    F: Fn(A) -> R,
    G: Fn(A, A) -> R,
    H: Fn(A, A, A) -> R,
    K: Fn(A, A, A, A, A) -> R,
>(f: F, g: G, h: H, k: K, a: A, b: A, c: A, d: A, e: A, r: R)
    ensures
        unary::<A, R, F>(f)(a, r) <==> call_ensures(f, (a,), r),
        binary::<A, A, R, G>(g)(a, b, r) <==> call_ensures(g, (a, b), r),
        ternary::<A, A, A, R, H>(h)(a, b, c, r) <==> call_ensures(h, (a, b, c), r),
        quinary::<A, A, A, A, A, R, K>(k)(a, b, c, d, e, r) <==> call_ensures(k, (a, b, c, d, e), r),
{
}

} // verus!
