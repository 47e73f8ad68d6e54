//! What a kernel computes, stated over the element type's own `+`, `*` and
//! `default()`.
//!
//! The kernels are generic: for floating-point element types every
//! operation rounds, so their results are described as the sequence of
//! operator calls that produces them (in evaluation order), not as a
//! mathematical sum. A kernel requires only that each step of that sequence
//! is defined (for integer types: that nothing overflows). For element types
//! whose operators follow their specification exactly (the integer types
//! among them), `lemma_dot_run_exact` turns the description into the
//! closed-form sum.
use vstd::prelude::*;
use vstd::std_specs::ops::AddSpec;
use vstd::std_specs::ops::MulSpec;

verus! {

/// `next` is a value that `acc + a * b` evaluates to.
pub open spec fn mul_add_step<T: core::ops::Add<Output = T> + core::ops::Mul<Output = T>>(
    acc: T,
    a: T,
    b: T,
    next: T,
) -> bool {
    exists|p: T|
        #![trigger call_ensures(<T as core::ops::Mul>::mul, (a, b), p)]
        call_ensures(<T as core::ops::Mul>::mul, (a, b), p) && call_ensures(
            <T as core::ops::Add>::add,
            (acc, p),
            next,
        )
}

/// `accs` records a left-to-right multiply-accumulate over `x` and `y`:
/// it starts at a value `T::default()` returns and its entry `i + 1` is
/// what `accs[i] + x[i] * y[i]` evaluates to.
pub open spec fn dot_run<T: Default + core::ops::Add<Output = T> + core::ops::Mul<Output = T>>(
    x: Seq<T>,
    y: Seq<T>,
    accs: Seq<T>,
) -> bool {
    &&& y.len() == x.len()
    &&& accs.len() == x.len() + 1
    &&& call_ensures(T::default, (), accs[0])
    &&& forall|i: int| 0 <= i < x.len() ==> #[trigger] mul_add_step(accs[i], x[i], y[i], accs[i + 1])
}

/// The step `acc + a * b` can be taken: `a * b` is defined, and so is
/// adding any value that product can evaluate to onto `acc`.
pub open spec fn mul_add_defined<T: core::ops::Add<Output = T> + core::ops::Mul<Output = T>>(
    acc: T,
    a: T,
    b: T,
) -> bool {
    &&& a.mul_req(b)
    &&& forall|p: T| #[trigger] call_ensures(<T as core::ops::Mul>::mul, (a, b), p) ==> acc.add_req(p)
}

/// Every step of every multiply-accumulate run over `x` and `y` can be
/// taken (for integer types: no intermediate value overflows).
pub open spec fn dot_defined<T: Default + core::ops::Add<Output = T> + core::ops::Mul<Output = T>>(
    x: Seq<T>,
    y: Seq<T>,
) -> bool {
    forall|i: int, accs: Seq<T>|
        0 <= i < x.len() && #[trigger] dot_run(x.take(i), y.take(i), accs) ==> mul_add_defined(
            accs.last(),
            x[i],
            y[i],
        )
}

/// `r` is what accumulating `x[0] * y[0]`, `x[1] * y[1]`, ... in that order
/// onto `T::default()` produces.
pub open spec fn is_dot<T: Default + core::ops::Add<Output = T> + core::ops::Mul<Output = T>>(
    x: Seq<T>,
    y: Seq<T>,
    r: T,
) -> bool {
    exists|accs: Seq<T>| #[trigger] dot_run(x, y, accs) && accs.last() == r
}

/// The closed form of a multiply-accumulate over `x` and `y` onto `init`,
/// for element types whose operators follow `add_spec` and `mul_spec`.
pub open spec fn dot_value<T: core::ops::Add<Output = T> + core::ops::Mul<Output = T>>(
    init: T,
    x: Seq<T>,
    y: Seq<T>,
) -> T
    decreases x.len(),
{
    if x.len() == 0 || y.len() == 0 {
        init
    } else {
        dot_value(init, x.drop_last(), y.drop_last()).add_spec(x.last().mul_spec(y.last()))
    }
}

/// For an element type whose `+` and `*` follow their specification and
/// whose `default()` is `zero` (the integer types, for instance), a recorded
/// multiply-accumulate yields the closed-form value.
pub proof fn lemma_dot_run_exact<T: Default + core::ops::Add<Output = T> + core::ops::Mul<
    Output = T,
>>(x: Seq<T>, y: Seq<T>, accs: Seq<T>, zero: T)
    requires
        dot_run(x, y, accs),
        T::obeys_add_spec(),
        T::obeys_mul_spec(),
        forall|z: T| call_ensures(T::default, (), z) ==> z == zero,
    ensures
        accs.last() == dot_value(zero, x, y),
    decreases x.len(),
{
    if x.len() > 0 {
        let n = x.len() - 1;
        let inner = accs.drop_last();
        assert(dot_run(x.drop_last(), y.drop_last(), inner)) by {
            assert forall|i: int| 0 <= i < n implies #[trigger] mul_add_step(
                inner[i],
                x.drop_last()[i],
                y.drop_last()[i],
                inner[i + 1],
            ) by {
                assert(mul_add_step(accs[i], x[i], y[i], accs[i + 1]));
            }
        }
        lemma_dot_run_exact(x.drop_last(), y.drop_last(), inner, zero);
        assert(mul_add_step(accs[n], x[n], y[n], accs[n + 1]));
    } else {
        assert(call_ensures(T::default, (), accs[0]));
    }
}

} // verus!
