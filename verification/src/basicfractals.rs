//! Fractal evaluators: iteration budgets and the escape-time iteration.
//!
//! The number type of the complex plane is a parameter, `Z`. The library
//! never computes with it: a caller hands in the map `(z, c) -> z^2 + c` and
//! the escape test `|z|^2 > 4`, and the contracts speak of what those two
//! return.

use vstd::prelude::*;

verus! {

/// The reason a constructor refuses its arguments.
#[derive(Clone, Copy, Debug, PartialEq, Eq, Structural)]
pub enum InvalidParameter {
    /// An evaluator was asked for with an iteration budget of zero.
    ZeroIterations,
}

/// The Mandelbrot evaluator: the orbit of zero under `z -> z^2 + point`.
#[derive(Clone, Copy, Debug, PartialEq, Eq, Structural)]
pub struct Mandelbrot {
    maxiter: u32,
}

impl Mandelbrot {
    /// The iteration budget, as contracts speak of it.
    pub closed spec fn budget(&self) -> u32 {
        self.maxiter
    }

    /// The budget is positive, as it is in every evaluator that `new` or
    /// `change_maxiter` hands out.
    pub open spec fn wf(&self) -> bool {
        self.budget() > 0
    }

    /// An evaluator with the given budget; a budget of zero is refused.
    pub fn new(maxiter: u32) -> (made: Result<Mandelbrot, InvalidParameter>)
        ensures
            made is Err <==> maxiter == 0,
            made matches Err(why) ==> why == InvalidParameter::ZeroIterations,
            made matches Ok(fresh) ==> fresh.wf() && fresh.budget() == maxiter,
    {
        if maxiter == 0 {
            Err(InvalidParameter::ZeroIterations)
        } else {
            Ok(Mandelbrot { maxiter })
        }
    }

    /// The iteration budget.
    pub fn max_iterations(&self) -> (n: u32)
        ensures
            n == self.budget(),
    {
        self.maxiter
    }

    /// A new evaluator whose budget is what `f` makes of this one's. The
    /// evaluator itself stays as it is. Where `f` answers zero the new
    /// evaluator is refused.
    pub fn change_maxiter<F: Fn(u32) -> u32>(&self, f: F) -> (made: Result<
        Mandelbrot,
        InvalidParameter,
    >)
        requires
            call_requires(f, (self.budget(),)),
        ensures
            match made {
                Ok(next) => next.wf() && call_ensures(
                    f,
                    (self.budget(),),
                    next.budget(),
                ),
                Err(why) => why == InvalidParameter::ZeroIterations && call_ensures(
                    f,
                    (self.budget(),),
                    0u32,
                ),
            },
    {
        Mandelbrot::new(f(self.maxiter))
    }

    /// The escape index of `point`: that of the orbit which starts at `zero`
    /// and has `point` as the constant of the recurrence, within this
    /// evaluator's budget. It is less than the budget.
    pub fn escape_index<Z: Copy, Q: Fn(Z, Z) -> Z, E: Fn(&Z) -> bool>(
        &self,
        zero: Z,
        point: Z,
        quad: Q,
        escaped: E,
    ) -> (index: u32)
        requires
            self.wf(),
            forall|z: Z| call_requires(quad, (z, point)),
            forall|z: Z| call_requires(escaped, (&z,)),
        ensures
            index < self.budget(),
            exists|orbit: Seq<Z>|
                is_escape_index(zero, point, quad, escaped, self.budget(), orbit, index),
    {
        let index = escape_index(zero, point, quad, escaped, self.maxiter);
        proof {
            let orbit = choose|orbit: Seq<Z>|
                is_escape_index(zero, point, quad, escaped, self.maxiter, orbit, index);
            assert(is_escape_index(zero, point, quad, escaped, self.budget(), orbit, index));
        }
        index
    }
}

/// The Julia evaluator for the constant `c`: the orbit of the point under
/// `z -> z^2 + c`.
#[derive(Debug)]
pub struct Julia<C: Copy> {
    c: C,
    maxiter: u32,
}

impl<C: Copy> Clone for Julia<C> {
    fn clone(&self) -> (copy: Self)
        ensures
            copy == *self,
    {
        Julia { c: self.c, maxiter: self.maxiter }
    }
}

impl<C: Copy> Copy for Julia<C> {

}

impl<C: Copy> Julia<C> {
    /// The iteration budget, as contracts speak of it.
    pub closed spec fn budget(&self) -> u32 {
        self.maxiter
    }

    /// The constant of the recurrence, as contracts speak of it.
    pub closed spec fn constant(&self) -> C {
        self.c
    }

    /// The budget is positive, as it is in every evaluator that `new` or
    /// `change_maxiter` hands out.
    pub open spec fn wf(&self) -> bool {
        self.budget() > 0
    }

    /// An evaluator with the given constant and budget; a budget of zero is
    /// refused.
    pub fn new(c: C, maxiter: u32) -> (made: Result<Julia<C>, InvalidParameter>)
        ensures
            made is Err <==> maxiter == 0,
            made matches Err(why) ==> why == InvalidParameter::ZeroIterations,
            made matches Ok(fresh) ==> fresh.wf() && fresh.budget() == maxiter
                && fresh.constant() == c,
    {
        if maxiter == 0 {
            Err(InvalidParameter::ZeroIterations)
        } else {
            Ok(Julia { c, maxiter })
        }
    }

    /// The constant of the recurrence.
    pub fn c(&self) -> (c: C)
        ensures
            c == self.constant(),
    {
        self.c
    }

    /// The iteration budget.
    pub fn max_iterations(&self) -> (n: u32)
        ensures
            n == self.budget(),
    {
        self.maxiter
    }

    /// A new evaluator with the same constant whose budget is what `f` makes
    /// of this one's. The evaluator itself stays as it is. Where `f` answers
    /// zero the new evaluator is refused.
    pub fn change_maxiter<F: Fn(u32) -> u32>(&self, f: F) -> (made: Result<
        Julia<C>,
        InvalidParameter,
    >)
        requires
            call_requires(f, (self.budget(),)),
        ensures
            match made {
                Ok(next) => next.wf() && next.constant() == self.constant() && call_ensures(
                    f,
                    (self.budget(),),
                    next.budget(),
                ),
                Err(why) => why == InvalidParameter::ZeroIterations && call_ensures(
                    f,
                    (self.budget(),),
                    0u32,
                ),
            },
    {
        Julia::new(self.c, f(self.maxiter))
    }

    /// The escape index of `point`: that of the orbit which starts at `point`
    /// and has this evaluator's constant as the constant of the recurrence,
    /// within this evaluator's budget. It is less than the budget.
    pub fn escape_index<Q: Fn(C, C) -> C, E: Fn(&C) -> bool>(
        &self,
        point: C,
        quad: Q,
        escaped: E,
    ) -> (index: u32)
        requires
            self.wf(),
            forall|z: C| call_requires(quad, (z, self.constant())),
            forall|z: C| call_requires(escaped, (&z,)),
        ensures
            index < self.budget(),
            exists|orbit: Seq<C>|
                is_escape_index(
                    point,
                    self.constant(),
                    quad,
                    escaped,
                    self.budget(),
                    orbit,
                    index,
                ),
    {
        assert(self.constant() == self.c);
        let index = escape_index(point, self.c, quad, escaped, self.maxiter);
        proof {
            let orbit = choose|orbit: Seq<C>|
                is_escape_index(point, self.c, quad, escaped, self.maxiter, orbit, index);
            assert(is_escape_index(
                point,
                self.constant(),
                quad,
                escaped,
                self.budget(),
                orbit,
                index,
            ));
        }
        index
    }
}

/// `orbit` is a run of the recurrence with constant `c` from `start` that has
/// not been seen to escape before its last point: it begins with `start`,
/// `escaped` answered `false` for each point but the last, and each point
/// after the first is what `quad` made of the one before and `c`.
pub open spec fn is_orbit<Z, Q: Fn(Z, Z) -> Z, E: Fn(&Z) -> bool>(
    start: Z,
    c: Z,
    quad: Q,
    escaped: E,
    orbit: Seq<Z>,
) -> bool {
    &&& orbit.len() > 0
    &&& orbit[0] == start
    &&& forall|k: int|
        #![trigger orbit[k]]
        0 <= k < orbit.len() - 1 ==> call_ensures(escaped, (&orbit[k],), false) && call_ensures(
            quad,
            (orbit[k], c),
            orbit[k + 1],
        )
}

/// `index` is the escape index that the run `orbit` shows: either the last
/// point of the run is in place `index`, within the first `max_i` places, and
/// `escaped` answered `true` for it; or the run went through `max_i` steps
/// with no escape, and `index` is zero.
pub open spec fn is_escape_index<Z, Q: Fn(Z, Z) -> Z, E: Fn(&Z) -> bool>(
    start: Z,
    c: Z,
    quad: Q,
    escaped: E,
    max_i: u32,
    orbit: Seq<Z>,
    index: u32,
) -> bool {
    &&& is_orbit(start, c, quad, escaped, orbit)
    &&& {
        ||| index < max_i && orbit.len() == index + 1 && call_ensures(
            escaped,
            (&orbit[index as int],),
            true,
        )
        ||| index == 0 && orbit.len() == max_i + 1
    }
}

/// `quad` with the constant `c`, and `escaped`, each give one answer for
/// given arguments.
pub open spec fn is_functional<Z, Q: Fn(Z, Z) -> Z, E: Fn(&Z) -> bool>(
    c: Z,
    quad: Q,
    escaped: E,
) -> bool {
    &&& forall|z: Z, a: Z, b: Z|
        #![trigger call_ensures(quad, (z, c), a), call_ensures(quad, (z, c), b)]
        call_ensures(quad, (z, c), a) && call_ensures(quad, (z, c), b) ==> a == b
    &&& forall|z: Z|
        !(#[trigger] call_ensures(escaped, (&z,), true) && call_ensures(escaped, (&z,), false))
}

/// Two runs of the same recurrence from the same start hold the same point
/// in every place that both have.
pub proof fn lemma_orbits_agree<Z, Q: Fn(Z, Z) -> Z, E: Fn(&Z) -> bool>(
    start: Z,
    c: Z,
    quad: Q,
    escaped: E,
    first: Seq<Z>,
    second: Seq<Z>,
    k: int,
)
    requires
        is_functional(c, quad, escaped),
        is_orbit(start, c, quad, escaped, first),
        is_orbit(start, c, quad, escaped, second),
        0 <= k < first.len(),
        k < second.len(),
    ensures
        first[k] == second[k],
    decreases k,
{
    if k > 0 {
        lemma_orbits_agree(start, c, quad, escaped, first, second, k - 1);
        let from = first[k - 1];
        assert(from == second[k - 1]);
        assert(call_ensures(quad, (from, c), first[k - 1 + 1]));
        assert(call_ensures(quad, (from, c), second[k - 1 + 1]));
    }
}

/// The escape index is a function of the start, the constant and the budget:
/// where `quad` and `escaped` each give one answer for given arguments, any
/// two runs that show an escape index are the same run and show the same
/// index. Evaluating a point twice gives the same value.
pub proof fn lemma_escape_index_unique<Z, Q: Fn(Z, Z) -> Z, E: Fn(&Z) -> bool>(
    start: Z,
    c: Z,
    quad: Q,
    escaped: E,
    max_i: u32,
    first: Seq<Z>,
    i: u32,
    second: Seq<Z>,
    j: u32,
)
    requires
        is_functional(c, quad, escaped),
        is_escape_index(start, c, quad, escaped, max_i, first, i),
        is_escape_index(start, c, quad, escaped, max_i, second, j),
    ensures
        i == j,
        first == second,
{
    if first.len() < second.len() {
        let last = first.len() - 1;
        lemma_orbits_agree(start, c, quad, escaped, first, second, last);
        assert(call_ensures(escaped, (&second[last],), false));
        assert(call_ensures(escaped, (&first[last],), true));
        assert(false);
    } else if second.len() < first.len() {
        let last = second.len() - 1;
        lemma_orbits_agree(start, c, quad, escaped, first, second, last);
        assert(call_ensures(escaped, (&first[last],), false));
        assert(call_ensures(escaped, (&second[last],), true));
        assert(false);
    } else {
        assert forall|k: int| 0 <= k < first.len() implies first[k] == second[k] by {
            lemma_orbits_agree(start, c, quad, escaped, first, second, k);
        }
        assert(first =~= second);
        if i != j {
            // One run ended on an escape within the budget, the other ran
            // the whole budget: then the budget is the index of that escape.
            assert(first.len() == max_i + 1);
            assert(false);
        }
    }
}

/// The escape-time iteration. Starting at `start`, the point is tested with
/// `escaped` and, where it has not escaped, replaced by `quad` of it and `c`,
/// at most `max_i` times. The result is the number of steps taken before the
/// first point that escaped. An orbit that stays inside for the whole budget
/// gives zero, the same answer as a start that has escaped already.
pub fn escape_index<Z: Copy, Q: Fn(Z, Z) -> Z, E: Fn(&Z) -> bool>(
    start: Z,
    c: Z,
    quad: Q,
    escaped: E,
    max_i: u32,
) -> (index: u32)
    requires
        forall|z: Z| call_requires(quad, (z, c)),
        forall|z: Z| call_requires(escaped, (&z,)),
    ensures
        index == 0 || index < max_i,
        exists|orbit: Seq<Z>| is_escape_index(start, c, quad, escaped, max_i, orbit, index),
{
    let ghost mut orbit: Seq<Z> = seq![start];
    let mut z = start;
    let mut i: u32 = 0;
    while i < max_i
        invariant
            i <= max_i,
            orbit.len() == i + 1,
            orbit[i as int] == z,
            is_orbit(start, c, quad, escaped, orbit),
            forall|z: Z| call_requires(quad, (z, c)),
            forall|z: Z| call_requires(escaped, (&z,)),
        decreases max_i - i,
    {
        if escaped(&z) {
            assert(is_escape_index(start, c, quad, escaped, max_i, orbit, i));
            return i;
        }
        let ghost before = orbit;
        z = quad(z, c);
        proof {
            orbit = before.push(z);
            assert forall|k: int|
                #![trigger orbit[k]]
                0 <= k < orbit.len() - 1 implies call_ensures(escaped, (&orbit[k],), false)
                && call_ensures(quad, (orbit[k], c), orbit[k + 1]) by {
                if k < before.len() - 1 {
                    assert(before[k] == orbit[k]);
                    assert(before[k + 1] == orbit[k + 1]);
                }
            }
        }
        i += 1;
    }
    assert(is_escape_index(start, c, quad, escaped, max_i, orbit, 0));
    0
}

} // verus!
