//! The rows that the write benchmark inserts.
//!
//! Every thread runs a number of iterations, and each iteration inserts a batch of
//! rows in one transaction.

use vstd::arithmetic::div_mod;
use vstd::prelude::*;

use crate::numeric;
use crate::text;

verus! {

/// The id of the `i`-th row of an iteration of a thread.
pub open spec fn row_id_spec(
    thread_id: int,
    iterations: int,
    batch_size: int,
    iteration: int,
    i: int,
) -> int {
    thread_id * iterations * batch_size + iteration * batch_size + i
}

/// Gives the id of the `i`-th row of an iteration of a thread.
pub fn row_id(
    thread_id: usize,
    iterations: usize,
    batch_size: usize,
    iteration: usize,
    i: usize,
) -> (r: usize)
    requires
        i < batch_size,
        row_id_spec(
            thread_id as int,
            iterations as int,
            batch_size as int,
            iteration as int,
            i as int,
        ) <= usize::MAX,
    ensures
        r == row_id_spec(
            thread_id as int,
            iterations as int,
            batch_size as int,
            iteration as int,
            i as int,
        ),
{
    let ghost rounds = thread_id as int * iterations as int;
    assert(0 <= rounds <= rounds * batch_size as int) by (nonlinear_arith)
        requires
            rounds == thread_id as int * iterations as int,
            1 <= batch_size,
    ;
    assert(0 <= iteration as int * batch_size as int) by (nonlinear_arith);
    thread_id * iterations * batch_size + iteration * batch_size + i
}

/// Whether the id of the row fits in a `usize`.
pub fn row_fits(
    thread_id: usize,
    iterations: usize,
    batch_size: usize,
    iteration: usize,
    i: usize,
) -> (r: bool)
    ensures
        r == (row_id_spec(
            thread_id as int,
            iterations as int,
            batch_size as int,
            iteration as int,
            i as int,
        ) <= usize::MAX && thread_id * iterations <= usize::MAX),
{
    let ghost rounds = thread_id as int * iterations as int;
    assert(0 <= rounds) by (nonlinear_arith)
        requires
            rounds == thread_id as int * iterations as int,
    ;
    assert(0 <= rounds * batch_size as int) by (nonlinear_arith)
        requires
            0 <= rounds,
    ;
    assert(0 <= iteration as int * batch_size as int) by (nonlinear_arith);
    match thread_id.checked_mul(iterations) {
        None => false,
        Some(rounds) => match (rounds.checked_mul(batch_size), iteration.checked_mul(batch_size)) {
            (Some(a), Some(b)) => match a.checked_add(b) {
                Some(c) => c.checked_add(i).is_some(),
                None => false,
            },
            _ => false,
        },
    }
}

/// The text of a row.
pub fn row_text(id: usize) -> (r: String)
    ensures
        r@ == "data_"@ + numeric::decimal(id as nat),
{
    let mut out = text::chars_of("data_");
    numeric::push_decimal(&mut out, id as u64);
    text::string_of(&out)
}

/// No two rows have the same id, whichever threads and iterations they belong to.
pub proof fn row_ids_are_distinct(
    iterations: int,
    batch_size: int,
    a: (int, int, int),
    b: (int, int, int),
)
    requires
        0 <= a.0,
        0 <= b.0,
        0 <= a.1 < iterations,
        0 <= b.1 < iterations,
        0 <= a.2 < batch_size,
        0 <= b.2 < batch_size,
        row_id_spec(a.0, iterations, batch_size, a.1, a.2) == row_id_spec(
            b.0,
            iterations,
            batch_size,
            b.1,
            b.2,
        ),
    ensures
        a == b,
{
    let id = row_id_spec(a.0, iterations, batch_size, a.1, a.2);
    let round_a = a.0 * iterations + a.1;
    let round_b = b.0 * iterations + b.1;
    assert(id == round_a * batch_size + a.2) by (nonlinear_arith)
        requires
            id == a.0 * iterations * batch_size + a.1 * batch_size + a.2,
            round_a == a.0 * iterations + a.1,
    ;
    assert(id == round_b * batch_size + b.2) by (nonlinear_arith)
        requires
            id == b.0 * iterations * batch_size + b.1 * batch_size + b.2,
            round_b == b.0 * iterations + b.1,
    ;
    div_mod::lemma_fundamental_div_mod_converse(id, batch_size, round_a, a.2);
    div_mod::lemma_fundamental_div_mod_converse(id, batch_size, round_b, b.2);
    div_mod::lemma_fundamental_div_mod_converse(round_a, iterations, a.0, a.1);
    div_mod::lemma_fundamental_div_mod_converse(round_b, iterations, b.0, b.1);
}

/// The ids of a thread follow each other: the first row of the first thread has id
/// zero, each row the next id, an iteration starts where the one before it ends, and
/// so does a thread.
pub proof fn row_ids_are_consecutive(
    thread_id: int,
    iterations: int,
    batch_size: int,
    iteration: int,
    i: int,
)
    ensures
        row_id_spec(0, iterations, batch_size, 0, 0) == 0,
        row_id_spec(thread_id, iterations, batch_size, iteration, i + 1) == row_id_spec(
            thread_id,
            iterations,
            batch_size,
            iteration,
            i,
        ) + 1,
        row_id_spec(thread_id, iterations, batch_size, iteration + 1, 0) == row_id_spec(
            thread_id,
            iterations,
            batch_size,
            iteration,
            batch_size,
        ),
        row_id_spec(thread_id + 1, iterations, batch_size, 0, 0) == row_id_spec(
            thread_id,
            iterations,
            batch_size,
            iterations,
            0,
        ),
{
    assert(0 * iterations * batch_size == 0) by (nonlinear_arith);
    assert((iteration + 1) * batch_size == iteration * batch_size + batch_size) by (
        nonlinear_arith);
    assert((thread_id + 1) * iterations * batch_size == thread_id * iterations * batch_size
        + iterations * batch_size) by (nonlinear_arith);
}

} // verus!
