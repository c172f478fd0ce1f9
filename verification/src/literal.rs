//! Literals: `{` size `}` CRLF, followed by that many bytes.
use vstd::prelude::*;

use crate::ascii::{CLOSE_BRACE, CR, LF, NINE, OPEN_BRACE, ZERO};
use crate::size::NonZeroSize;

verus! {

/// Where the body of an oversized literal starts in the buffered bytes, and the
/// size that the server declared for it.
#[derive(Clone, Copy, Debug, PartialEq, Eq, Structural)]
pub struct OversizedLiteralBoundary {
    pub literal_start: usize,
    pub declared_size: usize,
}

/// Whether `byte` is one of `0` to `9`.
pub open spec fn is_digit(byte: u8) -> bool {
    ZERO <= byte <= NINE
}

/// The number that a run of decimal digits stands for.
pub open spec fn decimal_value(digits: Seq<u8>) -> nat
    decreases digits.len(),
{
    if digits.len() == 0 {
        0
    } else {
        10 * decimal_value(digits.drop_last()) + (digits.last() - ZERO) as nat
    }
}

/// The first position from `from` on that holds no digit.
pub open spec fn digits_end(input: Seq<u8>, from: int) -> int
    decreases input.len() - from,
{
    if 0 <= from < input.len() && is_digit(input[from]) {
        digits_end(input, from + 1)
    } else {
        from
    }
}

/// Whether `}` CRLF stands at `at`.
pub open spec fn closes_marker(input: Seq<u8>, at: int) -> bool {
    &&& 0 <= at
    &&& at + 3 <= input.len()
    &&& input[at] == CLOSE_BRACE
    &&& input[at + 1] == CR
    &&& input[at + 2] == LF
}

/// Whether a literal is declared at `start`: `{`, at least one digit, `}` CRLF.
pub open spec fn declares_literal(input: Seq<u8>, start: int) -> bool {
    &&& 0 <= start < input.len()
    &&& input[start] == OPEN_BRACE
    &&& digits_end(input, start + 1) > start + 1
    &&& closes_marker(input, digits_end(input, start + 1))
}

/// Where the body of the literal declared at `start` begins.
pub open spec fn literal_body(input: Seq<u8>, start: int) -> int {
    digits_end(input, start + 1) + 3
}

/// The size of the literal declared at `start`.
pub open spec fn literal_size(input: Seq<u8>, start: int) -> nat {
    decimal_value(input.subrange(start + 1, digits_end(input, start + 1)))
}

/// Whether the literal declared at `start` is larger than `limit` and lacks
/// exactly `needed` bytes of its body.
pub open spec fn confirms_boundary(input: Seq<u8>, start: int, needed: int, limit: int) -> bool {
    &&& declares_literal(input, start)
    &&& limit < literal_size(input, start) <= usize::MAX
    &&& literal_size(input, start) - (input.len() - literal_body(input, start)) == needed
}

/// The boundary that the literal declared at `start` sets.
pub open spec fn boundary_at(input: Seq<u8>, start: int) -> OversizedLiteralBoundary {
    OversizedLiteralBoundary {
        literal_start: literal_body(input, start) as usize,
        declared_size: literal_size(input, start) as usize,
    }
}

/// The boundary that the first confirming literal from `start` on sets.
pub open spec fn first_boundary(input: Seq<u8>, start: int, needed: int, limit: int) -> Option<
    OversizedLiteralBoundary,
>
    decreases input.len() - start,
{
    if start < 0 || start >= input.len() {
        None
    } else if confirms_boundary(input, start, needed, limit) {
        Some(boundary_at(input, start))
    } else {
        first_boundary(input, start + 1, needed, limit)
    }
}

/// A run of digits ends within the input, and holds only digits.
pub proof fn lemma_digits_end(input: Seq<u8>, from: int)
    requires
        0 <= from <= input.len(),
    ensures
        from <= digits_end(input, from) <= input.len(),
        forall|i: int| from <= i < digits_end(input, from) ==> is_digit(#[trigger] input[i]),
    decreases input.len() - from,
{
    if from < input.len() && is_digit(input[from]) {
        lemma_digits_end(input, from + 1);
    }
}

/// A run of digits in the front of the input ends where it does in the input, or
/// where the front does.
pub proof fn lemma_front_digits_end(input: Seq<u8>, from: int, n: int)
    requires
        0 <= from <= n <= input.len(),
    ensures
        digits_end(input.take(n), from) == if digits_end(input, from) <= n {
            digits_end(input, from)
        } else {
            n
        },
    decreases n - from,
{
    lemma_digits_end(input, from);
    if from < n && is_digit(input[from]) {
        lemma_front_digits_end(input, from + 1, n);
    }
}

/// A boundary lies within the bytes that it was found in.
pub proof fn lemma_first_boundary(input: Seq<u8>, start: int, needed: int, limit: int)
    requires
        0 <= start,
        input.len() <= usize::MAX,
    ensures
        first_boundary(input, start, needed, limit) matches Some(boundary) ==> {
            &&& boundary.literal_start <= input.len()
            &&& boundary.declared_size > limit
        },
    decreases input.len() - start,
{
    if start < input.len() {
        lemma_digits_end(input, start + 1);
        lemma_first_boundary(input, start + 1, needed, limit);
    }
}

/// Looks for a literal declared at `start`: where its body begins, and its size
/// unless that does not fit in `usize`.
pub fn declared_literal(input: &[u8], start: usize) -> (literal: Option<(usize, Option<usize>)>)
    requires
        start < input@.len(),
    ensures
        literal is Some <==> declares_literal(input@, start as int),
        literal matches Some((body, size)) ==> {
            &&& body == literal_body(input@, start as int)
            &&& start < body <= input@.len()
            &&& size is Some <==> literal_size(input@, start as int) <= usize::MAX
            &&& size matches Some(size) ==> size == literal_size(input@, start as int)
        },
{
    if input[start] != OPEN_BRACE {
        return None;
    }
    let mut end: usize = start + 1;
    let mut size: Option<usize> = Some(0);
    proof {
        lemma_digits_end(input@, start + 1);
        assert(input@.subrange(start + 1, start + 1) =~= Seq::<u8>::empty());
    }
    while end < input.len() && ZERO <= input[end] && input[end] <= NINE
        invariant
            start < input@.len(),
            start + 1 <= end <= input@.len(),
            digits_end(input@, start + 1) == digits_end(input@, end as int),
            size is Some <==> decimal_value(input@.subrange(start + 1, end as int)) <= usize::MAX,
            size matches Some(size) ==> size == decimal_value(
                input@.subrange(start + 1, end as int),
            ),
        decreases input@.len() - end,
    {
        let digit: usize = (input[end] - ZERO) as usize;
        proof {
            let longer = input@.subrange(start + 1, end + 1);
            assert(longer.drop_last() =~= input@.subrange(start + 1, end as int));
            assert(longer.last() == input@[end as int]);
        }
        size = match size {
            Some(value) => match value.checked_mul(10) {
                Some(tens) => tens.checked_add(digit),
                None => None,
            },
            None => None,
        };
        end = end + 1;
    }
    if end == start + 1 || input.len() - end < 3 {
        return None;
    }
    if input[end] == CLOSE_BRACE && input[end + 1] == CR && input[end + 2] == LF {
        Some((end + 3, size))
    } else {
        None
    }
}

/// Finds the first declaration of a literal that is larger than the limit and
/// that lacks exactly `needed` bytes.
///
/// A parser that stops inside a literal asks for just the bytes that the literal
/// lacks, so a declaration whose count agrees is the one that it stopped at.
/// Bytes of the body that look like a declaration come after it.
pub fn oversized_literal_boundary(
    input: &[u8],
    needed: usize,
    literal_prefix_limit: NonZeroSize,
) -> (boundary: Option<OversizedLiteralBoundary>)
    ensures
        boundary == first_boundary(input@, 0, needed as int, literal_prefix_limit@ as int),
{
    let limit: usize = literal_prefix_limit.get();
    let mut start: usize = 0;
    while start < input.len()
        invariant
            start <= input@.len(),
            limit == literal_prefix_limit@,
            first_boundary(input@, 0, needed as int, limit as int) == first_boundary(
                input@,
                start as int,
                needed as int,
                limit as int,
            ),
        decreases input@.len() - start,
    {
        if let Some((literal_start, Some(declared_size))) = declared_literal(input, start) {
            let buffered: usize = input.len() - literal_start;
            if declared_size > limit && declared_size >= buffered && declared_size - buffered
                == needed {
                return Some(OversizedLiteralBoundary { literal_start, declared_size });
            }
        }
        start = start + 1;
    }
    None
}

} // verus!
