//! What the operations are for, said of bytes, sizes and results alone.
//!
//! The statements of this module do not go through the functions that describe the
//! steps of a buffer or of a stream. They fix what those functions come to.
use vstd::arithmetic::power::pow;
use vstd::prelude::*;
use vstd::utf8::encode_utf8;

use crate::block::{repeated, resized, MAX_BLOCK_SIZE};
use crate::buffer::{Buffer, BufferView};
use crate::error::{ErrorKind, ErrorView, StreamError};
use crate::laws::{law_first_declaration_is_the_boundary, law_request_is_one_line};
use crate::literal::{
    boundary_at, confirms_boundary, decimal_value, declares_literal, digits_end, first_boundary,
    lemma_digits_end, literal_body, literal_size,
};
use crate::poll::StreamView;
use crate::request::{wire_pieces, Request};
use crate::text::decimal_text;

verus! {

/// The bytes that a buffer holds.
pub open spec fn held(buffer: BufferView) -> Seq<u8> {
    buffer.block.take(buffer.used)
}

/// What every buffer satisfies, in numbers.
pub open spec fn is_consistent(buffer: BufferView) -> bool {
    &&& 0 <= buffer.used <= buffer.block.len() <= buffer.limit <= usize::MAX
    &&& 0 < buffer.block.len() <= usize::MAX / 2
    &&& buffer.block.len() == buffer.limit || buffer.block.len() % 4096 == 0
}

/// What every stream satisfies, in numbers.
pub open spec fn is_stream(stream: StreamView) -> bool {
    is_consistent(stream.buffer) && 0 <= stream.decode_needs <= usize::MAX
}

/// By how many bytes at least the block must grow to hold `required` bytes and have
/// one byte free: not at all if it is so, else by a block of 4096 bytes.
pub open spec fn lacking(buffer: BufferView, required: int) -> int {
    let len = buffer.block.len() as int;
    if buffer.used < len && required <= len {
        0
    } else if required - len > 4096 {
        required - len
    } else {
        4096
    }
}

/// Whether `grown` is `buffer` with at least `num_bytes` more zeros at the end of its
/// block: up to the next multiple of 4096, or to the limit if that comes first.
pub open spec fn grew(buffer: BufferView, num_bytes: int, grown: BufferView) -> bool {
    let least = buffer.block.len() + num_bytes;
    let len = grown.block.len();
    &&& least <= len <= buffer.limit
    &&& (len - 1) / 4096 == (least - 1) / 4096
    &&& len == buffer.limit || len % 4096 == 0
    &&& grown.used == buffer.used
    &&& grown.limit == buffer.limit
    &&& forall|i: int|
        0 <= i < len ==> #[trigger] grown.block[i] == if i < buffer.block.len() {
            buffer.block[i]
        } else {
            0
        }
}

/// Blocks come in steps of 4 KiB, streams are limited to 512 MiB if nothing else is
/// said, and only a block larger than an allocation can be is out of the question.
pub proof fn law_sizes()
    ensures
        Buffer::BLOCK_SIZE == 4096,
        Buffer::DEFAULT_MAX_CAPACITY == 512 * 1024 * 1024,
        MAX_BLOCK_SIZE == usize::MAX / 2,
{
}

/// A buffer or stream is in a consistent state exactly if its numbers are: nothing is
/// asked of the bytes.
pub proof fn law_consistency_is_in_the_numbers(stream: StreamView)
    ensures
        stream.buffer.wf() <==> is_consistent(stream.buffer),
        stream.wf() <==> is_stream(stream),
{
}

/// A new buffer holds nothing, and its block is 4096 zeros or as many as the limit
/// allows.
pub proof fn law_new_buffer_is_empty(limit: int)
    requires
        0 < limit <= usize::MAX,
    ensures
        ({
            let buffer = BufferView::empty(limit);
            &&& is_consistent(buffer)
            &&& buffer.used == 0
            &&& buffer.limit == limit
            &&& buffer.block.len() == if limit < 4096 {
                limit
            } else {
                4096
            }
            &&& forall|i: int|
                0 <= i < buffer.block.len() ==> #[trigger] buffer.block[i] == 0
        }),
{
}

/// Repeated bytes are all the same, and a block that is resized keeps its bytes, as far
/// as they fit, and goes on with the value that was given.
pub proof fn law_resized_blocks(bytes: Seq<u8>, new_len: nat, value: u8)
    ensures
        repeated(value, new_len as int).len() == new_len,
        forall|i: int|
            0 <= i < new_len ==> #[trigger] repeated(value, new_len as int)[i] == value,
        resized(bytes, new_len as int, value).len() == new_len,
        forall|i: int|
            0 <= i < new_len ==> #[trigger] resized(bytes, new_len as int, value)[i] == if i
                < bytes.len() {
                bytes[i]
            } else {
                value
            },
{
}

/// Another block changes nothing but the block.
pub proof fn law_other_block_is_all_that_changes(buffer: BufferView, block: Seq<u8>)
    ensures
        buffer.with_block(block) == (BufferView {
            block,
            used: buffer.used,
            limit: buffer.limit,
        }),
{
}

/// What a buffer shows as buffered is the front of its block, and what is free is all
/// the rest.
pub proof fn law_used_and_free_bytes_make_up_the_block(buffer: BufferView)
    requires
        is_consistent(buffer),
    ensures
        buffer.buffered() == held(buffer),
        buffer.buffered().len() + buffer.free() == buffer.block.len(),
{
}

/// Declaring bytes used adds their number, up to the end of the block, and changes
/// nothing else.
pub proof fn law_extending_only_counts(buffer: BufferView, num_bytes: int)
    requires
        is_consistent(buffer),
        0 <= num_bytes,
    ensures
        ({
            let extended = buffer.extended(num_bytes);
            &&& extended.block == buffer.block
            &&& extended.limit == buffer.limit
            &&& extended.used == if buffer.used + num_bytes <= buffer.block.len() {
                buffer.used + num_bytes
            } else {
                buffer.block.len() as int
            }
        }),
{
}

proof fn lemma_grown(buffer: BufferView, num_bytes: int)
    requires
        is_consistent(buffer),
        0 < num_bytes || 0 == num_bytes && buffer.used < buffer.block.len(),
        buffer.block.len() + num_bytes <= buffer.limit,
    ensures
        grew(buffer, num_bytes, buffer.grown(num_bytes)),
        buffer.grown(num_bytes).block.len() == buffer.grown_size(num_bytes),
        buffer.grown(num_bytes).block.len() > buffer.used,
{
    let least = buffer.block.len() + num_bytes;
    let grown = buffer.grown(num_bytes);
    let size = buffer.grown_size(num_bytes);
    assert(least <= size <= buffer.limit);
    assert(grown.block.len() == size);
    assert((size - 1) / 4096 == (least - 1) / 4096);
}

proof fn lemma_grew_to_the_same(
    buffer: BufferView,
    num_bytes: int,
    one: BufferView,
    other: BufferView,
)
    requires
        grew(buffer, num_bytes, one),
        grew(buffer, num_bytes, other),
    ensures
        one.block.len() == other.block.len(),
{
    let a = one.block.len() as int;
    let b = other.block.len() as int;
    if a % 4096 == 0 && b % 4096 == 0 {
        assert(a == b);
    }
}

/// Room for `required` bytes is refused as too large only past the limit, and as
/// beyond any allocation only past `isize::MAX` bytes. Else it is made: the buffer
/// stays as it is if it has the room, and grows by as little as the steps allow if
/// not.
pub proof fn law_room_is_made_up_to_the_limit(buffer: BufferView, required: int)
    requires
        is_consistent(buffer),
    ensures
        ({
            let least = buffer.block.len() + lacking(buffer, required);
            match buffer.prepared(required) {
                Ok(prepared) => if lacking(buffer, required) == 0 {
                    prepared == buffer
                } else {
                    &&& grew(buffer, lacking(buffer, required), prepared)
                    &&& prepared.block.len() <= usize::MAX / 2
                },
                Err(ErrorView::ResponseTooLarge) => least > buffer.limit,
                Err(ErrorView::SizeOverflow) => {
                    &&& least <= buffer.limit
                    &&& forall|prepared: BufferView|
                        #[trigger] grew(buffer, lacking(buffer, required), prepared)
                            ==> prepared.block.len() > usize::MAX / 2
                },
                Err(_) => false,
            }
        }),
{
    let more = lacking(buffer, required);
    if more > 0 && buffer.block.len() + more <= buffer.limit {
        lemma_grown(buffer, more);
        assert forall|prepared: BufferView| #[trigger] grew(
            buffer,
            more,
            prepared,
        ) implies prepared.block.len() == buffer.grown(more).block.len() by {
            lemma_grew_to_the_same(buffer, more, prepared, buffer.grown(more));
        }
    }
}

/// With a limit that an allocation can have, making room for `required` bytes
/// succeeds wherever the block, grown by what it lacks, is within the limit.
pub proof fn law_room_within_the_limit_is_always_made(buffer: BufferView, required: int)
    requires
        is_consistent(buffer),
        buffer.block.len() + lacking(buffer, required) <= buffer.limit <= usize::MAX / 2,
    ensures
        buffer.prepared(required) is Ok,
        buffer.has_room(required),
        buffer.is_allocatable(required),
{
    let more = lacking(buffer, required);
    if more > 0 {
        lemma_grown(buffer, more);
    }
}

/// Making room is made of three parts, which say the same: whether the limit has
/// room, whether the block can be allocated, and the buffer that has the room.
pub proof fn law_parts_of_making_room(buffer: BufferView, required: int)
    requires
        is_consistent(buffer),
    ensures
        buffer.has_room(required) <==> lacking(buffer, required) == 0 || buffer.block.len()
            + lacking(buffer, required) <= buffer.limit,
        buffer.has_room(required) ==> {
            let ensured = buffer.ensured(required);
            &&& buffer.is_allocatable(required) <==> ensured.block.len() <= usize::MAX / 2
            &&& if lacking(buffer, required) == 0 {
                ensured == buffer
            } else {
                grew(buffer, lacking(buffer, required), ensured)
            }
        },
{
    let more = lacking(buffer, required);
    if more > 0 && buffer.block.len() + more <= buffer.limit {
        lemma_grown(buffer, more);
    }
}

/// A block grows by at least as many bytes as asked for, and by one at least if it is
/// full; it is refused exactly if that passes the limit.
pub proof fn law_growth_is_at_least_what_was_asked_for(buffer: BufferView, num_bytes: int)
    requires
        is_consistent(buffer),
        0 <= num_bytes,
    ensures
        ({
            let least: int = if buffer.used == buffer.block.len() && num_bytes == 0 {
                1
            } else {
                num_bytes
            };
            let grown = buffer.grown(buffer.least_growth(num_bytes));
            &&& buffer.exceeds_limit(buffer.least_growth(num_bytes)) <==> buffer.block.len() + least
                > buffer.limit
            &&& buffer.block.len() + least <= buffer.limit ==> {
                &&& grew(buffer, least, grown)
                &&& grown.block.len() > grown.used
                &&& grown.block.len() == buffer.grown_size(buffer.least_growth(num_bytes))
            }
        }),
{
    let least = buffer.least_growth(num_bytes);
    if buffer.block.len() + least <= buffer.limit {
        lemma_grown(buffer, least);
    }
}

/// A buffer that was reset holds the data and nothing else, in a block that goes on
/// with zeros to the next multiple of 4096 behind the data, or to the limit.
pub proof fn law_reset_block_is_the_data_and_zeros(buffer: BufferView, data: Seq<u8>)
    requires
        data.len() <= buffer.limit,
        0 < buffer.limit,
    ensures
        ({
            let reset = buffer.reset(data);
            let len = reset.block.len();
            &&& held(reset) == data
            &&& reset.used == data.len()
            &&& reset.limit == buffer.limit
            &&& len == buffer.reset_size(data.len() as int)
            &&& data.len() <= len <= buffer.limit
            &&& len == buffer.limit || len % 4096 == 0
            &&& data.len() < buffer.limit ==> data.len() < len && (len - 1) / 4096 == data.len() as int
                / 4096
            &&& forall|i: int| data.len() <= i < len ==> #[trigger] reset.block[i] == 0
        }),
{
    assert(held(buffer.reset(data)) =~= data);
}

/// The number that decimal digits stand for, by their places.
pub open spec fn number(digits: Seq<u8>) -> nat
    decreases digits.len(),
{
    if digits.len() == 0 {
        0
    } else {
        (digits[0] - 0x30) as nat * pow(10, (digits.len() - 1) as nat) as nat + number(
            digits.drop_first(),
        )
    }
}

/// Whether `digits` is one decimal digit or more.
pub open spec fn are_digits(digits: Seq<u8>) -> bool {
    digits.len() > 0 && forall|i: int| 0 <= i < digits.len() ==> 0x30 <= #[trigger] digits[i] <= 0x39
}

/// The declaration of a literal: `{`, the digits of its size, `}` CR LF.
pub open spec fn declaration(digits: Seq<u8>) -> Seq<u8> {
    seq![0x7bu8] + digits + seq![0x7du8, 0x0du8, 0x0au8]
}

/// Whether the declaration of a literal with the size `digits` stands at `start`.
pub open spec fn stands_declared(input: Seq<u8>, start: int, digits: Seq<u8>) -> bool {
    &&& are_digits(digits)
    &&& 0 <= start
    &&& start + digits.len() + 4 <= input.len()
    &&& input.subrange(start, start + digits.len() + 4) == declaration(digits)
}

/// Whether a literal with the size `digits` is declared at `start`, is larger than
/// `limit`, and lacks just `needed` bytes at the end of the input.
pub open spec fn is_cut_short(
    input: Seq<u8>,
    start: int,
    digits: Seq<u8>,
    needed: int,
    limit: int,
) -> bool {
    let body = start + digits.len() + 4;
    &&& stands_declared(input, start, digits)
    &&& limit < number(digits) <= usize::MAX
    &&& number(digits) - (input.len() - body) == needed
}

proof fn lemma_number_by_the_last_digit(digits: Seq<u8>)
    requires
        are_digits(digits),
    ensures
        number(digits) == 10 * number(digits.drop_last()) + (digits.last() - 0x30),
    decreases digits.len(),
{
    let rest = digits.drop_first();
    let first = digits[0] - 0x30;
    if digits.len() == 1 {
        vstd::arithmetic::power::lemma_pow0(10);
        assert(number(rest) == 0);
        assert(number(digits.drop_last()) == 0);
        assert(first * 1 == first);
        assert(number(digits) == first);
    } else {
        lemma_number_by_the_last_digit(rest);
        let front = digits.drop_last();
        let power = pow(10, (digits.len() - 2) as nat);
        assert(front.drop_first() =~= rest.drop_last());
        vstd::arithmetic::power::lemma_pow_positive(10, (digits.len() - 2) as nat);
        assert(pow(10, (digits.len() - 1) as nat) == 10 * power) by {
            reveal(pow);
        }
        assert(front[0] == digits[0]);
        assert(number(front) == first * power + number(rest.drop_last())) by {
            assert(first * power >= 0) by (nonlinear_arith)
                requires
                    first >= 0,
                    power > 0,
            ;
        }
        assert(number(digits) == first * (10 * power) + number(rest));
        assert(first * (10 * power) == 10 * (first * power)) by (nonlinear_arith);
    }
}

/// The number by places is the number that is computed digit by digit.
pub proof fn lemma_number(digits: Seq<u8>)
    requires
        forall|i: int| 0 <= i < digits.len() ==> 0x30 <= #[trigger] digits[i] <= 0x39,
    ensures
        decimal_value(digits) == number(digits),
    decreases digits.len(),
{
    if digits.len() > 0 {
        lemma_number(digits.drop_last());
        lemma_number_by_the_last_digit(digits);
    }
}

/// A run of digits ends where the first other byte stands.
pub proof fn lemma_digits_end_at(input: Seq<u8>, from: int, end: int)
    requires
        0 <= from <= end < input.len(),
        forall|i: int| from <= i < end ==> 0x30 <= #[trigger] input[i] <= 0x39,
        !(0x30 <= input[end] <= 0x39),
    ensures
        digits_end(input, from) == end,
    decreases end - from,
{
    if from < end {
        lemma_digits_end_at(input, from + 1, end);
    }
}

/// The bytes of a declaration declare a literal of the size that its digits stand for.
pub proof fn lemma_declaration(input: Seq<u8>, start: int, digits: Seq<u8>)
    requires
        stands_declared(input, start, digits),
    ensures
        declares_literal(input, start),
        literal_body(input, start) == start + digits.len() + 4,
        literal_size(input, start) == number(digits),
{
    let marker = input.subrange(start, start + digits.len() + 4);
    let end = start + 1 + digits.len();
    assert(forall|i: int| 0 <= i < marker.len() ==> input[start + i] == #[trigger] marker[i]);
    assert(input[start] == marker[0]);
    assert(input[end] == marker[end - start]);
    assert(input[end + 1] == marker[end + 1 - start]);
    assert(input[end + 2] == marker[end + 2 - start]);
    assert forall|i: int| start + 1 <= i < end implies 0x30 <= #[trigger] input[i] <= 0x39 by {
        assert(input[i] == marker[i - start]);
        assert(marker[i - start] == digits[i - start - 1]);
    }
    lemma_digits_end_at(input, start + 1, end);
    assert(input.subrange(start + 1, end) =~= digits) by {
        assert forall|i: int| 0 <= i < digits.len() implies input[start + 1 + i] == digits[i] by {
            assert(input[start + 1 + i] == marker[1 + i]);
        }
    }
    lemma_number(digits);
}

/// A literal is declared exactly where a declaration stands: `{`, digits, `}` CR LF. Its
/// body comes right after that, and its size is the number that the digits stand for.
pub proof fn law_literals_are_declared_by_declarations(input: Seq<u8>, start: int)
    requires
        0 <= start,
    ensures
        declares_literal(input, start) <==> exists|digits: Seq<u8>| #[trigger]
            stands_declared(input, start, digits),
        forall|digits: Seq<u8>| #[trigger]
            stands_declared(input, start, digits) ==> {
                &&& literal_body(input, start) == start + digits.len() + 4
                &&& literal_size(input, start) == number(digits)
            },
{
    if declares_literal(input, start) {
        let end = digits_end(input, start + 1);
        lemma_digits_end(input, start + 1);
        let digits = input.subrange(start + 1, end);
        assert(input.subrange(start, end + 3) =~= declaration(digits));
        assert(stands_declared(input, start, digits));
    }
    assert forall|digits: Seq<u8>| #[trigger] stands_declared(input, start, digits) implies {
        &&& declares_literal(input, start)
        &&& literal_body(input, start) == start + digits.len() + 4
        &&& literal_size(input, start) == number(digits)
    } by {
        lemma_declaration(input, start, digits);
    }
}

/// A literal that is cut short confirms the boundary.
proof fn lemma_cut_short_confirms(
    input: Seq<u8>,
    start: int,
    digits: Seq<u8>,
    needed: int,
    limit: int,
)
    requires
        is_cut_short(input, start, digits, needed, limit),
    ensures
        confirms_boundary(input, start, needed, limit),
        literal_body(input, start) == start + digits.len() + 4,
        literal_size(input, start) == number(digits),
{
    lemma_declaration(input, start, digits);
}

/// Where the boundary is confirmed, a literal is cut short.
proof fn lemma_confirmed_is_cut_short(input: Seq<u8>, start: int, needed: int, limit: int)
    requires
        confirms_boundary(input, start, needed, limit),
    ensures
        is_cut_short(
            input,
            start,
            input.subrange(start + 1, digits_end(input, start + 1)),
            needed,
            limit,
        ),
{
    let end = digits_end(input, start + 1);
    let digits = input.subrange(start + 1, end);
    lemma_digits_end(input, start + 1);
    lemma_number(digits);
    assert(input.subrange(start, end + 3) =~= declaration(digits));
}

/// The search for an oversized literal gives the first declaration, wherever it
/// stands in the input, of a literal that is larger than the limit and lacks just the
/// bytes that are needed; it gives nothing only where there is none.
pub proof fn law_search_gives_the_first_literal_cut_short(input: Seq<u8>, needed: int, limit: int)
    requires
        input.len() <= usize::MAX,
    ensures
        match first_boundary(input, 0, needed, limit) {
            Some(boundary) => exists|start: int, digits: Seq<u8>|
                {
                    &&& #[trigger] is_cut_short(input, start, digits, needed, limit)
                    &&& boundary.literal_start == start + digits.len() + 4
                    &&& boundary.declared_size == number(digits)
                    &&& forall|earlier: int, others: Seq<u8>|
                        earlier < start ==> !#[trigger] is_cut_short(
                            input,
                            earlier,
                            others,
                            needed,
                            limit,
                        )
                },
            None => forall|start: int, digits: Seq<u8>|
                !#[trigger] is_cut_short(input, start, digits, needed, limit),
        },
{
    law_first_declaration_is_the_boundary(input, needed, limit);
    assert forall|start: int, digits: Seq<u8>| #[trigger]
        is_cut_short(input, start, digits, needed, limit) implies confirms_boundary(
        input,
        start,
        needed,
        limit,
    ) by {
        lemma_cut_short_confirms(input, start, digits, needed, limit);
    }
    if let Some(boundary) = first_boundary(input, 0, needed, limit) {
        let start = choose|start: int|
            {
                &&& #[trigger] confirms_boundary(input, start, needed, limit)
                &&& boundary == boundary_at(input, start)
                &&& forall|earlier: int|
                    earlier < start ==> !#[trigger] confirms_boundary(input, earlier, needed, limit)
            };
        let digits = input.subrange(start + 1, digits_end(input, start + 1));
        lemma_confirmed_is_cut_short(input, start, needed, limit);
        lemma_cut_short_confirms(input, start, digits, needed, limit);
    }
}

/// In any input that ends in the beginning of a literal, behind a front of any length
/// and content, the search gives a boundary if the literal is larger than the limit
/// and lacks just the bytes that are needed. It is the boundary of that literal unless
/// such a declaration starts inside the front.
pub proof fn law_literal_behind_any_front_is_found(
    front: Seq<u8>,
    digits: Seq<u8>,
    body: Seq<u8>,
    needed: int,
    limit: int,
)
    requires
        are_digits(digits),
        limit < number(digits) <= usize::MAX,
        number(digits) - body.len() == needed,
        front.len() + digits.len() + 4 + body.len() <= usize::MAX,
    ensures
        ({
            let input = front + declaration(digits) + body;
            let found = first_boundary(input, 0, needed, limit);
            &&& found is Some
            &&& (forall|earlier: int, others: Seq<u8>|
                earlier < front.len() ==> !#[trigger] is_cut_short(
                    input,
                    earlier,
                    others,
                    needed,
                    limit,
                )) ==> {
                &&& found.unwrap().literal_start == front.len() + digits.len() + 4
                &&& found.unwrap().declared_size == number(digits)
            }
        }),
{
    let input = front + declaration(digits) + body;
    let start = front.len() as int;
    assert(input.subrange(start, start + digits.len() + 4) =~= declaration(digits));
    assert(is_cut_short(input, start, digits, needed, limit));
    law_search_gives_the_first_literal_cut_short(input, needed, limit);
    if let Some(boundary) = first_boundary(input, 0, needed, limit) {
        let (first, others) = choose|first: int, others: Seq<u8>|
            {
                &&& #[trigger] is_cut_short(input, first, others, needed, limit)
                &&& boundary.literal_start == first + others.len() + 4
                &&& boundary.declared_size == number(others)
                &&& forall|earlier: int, more: Seq<u8>|
                    earlier < first ==> !#[trigger] is_cut_short(
                        input,
                        earlier,
                        more,
                        needed,
                        limit,
                    )
            };
        if first == start {
            lemma_cut_short_confirms(input, start, digits, needed, limit);
            lemma_cut_short_confirms(input, start, others, needed, limit);
        }
    }
}

/// The number that a decimal text stands for.
pub open spec fn text_number(text: Seq<char>) -> int
    decreases text.len(),
{
    if text.len() == 0 {
        0
    } else {
        10 * text_number(text.drop_last()) + (text.last() as int - 0x30)
    }
}

/// A number in decimal is made of digits, has no zero in front unless it is zero, and
/// reads back as the number.
pub proof fn law_decimal_text_reads_back(n: nat)
    ensures
        ({
            let text = decimal_text(n);
            &&& text.len() > 0
            &&& forall|i: int| 0 <= i < text.len() ==> '0' <= #[trigger] text[i] <= '9'
            &&& text[0] == '0' ==> n == 0
            &&& n == 0 ==> text.len() == 1
            &&& text_number(text) == n
        }),
    decreases n,
{
    let text = decimal_text(n);
    if n < 10 {
        assert(text.drop_last() =~= seq![]);
        assert(text_number(text.drop_last()) == 0);
        assert(text.last() == text[0]);
    } else {
        let front = decimal_text(n / 10);
        law_decimal_text_reads_back(n / 10);
        assert(text.drop_last() =~= front);
        assert(text.last() as int == 0x30 + n % 10);
        assert forall|i: int| 0 <= i < text.len() implies '0' <= #[trigger] text[i] <= '9' by {
            if i < front.len() {
                assert(text[i] == front[i]);
            }
        }
        assert(text[0] == front[0]);
    }
}

/// The text that shows a buffer gives the bytes in use and the capacity in decimal.
pub proof fn law_debug_text_gives_both_numbers(buffer: BufferView, capacity: nat)
    ensures
        buffer.debug_text(capacity) == "Buffer { used: "@ + decimal_text(buffer.used as nat)
            + ", capacity: "@ + decimal_text(capacity) + " }"@,
{
}

/// Each error has its class and its text.
pub proof fn law_errors_are_told_apart(text: Seq<char>)
    ensures
        ErrorView::ResponseTooLarge.kind() == ErrorKind::InvalidData,
        ErrorView::LiteralOverflow.kind() == ErrorKind::InvalidData,
        ErrorView::BytesRemaining.kind() == ErrorKind::UnexpectedEof,
        ErrorView::LiteralTruncated.kind() == ErrorKind::UnexpectedEof,
        ErrorView::Unparsable(text).kind() == ErrorKind::Other,
        ErrorView::Unsupported.kind() == ErrorKind::InvalidData,
        ErrorView::SizeOverflow.kind() == ErrorKind::InvalidData,
        ErrorView::ResponseTooLarge.message() == "incoming IMAP response too large"@,
        ErrorView::LiteralOverflow.message() == "IMAP literal overflow"@,
        ErrorView::BytesRemaining.message() == "bytes remaining in stream"@,
        ErrorView::LiteralTruncated.message()
            == "oversized IMAP literal ended before its retained prefix"@,
        ErrorView::Unparsable(text).message() == text,
        ErrorView::Unsupported.message() == "unsupported IMAP response"@,
        ErrorView::SizeOverflow.message() == "IMAP response size overflow"@,
{
}

/// Errors show what they are.
pub proof fn law_views_of_errors(text: String)
    ensures
        StreamError::ResponseTooLarge@ == ErrorView::ResponseTooLarge,
        StreamError::LiteralOverflow@ == ErrorView::LiteralOverflow,
        StreamError::BytesRemaining@ == ErrorView::BytesRemaining,
        StreamError::LiteralTruncated@ == ErrorView::LiteralTruncated,
        StreamError::Unparsable(text)@ == ErrorView::Unparsable(text@),
        StreamError::Unsupported@ == ErrorView::Unsupported,
        StreamError::SizeOverflow@ == ErrorView::SizeOverflow,
{
}

/// The pieces of a request, one after the other, are the tag and a space, if it has a
/// tag, then its text, then CR LF.
pub proof fn law_pieces_of_a_request(request: Request)
    ensures
        wire_pieces(request.tag(), request.1@).flatten() == match request.0 {
            Some(tag) => encode_utf8(tag@) + seq![0x20u8] + request.1@ + seq![0x0du8, 0x0au8],
            None => request.1@ + seq![0x0du8, 0x0au8],
        },
{
    law_request_is_one_line(request.tag(), request.1@);
}

} // verus!
