//! Which bytes may be handed to the response parser.
//!
//! `imap_proto`'s parser panics, instead of returning an error, on two mistakes if it
//! gets to them: a `FETCH` item `INTERNALDATE NIL`, and in a `METADATA` response a
//! literal that is not UTF-8, as the value of an entry or as a name that passes for
//! one. This module finds the first place that looks like one of these. It follows
//! the lexical structure of a response, quoted strings and literals, so that such
//! bytes inside a string do not count.
//!
//! Whether the parser gets there shows when it is given the bytes before that place.
//! It works from left to right and asks for more where it runs out of them: for the
//! three bytes of `NIL` where a date or a value is to come, for one byte if that is
//! all that a literal lacks. Any other answer was settled by earlier bytes, and is
//! its answer to the whole input too.
use vstd::prelude::*;
use vstd::utf8::valid_utf8;

use crate::ascii::{BACKSLASH, CLOSE_PAREN, CR, NINE, OPEN_PAREN, QUOTE, SPACE, ZERO};
use crate::entry::{is_entry_name, passes_for_entry_name};
use crate::literal::{
    declared_literal, declares_literal, digits_end, is_digit, lemma_digits_end,
    lemma_front_digits_end, literal_body, literal_size,
};
use crate::parser::{parse_response, parse_result, ParseOutcome, ParseView};

verus! {

/// `* `
pub const UNTAGGED: [u8; 2] = [0x2a, 0x20];

/// ` fetch (`
pub const FETCH_LIST: [u8; 8] = [0x20, 0x66, 0x65, 0x74, 0x63, 0x68, 0x20, 0x28];

/// `internaldate nil`
pub const NIL_DATE: [u8; 16] = [
    0x69, 0x6e, 0x74, 0x65, 0x72, 0x6e, 0x61, 0x6c, 0x64, 0x61, 0x74, 0x65, 0x20, 0x6e, 0x69, 0x6c,
];

/// `* metadata `
pub const UNTAGGED_METADATA: [u8; 11] = [
    0x2a, 0x20, 0x6d, 0x65, 0x74, 0x61, 0x64, 0x61, 0x74, 0x61, 0x20,
];

/// `byte`, as a lower case letter where it is an ASCII letter.
pub open spec fn lower_case(byte: u8) -> u8 {
    if 0x41 <= byte <= 0x5a {
        (byte + 0x20) as u8
    } else {
        byte
    }
}

/// Whether `word`, which is in lower case, stands at `at` in any case.
pub open spec fn has_word(input: Seq<u8>, at: int, word: Seq<u8>) -> bool {
    &&& 0 <= at
    &&& at + word.len() <= input.len()
    &&& forall|i: int| 0 <= i < word.len() ==> lower_case(input[at + i]) == #[trigger] word[i]
}

/// The position after the closing quote of a quoted string whose text goes on at
/// `from`, if it is closed.
pub open spec fn quoted_end(input: Seq<u8>, from: int) -> Option<int>
    decreases input.len() - from,
{
    if from < 0 || from >= input.len() {
        None
    } else if input[from] == QUOTE {
        Some(from + 1)
    } else if input[from] == BACKSLASH {
        if from + 1 < input.len() {
            quoted_end(input, from + 2)
        } else {
            None
        }
    } else {
        quoted_end(input, from + 1)
    }
}

/// The position after the literal declared at `at`, if its body is complete.
pub open spec fn literal_end(input: Seq<u8>, at: int) -> Option<int> {
    if literal_body(input, at) + literal_size(input, at) <= input.len() {
        Some(literal_body(input, at) + literal_size(input, at))
    } else {
        None
    }
}

/// The position after the quoted string, the literal or the single byte at `at`;
/// none for a string that is not complete.
pub open spec fn token_end(input: Seq<u8>, at: int) -> Option<int> {
    if input[at] == QUOTE {
        quoted_end(input, at + 1)
    } else if declares_literal(input, at) {
        literal_end(input, at)
    } else {
        Some(at + 1)
    }
}

/// How deep in parentheses the input is after the token at `at`, if it was
/// `depth` deep before.
pub open spec fn depth_after(input: Seq<u8>, at: int, depth: int) -> int {
    if input[at] == OPEN_PAREN {
        depth + 1
    } else if input[at] == CLOSE_PAREN {
        depth - 1
    } else {
        depth
    }
}

/// Whether an item of a list can start at `at`: a parenthesis or a space is
/// before it.
pub open spec fn follows_separator(input: Seq<u8>, at: int) -> bool {
    0 < at <= input.len() && (input[at - 1] == OPEN_PAREN || input[at - 1] == SPACE)
}

/// Where in a list that goes on at `at`, `depth` parentheses deep, the first item
/// `INTERNALDATE NIL` of its top level stands.
pub open spec fn nil_date(input: Seq<u8>, at: int, depth: int) -> Option<int>
    decreases input.len() - at,
{
    if at < 0 || at >= input.len() || depth <= 0 || input[at] == CR {
        None
    } else if depth == 1 && follows_separator(input, at) && has_word(input, at, NIL_DATE@) {
        Some(at)
    } else {
        match token_end(input, at) {
            Some(end) => if at < end <= input.len() {
                nil_date(input, end, depth_after(input, at, depth))
            } else {
                None
            },
            None => None,
        }
    }
}

/// Where the list of items of a `FETCH` response begins, after its parenthesis,
/// if the input is one.
pub open spec fn fetch_list(input: Seq<u8>) -> Option<int> {
    if has_word(input, 0, UNTAGGED@) && digits_end(input, 2) > 2 && has_word(
        input,
        digits_end(input, 2),
        FETCH_LIST@,
    ) {
        Some(digits_end(input, 2) + 8)
    } else {
        None
    }
}

/// Whether a complete literal that is not UTF-8 stands at `at`.
pub open spec fn is_undecodable(input: Seq<u8>, at: int) -> bool {
    &&& input[at] != QUOTE
    &&& declares_literal(input, at)
    &&& literal_end(input, at) matches Some(end) && !valid_utf8(
        input.subrange(literal_body(input, at), end),
    )
}

/// Where the first complete literal that is not UTF-8 stands in a response that goes
/// on at `at`.
pub open spec fn undecodable_literal(input: Seq<u8>, at: int) -> Option<int>
    decreases input.len() - at,
{
    if at < 0 || at >= input.len() || input[at] == CR {
        None
    } else if is_undecodable(input, at) {
        Some(at)
    } else {
        match token_end(input, at) {
            Some(end) => if at < end <= input.len() {
                undecodable_literal(input, end)
            } else {
                None
            },
            None => None,
        }
    }
}

/// The first item `INTERNALDATE NIL`, if the input is a `FETCH` response that has
/// one.
pub open spec fn first_nil_date(input: Seq<u8>) -> Option<int> {
    match fetch_list(input) {
        Some(list) => nil_date(input, list, 1),
        None => None,
    }
}

/// The first complete literal that is not UTF-8, if the input is a `METADATA`
/// response that has one.
pub open spec fn first_undecodable(input: Seq<u8>) -> Option<int> {
    if has_word(input, 0, UNTAGGED_METADATA@) {
        undecodable_literal(input, 11)
    } else {
        None
    }
}

/// Whether nothing in `input` looks like what the parser panics on.
pub open spec fn is_clear(input: Seq<u8>) -> bool {
    first_nil_date(input) is None && first_undecodable(input) is None
}

/// Whether the parser asks for `count` bytes more if it is given those before `at`.
pub open spec fn asks_for(input: Seq<u8>, at: int, count: usize) -> bool {
    parse_result(input.take(at)) == ParseView::NeedsBytes(count)
}

/// Whether the parser gets to the item `INTERNALDATE NIL` at `at`, and so to its
/// `NIL`.
pub open spec fn reaches_nil(input: Seq<u8>, at: int) -> bool {
    asks_for(input, at + 13, 3)
}

/// Whether the parser gets to the literal from `at` to `end` and takes its body for
/// text: as a value, in whose place `NIL` could stand too, or as a name that passes
/// for one.
pub open spec fn reaches_text(input: Seq<u8>, at: int, end: int) -> bool {
    &&& asks_for(input, end - 1, 1)
    &&& asks_for(input, at, 3) || is_entry_name(input.subrange(literal_body(input, at), end))
}

/// Whether the parser can be given `input`: it does not get to anything that it
/// panics on.
pub open spec fn parser_admits(input: Seq<u8>) -> bool {
    &&& first_nil_date(input) matches Some(at) ==> !reaches_nil(input, at)
    &&& first_undecodable(input) matches Some(at) ==> !reaches_text(
        input,
        at,
        literal_end(input, at).unwrap(),
    )
}

proof fn lemma_quoted_end(input: Seq<u8>, from: int)
    requires
        0 <= from,
    ensures
        quoted_end(input, from) matches Some(end) ==> from < end <= input.len(),
    decreases input.len() - from,
{
    if from < input.len() {
        if input[from] == BACKSLASH {
            if from + 1 < input.len() {
                lemma_quoted_end(input, from + 2);
            }
        } else if input[from] != QUOTE {
            lemma_quoted_end(input, from + 1);
        }
    }
}

/// A literal is declared in the front of the input if its declaration is within the
/// front, and is the same literal there.
proof fn lemma_front_literal(input: Seq<u8>, at: int, n: int)
    requires
        0 <= at < n <= input.len(),
    ensures
        declares_literal(input.take(n), at) <==> declares_literal(input, at) && literal_body(
            input,
            at,
        ) <= n,
        declares_literal(input.take(n), at) ==> {
            &&& literal_body(input.take(n), at) == literal_body(input, at)
            &&& literal_size(input.take(n), at) == literal_size(input, at)
        },
{
    lemma_digits_end(input, at + 1);
    lemma_front_digits_end(input, at + 1, n);
    if declares_literal(input.take(n), at) {
        assert(input.take(n).subrange(at + 1, digits_end(input, at + 1)) =~= input.subrange(
            at + 1,
            digits_end(input, at + 1),
        ));
    }
}

/// A quoted string that ends within the front of the input ends there in the front.
proof fn lemma_front_quoted_end(input: Seq<u8>, from: int, n: int)
    requires
        0 <= from,
        n <= input.len(),
        quoted_end(input, from) matches Some(end) && end <= n,
    ensures
        quoted_end(input.take(n), from) == quoted_end(input, from),
    decreases input.len() - from,
{
    lemma_quoted_end(input, from);
    if input[from] == BACKSLASH {
        lemma_quoted_end(input, from + 2);
        lemma_front_quoted_end(input, from + 2, n);
    } else if input[from] != QUOTE {
        lemma_front_quoted_end(input, from + 1, n);
    }
}

/// A token that ends within the front of the input is the same token in the front.
proof fn lemma_front_token_end(input: Seq<u8>, at: int, n: int)
    requires
        0 <= at < n <= input.len(),
        token_end(input, at) matches Some(end) && at < end <= n,
    ensures
        token_end(input.take(n), at) == token_end(input, at),
{
    lemma_front_literal(input, at, n);
    if input[at] == QUOTE {
        lemma_front_quoted_end(input, at + 1, n);
    }
}

/// A list that ends before `INTERNALDATE NIL` would fit has no such item.
proof fn lemma_short_list(input: Seq<u8>, at: int, depth: int)
    requires
        input.len() - at < 16,
    ensures
        nil_date(input, at, depth) is None,
    decreases input.len() - at,
{
    if 0 <= at < input.len() {
        if let Some(end) = token_end(input, at) {
            if at < end <= input.len() {
                lemma_short_list(input, end, depth_after(input, at, depth));
            }
        }
    }
}

/// The bytes up to the `NIL` of the first `INTERNALDATE NIL` have no such item.
proof fn lemma_front_nil_date(input: Seq<u8>, at: int, depth: int)
    requires
        nil_date(input, at, depth) is Some,
    ensures
        nil_date(input, at, depth) matches Some(date) ==> {
            &&& at <= date
            &&& date + 16 <= input.len()
            &&& nil_date(input.take(date + 13), at, depth) is None
        },
    decreases input.len() - at,
{
    let date = nil_date(input, at, depth).unwrap();
    if depth == 1 && follows_separator(input, at) && has_word(input, at, NIL_DATE@) {
        lemma_short_list(input.take(date + 13), at, depth);
    } else {
        let end = token_end(input, at).unwrap();
        let next = depth_after(input, at, depth);
        lemma_front_nil_date(input, end, next);
        lemma_front_token_end(input, at, date + 13);
        let front = input.take(date + 13);
        if has_word(front, at, NIL_DATE@) {
            assert forall|i: int| 0 <= i < NIL_DATE@.len() implies lower_case(input[at + i])
                == #[trigger] NIL_DATE@[i] by {
                assert(lower_case(front[at + i]) == NIL_DATE@[i]);
            }
        }
    }
}

/// The bytes before the first literal that is not UTF-8, and those up to its last
/// byte, have no such literal.
proof fn lemma_front_undecodable(input: Seq<u8>, at: int, n: int)
    requires
        undecodable_literal(input, at) matches Some(literal) && (n == literal || literal_body(
            input,
            literal,
        ) <= n < literal_end(input, literal).unwrap()),
    ensures
        undecodable_literal(input, at) matches Some(literal) ==> {
            &&& at <= literal < input.len()
            &&& is_undecodable(input, literal)
        },
        undecodable_literal(input.take(n), at) is None,
    decreases input.len() - at,
{
    let literal = undecodable_literal(input, at).unwrap();
    if is_undecodable(input, at) {
        lemma_digits_end(input, at + 1);
        if n > at {
            lemma_front_literal(input, at, n);
        }
    } else {
        let end = token_end(input, at).unwrap();
        lemma_front_undecodable(input, end, n);
        lemma_digits_end(input, literal + 1);
        lemma_front_token_end(input, at, n);
        lemma_front_literal(input, at, n);
        if declares_literal(input.take(n), at) {
            let body = literal_body(input, at);
            assert(input.take(n).subrange(body, end) =~= input.subrange(body, end));
        }
    }
}

/// The front of the input that shows whether the parser gets to a `NIL` is clear.
pub proof fn lemma_front_of_nil_is_clear(input: Seq<u8>)
    requires
        first_nil_date(input) is Some,
    ensures
        first_nil_date(input) matches Some(date) ==> {
            &&& 0 <= date
            &&& date + 16 <= input.len()
            &&& is_clear(input.take(date + 13))
        },
{
    let list = fetch_list(input).unwrap();
    lemma_front_nil_date(input, list, 1);
    let n = nil_date(input, list, 1).unwrap() + 13;
    lemma_front_digits_end(input, 2, n);
    let front = input.take(n);
    assert(is_digit(input[2]));
    assert(UNTAGGED_METADATA@[2] == 0x6d);
    assert(!has_word(front, 0, UNTAGGED_METADATA@));
}

/// The fronts of the input that show whether the parser gets to a literal, and what
/// it takes the literal for, are clear.
pub proof fn lemma_front_of_literal_is_clear(input: Seq<u8>)
    requires
        first_undecodable(input) is Some,
    ensures
        first_undecodable(input) matches Some(at) ==> {
            &&& 0 <= at < literal_body(input, at) < literal_end(input, at).unwrap() <= input.len()
            &&& is_undecodable(input, at)
            &&& is_clear(input.take(at))
            &&& is_clear(input.take(literal_end(input, at).unwrap() - 1))
        },
{
    let at = undecodable_literal(input, 11).unwrap();
    lemma_front_undecodable(input, 11, at);
    lemma_digits_end(input, at + 1);
    let body = literal_body(input, at);
    let end = literal_end(input, at).unwrap();
    if end == body {
        assert(input.subrange(body, end) =~= seq![]);
        assert(valid_utf8(input.subrange(body, end)));
    }
    lemma_front_undecodable(input, 11, end - 1);
    assert(UNTAGGED_METADATA@[2] == 0x6d);
    assert(lower_case(input[2]) == UNTAGGED_METADATA@[2]);
    lemma_front_digits_end(input, 2, at);
    lemma_front_digits_end(input, 2, end - 1);
    assert(digits_end(input, 2) == 2);
}

/// Tells whether `word`, which is in lower case, stands at `at` in any case.
fn matches_word(input: &[u8], at: usize, word: &[u8]) -> (found: bool)
    requires
        at <= input@.len(),
    ensures
        found == has_word(input@, at as int, word@),
{
    if input.len() - at < word.len() {
        return false;
    }
    let mut i: usize = 0;
    while i < word.len()
        invariant
            i <= word@.len(),
            at + word@.len() <= input.len(),
            forall|j: int| 0 <= j < i ==> lower_case(input@[at + j]) == #[trigger] word@[j],
        decreases word@.len() - i,
    {
        let byte: u8 = input[at + i];
        let lower: u8 = if 0x41 <= byte && byte <= 0x5a {
            byte + 0x20
        } else {
            byte
        };
        if lower != word[i] {
            return false;
        }
        i = i + 1;
    }
    true
}

/// Finds the position after the closing quote of a quoted string whose text goes
/// on at `from`.
fn find_quoted_end(input: &[u8], from: usize) -> (end: Option<usize>)
    requires
        from <= input@.len(),
    ensures
        end is Some <==> quoted_end(input@, from as int) is Some,
        end matches Some(end) ==> Some(end as int) == quoted_end(input@, from as int) && from < end
            <= input@.len(),
{
    let mut at: usize = from;
    proof {
        lemma_quoted_end(input@, from as int);
    }
    while at < input.len()
        invariant
            from <= at <= input@.len(),
            quoted_end(input@, from as int) == quoted_end(input@, at as int),
        decreases input@.len() - at,
    {
        if input[at] == QUOTE {
            return Some(at + 1);
        }
        if input[at] == BACKSLASH {
            if input.len() - at < 2 {
                return None;
            }
            at = at + 2;
        } else {
            at = at + 1;
        }
    }
    None
}

/// The std function `str::from_utf8` accepts exactly the byte sequences that are
/// valid UTF-8.
#[verifier::external_body]
fn is_utf8(bytes: &[u8]) -> (valid: bool)
    ensures
        valid == valid_utf8(bytes@),
{
    std::str::from_utf8(bytes).is_ok()
}

/// Finds the end of the token at `at`, and for a literal the start of its body.
fn find_token_end(input: &[u8], at: usize) -> (token: Option<(usize, Option<usize>)>)
    requires
        at < input@.len(),
    ensures
        token is Some <==> token_end(input@, at as int) is Some,
        token matches Some((end, body)) ==> {
            &&& Some(end as int) == token_end(input@, at as int)
            &&& at < end <= input@.len()
            &&& body is Some <==> input@[at as int] != QUOTE && declares_literal(input@, at as int)
            &&& body matches Some(body) ==> body == literal_body(input@, at as int) && body <= end
        },
{
    if input[at] == QUOTE {
        return match find_quoted_end(input, at + 1) {
            Some(end) => Some((end, None)),
            None => None,
        };
    }
    match declared_literal(input, at) {
        Some((body, Some(size))) => {
            if size <= input.len() - body {
                Some((body + size, Some(body)))
            } else {
                None
            }
        },
        Some((_, None)) => None,
        None => Some((at + 1, None)),
    }
}

/// Finds the first item `INTERNALDATE NIL` of the list that begins at `start`.
fn find_nil_date(input: &[u8], start: usize) -> (found: Option<usize>)
    requires
        0 < start <= input@.len(),
    ensures
        found is Some <==> nil_date(input@, start as int, 1) is Some,
        found matches Some(at) ==> Some(at as int) == nil_date(input@, start as int, 1) && at + 16
            <= input.len(),
{
    let mut at: usize = start;
    let mut depth: usize = 1;
    while at < input.len() && depth > 0 && input[at] != CR
        invariant
            0 < start <= at <= input.len(),
            depth <= at - start + 1,
            nil_date(input@, start as int, 1) == nil_date(input@, at as int, depth as int),
        decreases input@.len() - at,
    {
        if depth == 1 && (input[at - 1] == OPEN_PAREN || input[at - 1] == SPACE) && matches_word(
            input,
            at,
            &NIL_DATE,
        ) {
            return Some(at);
        }
        let next: usize = match find_token_end(input, at) {
            Some((end, _)) => end,
            None => {
                return None;
            },
        };
        if input[at] == OPEN_PAREN {
            depth = depth + 1;
        } else if input[at] == CLOSE_PAREN {
            depth = depth - 1;
        }
        at = next;
    }
    None
}

/// Finds the first complete literal that is not UTF-8 in the response that goes on at
/// `start`: where it stands, where its body begins, and where it ends.
fn find_undecodable(input: &[u8], start: usize) -> (found: Option<(usize, usize, usize)>)
    requires
        start <= input@.len(),
    ensures
        found is Some <==> undecodable_literal(input@, start as int) is Some,
        found matches Some((at, body, end)) ==> {
            &&& Some(at as int) == undecodable_literal(input@, start as int)
            &&& body == literal_body(input@, at as int)
            &&& Some(end as int) == literal_end(input@, at as int)
        },
{
    let mut at: usize = start;
    while at < input.len() && input[at] != CR
        invariant
            at <= input@.len(),
            undecodable_literal(input@, start as int) == undecodable_literal(input@, at as int),
        decreases input@.len() - at,
    {
        match find_token_end(input, at) {
            Some((end, Some(body))) => {
                if !is_utf8(&input[body..end]) {
                    return Some((at, body, end));
                }
                at = end;
            },
            Some((end, None)) => {
                at = end;
            },
            None => {
                return None;
            },
        }
    }
    None
}

/// Finds where the list of items of a `FETCH` response begins.
fn find_fetch_list(input: &[u8]) -> (start: Option<usize>)
    ensures
        start is Some <==> fetch_list(input@) is Some,
        start matches Some(start) ==> Some(start as int) == fetch_list(input@) && 0
            < start <= input@.len(),
{
    if !matches_word(input, 0, &UNTAGGED) {
        return None;
    }
    let mut end: usize = 2;
    proof {
        lemma_digits_end(input@, 2);
    }
    while end < input.len() && ZERO <= input[end] && input[end] <= NINE
        invariant
            2 <= end <= input@.len(),
            digits_end(input@, 2) == digits_end(input@, end as int),
        decreases input@.len() - end,
    {
        end = end + 1;
    }
    if end > 2 && matches_word(input, end, &FETCH_LIST) {
        Some(end + 8)
    } else {
        None
    }
}

/// Tells whether the parser asks for `count` bytes more if it is given those before
/// `at`.
fn is_asked_for(input: &[u8], at: usize, count: usize) -> (asked: bool)
    requires
        at <= input@.len(),
        is_clear(input@.take(at as int)),
    ensures
        asked == asks_for(input@, at as int, count),
{
    let front: &[u8] = &input[0..at];
    assert(front@ =~= input@.take(at as int));
    match parse_response(front) {
        ParseOutcome::NeedsBytes(needed) => needed == count,
        _ => false,
    }
}

/// Tells whether the parser can be given `input`.
pub fn is_admitted(input: &[u8]) -> (admitted: bool)
    ensures
        admitted == parser_admits(input@),
{
    if let Some(list) = find_fetch_list(input) {
        if let Some(at) = find_nil_date(input, list) {
            proof {
                lemma_front_of_nil_is_clear(input@);
            }
            if is_asked_for(input, at + 13, 3) {
                return false;
            }
        }
    }
    if matches_word(input, 0, &UNTAGGED_METADATA) {
        if let Some((at, body, end)) = find_undecodable(input, 11) {
            proof {
                lemma_front_of_literal_is_clear(input@);
            }
            return !is_asked_for(input, end - 1, 1) || !(is_asked_for(input, at, 3)
                || passes_for_entry_name(&input[body..end]));
        }
    }
    true
}

} // verus!
