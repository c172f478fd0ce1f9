//! What is kept from the parser, and what is not, said of bytes and of the parser's
//! own answers.
use vstd::prelude::*;
use vstd::utf8::valid_utf8;

use crate::admission::{
    depth_after, fetch_list, first_nil_date, first_undecodable, follows_separator, has_word,
    is_undecodable, lemma_front_of_literal_is_clear, lemma_front_of_nil_is_clear, literal_end,
    lower_case, nil_date, parser_admits, quoted_end, reaches_nil, token_end, undecodable_literal,
    FETCH_LIST, NIL_DATE, UNTAGGED, UNTAGGED_METADATA,
};
use crate::entry::{
    has_bytes, is_comment_or_vendor, is_entry_name, is_path, is_path_rest, ADMIN, COMMENT, PRIVATE,
    SHARED, VENDOR,
};
use crate::literal::{digits_end, lemma_digits_end, literal_body};
use crate::parser::{parse_result, ParseView};
use crate::purpose::{
    are_digits, declaration, lemma_declaration, lemma_digits_end_at, lemma_number, number,
    stands_declared,
};

verus! {

/// `* `
pub open spec fn star() -> Seq<u8> {
    seq![0x2au8, 0x20u8]
}

/// ` fetch (`
pub open spec fn fetch() -> Seq<u8> {
    seq![0x20u8, 0x66u8, 0x65u8, 0x74u8, 0x63u8, 0x68u8, 0x20u8, 0x28u8]
}

/// `internaldate nil`
pub open spec fn date() -> Seq<u8> {
    seq![
        0x69u8,
        0x6eu8,
        0x74u8,
        0x65u8,
        0x72u8,
        0x6eu8,
        0x61u8,
        0x6cu8,
        0x64u8,
        0x61u8,
        0x74u8,
        0x65u8,
        0x20u8,
        0x6eu8,
        0x69u8,
        0x6cu8,
    ]
}

/// `* metadata `
pub open spec fn metadata() -> Seq<u8> {
    seq![
        0x2au8,
        0x20u8,
        0x6du8,
        0x65u8,
        0x74u8,
        0x61u8,
        0x64u8,
        0x61u8,
        0x74u8,
        0x61u8,
        0x20u8,
    ]
}

/// `/private`
pub open spec fn private() -> Seq<u8> {
    seq![0x2fu8, 0x70u8, 0x72u8, 0x69u8, 0x76u8, 0x61u8, 0x74u8, 0x65u8]
}

/// `/shared`
pub open spec fn shared() -> Seq<u8> {
    seq![0x2fu8, 0x73u8, 0x68u8, 0x61u8, 0x72u8, 0x65u8, 0x64u8]
}

/// `/admin`
pub open spec fn admin() -> Seq<u8> {
    seq![0x2fu8, 0x61u8, 0x64u8, 0x6du8, 0x69u8, 0x6eu8]
}

/// `/comment`
pub open spec fn comment() -> Seq<u8> {
    seq![0x2fu8, 0x63u8, 0x6fu8, 0x6du8, 0x6du8, 0x65u8, 0x6eu8, 0x74u8]
}

/// `/vendor`
pub open spec fn vendor() -> Seq<u8> {
    seq![0x2fu8, 0x76u8, 0x65u8, 0x6eu8, 0x64u8, 0x6fu8, 0x72u8]
}

/// Whether `text` is `word`, which is in lower case, with its letters in any case.
pub open spec fn spells(text: Seq<u8>, word: Seq<u8>) -> bool {
    &&& text.len() == word.len()
    &&& forall|i: int|
        0 <= i < word.len() ==> {
            ||| #[trigger] text[i] == word[i] && !(0x41 <= text[i] <= 0x5a)
            ||| 0x41 <= text[i] <= 0x5a && text[i] + 0x20 == word[i]
        }
}

/// Whether `word` stands at `at`, with its letters in any case.
pub open spec fn stands_at(input: Seq<u8>, at: int, word: Seq<u8>) -> bool {
    0 <= at && at + word.len() <= input.len() && spells(
        input.subrange(at, at + word.len()),
        word,
    )
}

/// Whether the parser, given the bytes before `at`, asks for `count` more.
pub open spec fn wants(input: Seq<u8>, at: int, count: usize) -> bool {
    parse_result(input.take(at)) == ParseView::NeedsBytes(count)
}

/// Whether the parser gets to a date `NIL`: `INTERNALDATE NIL` stands at `at`, as an
/// item of a list, in a response with a number, and the parser, given all before the
/// `NIL`, wants its three bytes.
pub open spec fn gets_to_nil(input: Seq<u8>, at: int) -> bool {
    &&& stands_at(input, 0, star())
    &&& 2 < input.len() && 0x30 <= input[2] <= 0x39
    &&& stands_at(input, at, date())
    &&& 0 < at && (input[at - 1] == 0x28 || input[at - 1] == 0x20)
    &&& wants(input, at + 13, 3)
}

/// Whether the parser gets to a literal that is not UTF-8 and takes it for text: in a
/// `METADATA` response, the literal is declared at `at`, the parser wants just its
/// last byte if that is held back, and a value is to come there or the literal could
/// be a name.
pub open spec fn gets_to_undecodable(input: Seq<u8>, at: int, digits: Seq<u8>) -> bool {
    let body = at + digits.len() + 4;
    let end = body + number(digits);
    &&& stands_at(input, 0, metadata())
    &&& stands_declared(input, at, digits)
    &&& end <= input.len()
    &&& !valid_utf8(input.subrange(body, end))
    &&& wants(input, end - 1, 1)
    &&& wants(input, at, 3) || input[body] == 0x2f
}

proof fn lemma_words()
    ensures
        UNTAGGED@ =~= star(),
        FETCH_LIST@ =~= fetch(),
        NIL_DATE@ =~= date(),
        UNTAGGED_METADATA@ =~= metadata(),
        PRIVATE@ =~= private(),
        SHARED@ =~= shared(),
        ADMIN@ =~= admin(),
        COMMENT@ =~= comment(),
        VENDOR@ =~= vendor(),
{
}

proof fn lemma_word(input: Seq<u8>, at: int, word: Seq<u8>)
    ensures
        has_word(input, at, word) <==> stands_at(input, at, word),
{
    if 0 <= at && at + word.len() <= input.len() {
        let text = input.subrange(at, at + word.len());
        assert(forall|i: int| 0 <= i < word.len() ==> #[trigger] text[i] == input[at + i]);
        if has_word(input, at, word) {
            assert forall|i: int| 0 <= i < word.len() implies {
                ||| #[trigger] text[i] == word[i] && !(0x41 <= text[i] <= 0x5a)
                ||| 0x41 <= text[i] <= 0x5a && text[i] + 0x20 == word[i]
            } by {
                assert(word[i] == word[i]);
            }
        }
        if stands_at(input, at, word) {
            assert forall|i: int| 0 <= i < word.len() implies lower_case(
                input[at + i],
            ) == #[trigger] word[i] by {
                assert(text[i] == input[at + i]);
            }
        }
    }
}

proof fn lemma_nil_date_stands(input: Seq<u8>, at: int, depth: int)
    ensures
        nil_date(input, at, depth) matches Some(item) ==> follows_separator(input, item)
            && has_word(input, item, NIL_DATE@),
    decreases input.len() - at,
{
    if 0 <= at < input.len() {
        if let Some(end) = token_end(input, at) {
            if at < end <= input.len() {
                lemma_nil_date_stands(input, end, depth_after(input, at, depth));
            }
        }
    }
}

/// Nothing is kept from the parser without a reason: the parser gets to a date `NIL`,
/// or to a literal that is not UTF-8 and that it takes for text. Whatever else is in
/// the input, however long it is, the parser is asked.
pub proof fn law_nothing_is_refused_without_a_reason(input: Seq<u8>)
    requires
        !parser_admits(input),
    ensures
        (exists|at: int| #[trigger] gets_to_nil(input, at)) || (exists|at: int, digits: Seq<u8>|
            #[trigger] gets_to_undecodable(input, at, digits)),
{
    lemma_words();
    if first_nil_date(input) is Some && reaches_nil(
        input,
        first_nil_date(input).unwrap(),
    ) {
        let at = first_nil_date(input).unwrap();
        let list = fetch_list(input).unwrap();
        lemma_front_of_nil_is_clear(input);
        lemma_nil_date_stands(input, list, 1);
        lemma_word(input, 0, UNTAGGED@);
        lemma_word(input, at, NIL_DATE@);
        assert(gets_to_nil(input, at));
    } else {
        let at = first_undecodable(input).unwrap();
        lemma_front_of_literal_is_clear(input);
        lemma_word(input, 0, UNTAGGED_METADATA@);
        lemma_digits_end(input, at + 1);
        let digits = input.subrange(at + 1, digits_end(input, at + 1));
        let body = literal_body(input, at);
        let end = literal_end(input, at).unwrap();
        lemma_number(digits);
        assert(input.subrange(at, body) =~= declaration(digits));
        let name = input.subrange(body, end);
        assert(name[0] == input[body]);
        if is_entry_name(name) {
            assert(PRIVATE@[0] == 0x2f);
            assert(SHARED@[0] == 0x2f);
            assert(name[0] == 0x2f);
        }
        assert(gets_to_undecodable(input, at, digits));
    }
}

proof fn lemma_plain_bytes_to_nil(input: Seq<u8>, from: int, at: int)
    requires
        0 < from <= at,
        has_word(input, at, NIL_DATE@),
        follows_separator(input, at),
        forall|i: int|
            from <= i < at ==> {
                let byte = #[trigger] input[i];
                byte != 0x22 && byte != 0x7b && byte != 0x28 && byte != 0x29 && byte != 0x0d
            },
        forall|i: int| from <= i < at ==> !#[trigger] has_word(input, i, NIL_DATE@),
    ensures
        nil_date(input, from, 1) == Some(at),
    decreases at - from,
{
    lemma_words();
    if from < at {
        assert(!has_word(input, from, NIL_DATE@));
        lemma_plain_bytes_to_nil(input, from + 1, at);
    } else {
        assert(lower_case(input[at + 0int]) == NIL_DATE@[0]);
    }
}

/// A date `NIL` that the parser gets to is kept from it: in a `FETCH` response of any
/// number, behind any items that need no strings or lists, whatever comes after.
pub proof fn law_date_that_makes_the_parser_panic_is_refused(
    digits: Seq<u8>,
    word: Seq<u8>,
    items: Seq<u8>,
    item: Seq<u8>,
    rest: Seq<u8>,
)
    requires
        are_digits(digits),
        spells(word, fetch()),
        forall|i: int|
            0 <= i < items.len() ==> {
                let byte = #[trigger] items[i];
                byte != 0x22 && byte != 0x7b && byte != 0x28 && byte != 0x29 && byte != 0x0d
            },
        items.len() > 0 ==> items.last() == 0x20,
        spells(item, date()),
        forall|i: int|
            10 + digits.len() <= i < 10 + digits.len() + items.len() ==> !#[trigger] stands_at(
                star() + digits + word + items + item + rest,
                i,
                date(),
            ),
    ensures
        ({
            let input = star() + digits + word + items + item + rest;
            let nil = (10 + digits.len() + items.len() + 13) as int;
            wants(input, nil, 3) ==> !parser_admits(input)
        }),
{
    let input = star() + digits + word + items + item + rest;
    let list = 10 + digits.len() as int;
    let at = list + items.len();
    lemma_words();
    assert(input.subrange(0, 2) =~= star());
    lemma_word(input, 0, UNTAGGED@);
    assert forall|i: int| 2 <= i < 2 + digits.len() implies 0x30 <= #[trigger] input[i] <= 0x39 by {
        assert(input[i] == digits[i - 2]);
    }
    assert(input.subrange(2 + digits.len() as int, list) =~= word);
    assert(input[2 + digits.len() as int] == word[0]);
    lemma_digits_end_at(input, 2, 2 + digits.len() as int);
    lemma_word(input, 2 + digits.len() as int, FETCH_LIST@);
    assert(fetch_list(input) == Some(list));
    assert(input.subrange(at, at + 16) =~= item);
    lemma_word(input, at, NIL_DATE@);
    assert(input[list - 1] == word[7]);
    if items.len() > 0 {
        assert(input[at - 1] == items.last());
    }
    assert forall|i: int| list <= i < at implies {
        let byte = #[trigger] input[i];
        byte != 0x22 && byte != 0x7b && byte != 0x28 && byte != 0x29 && byte != 0x0d
    } by {
        assert(input[i] == items[i - list]);
    }
    assert forall|i: int| list <= i < at implies !#[trigger] has_word(input, i, NIL_DATE@) by {
        lemma_word(input, i, NIL_DATE@);
        assert(!stands_at(input, i, date()));
    }
    lemma_plain_bytes_to_nil(input, list, at);
}

proof fn lemma_plain_quoted_end(input: Seq<u8>, from: int, end: int)
    requires
        0 <= from <= end < input.len(),
        input[end] == 0x22,
        forall|i: int| from <= i < end ==> #[trigger] input[i] != 0x22 && input[i] != 0x5c,
    ensures
        quoted_end(input, from) == Some(end + 1),
    decreases end - from,
{
    if from < end {
        lemma_plain_quoted_end(input, from + 1, end);
    }
}

proof fn lemma_plain_bytes_to_literal(input: Seq<u8>, from: int, at: int)
    requires
        0 <= from <= at < input.len(),
        is_undecodable(input, at),
        forall|i: int|
            from <= i < at ==> {
                let byte = #[trigger] input[i];
                byte != 0x22 && byte != 0x7b && byte != 0x0d
            },
    ensures
        undecodable_literal(input, from) == Some(at),
    decreases at - from,
{
    if from < at {
        lemma_plain_bytes_to_literal(input, from + 1, at);
    }
}

/// A value that is not UTF-8 and that the parser gets to is kept from it: in a
/// `METADATA` response of any mailbox, behind anything that needs no strings,
/// whatever comes after.
pub proof fn law_value_that_makes_the_parser_panic_is_refused(
    word: Seq<u8>,
    mailbox: Seq<u8>,
    items: Seq<u8>,
    digits: Seq<u8>,
    body: Seq<u8>,
    rest: Seq<u8>,
)
    requires
        spells(word, metadata()),
        forall|i: int|
            0 <= i < mailbox.len() ==> #[trigger] mailbox[i] != 0x22 && mailbox[i] != 0x5c,
        forall|i: int|
            0 <= i < items.len() ==> {
                let byte = #[trigger] items[i];
                byte != 0x22 && byte != 0x7b && byte != 0x0d
            },
        are_digits(digits),
        number(digits) == body.len(),
        !valid_utf8(body),
    ensures
        ({
            let front = word + seq![0x22u8] + mailbox + seq![0x22u8] + items;
            let input = front + declaration(digits) + body + rest;
            let end = front.len() + digits.len() as int + 4 + body.len();
            wants(input, end - 1, 1) && wants(input, front.len() as int, 3) ==> !parser_admits(
                input,
            )
        }),
{
    let front = word + seq![0x22u8] + mailbox + seq![0x22u8] + items;
    let input = front + declaration(digits) + body + rest;
    let at = front.len() as int;
    let start = at + digits.len() + 4;
    let close = 12 + mailbox.len() as int;
    lemma_words();
    assert(input.subrange(0, 11) =~= word);
    lemma_word(input, 0, UNTAGGED_METADATA@);
    assert(input[2] == word[2]);
    assert(digits_end(input, 2) == 2);
    assert(input.subrange(at, start) =~= declaration(digits));
    lemma_declaration(input, at, digits);
    assert(input.subrange(start, start + body.len()) =~= body);
    assert(input[at] == declaration(digits)[0]);
    assert(is_undecodable(input, at));
    assert(input[11] == 0x22);
    assert(input[close] == 0x22);
    assert forall|i: int| 12 <= i < close implies #[trigger] input[i] != 0x22 && input[i]
        != 0x5c by {
        assert(input[i] == mailbox[i - 12]);
    }
    lemma_plain_quoted_end(input, 12, close);
    assert forall|i: int| close + 1 <= i < at implies {
        let byte = #[trigger] input[i];
        byte != 0x22 && byte != 0x7b && byte != 0x0d
    } by {
        assert(input[i] == items[i - close - 1]);
    }
    lemma_plain_bytes_to_literal(input, close + 1, at);
    assert(token_end(input, 11) == Some(close + 1));
    assert(undecodable_literal(input, 11) == Some(at));
}

/// Whether `byte` may stand in a path.
pub open spec fn is_fit_for_a_path(byte: u8) -> bool {
    0x1a <= byte <= 0x7f && byte != 0x2a && byte != 0x25
}

/// Whether a CR stands somewhere from `from` to `to`.
pub open spec fn has_cr(text: Seq<u8>, from: int, to: int) -> bool {
    exists|i: int| from <= i <= to && #[trigger] text[i] == 0x0d
}

/// Whether every byte from `from` on is fit for a path or stands behind a CR, if it is
/// not one itself.
pub open spec fn is_fit_up_to_cr(text: Seq<u8>, from: int) -> bool {
    forall|i: int|
        from <= i < text.len() ==> is_fit_for_a_path(#[trigger] text[i]) || has_cr(text, from, i)
}

/// Whether what follows the kind of an entry is fit for its name: nothing, or a path. A
/// space or a CR in place of its first slash, or a CR later, ends the name.
pub open spec fn is_tail(tail: Seq<u8>) -> bool {
    ||| tail.len() == 0
    ||| tail[0] == 0x20
    ||| tail[0] == 0x0d
    ||| tail[0] == 0x2f && is_fit_up_to_cr(tail, 1)
}

/// Whether what follows `/vendor` is fit for the name of an entry: it begins with a
/// slash and the name of the vendor.
pub open spec fn is_vendor_tail(tail: Seq<u8>) -> bool {
    &&& tail.len() >= 2
    &&& tail[0] == 0x2f
    &&& is_fit_for_a_path(tail[1])
    &&& tail[1] != 0x2f
    &&& is_tail(tail)
}

proof fn lemma_fit_up_to_cr(name: Seq<u8>, at: int)
    requires
        0 <= at <= name.len(),
    ensures
        is_path_rest(name, at) <==> is_fit_up_to_cr(name, at),
    decreases name.len() - at,
{
    if at < name.len() {
        lemma_fit_up_to_cr(name, at + 1);
        if name[at] == 0x0d {
            assert forall|i: int| at <= i < name.len() implies is_fit_for_a_path(#[trigger] name[i])
                || has_cr(name, at, i) by {
                assert(name[at] == 0x0d);
            }
        } else {
            assert forall|i: int| at + 1 <= i < name.len() implies #[trigger] has_cr(name, at, i)
                == has_cr(name, at + 1, i) by {
                if has_cr(name, at, i) {
                    let cr = choose|j: int| at <= j <= i && #[trigger] name[j] == 0x0d;
                    assert(at + 1 <= cr);
                }
            }
            if is_fit_up_to_cr(name, at) {
                assert(is_fit_for_a_path(name[at]) || has_cr(name, at, at));
                assert forall|i: int| at + 1 <= i < name.len() implies is_fit_for_a_path(
                    #[trigger] name[i],
                ) || has_cr(name, at + 1, i) by {
                    assert(has_cr(name, at, i) == has_cr(name, at + 1, i));
                }
            }
            if is_path_rest(name, at) {
                assert forall|i: int| at <= i < name.len() implies is_fit_for_a_path(
                    #[trigger] name[i],
                ) || has_cr(name, at, i) by {
                    if i > at {
                        assert(has_cr(name, at, i) == has_cr(name, at + 1, i));
                    }
                }
            }
        }
    }
}

proof fn lemma_path_rest_behind(name: Seq<u8>, from: int, at: int)
    requires
        0 <= from <= at <= name.len(),
    ensures
        is_path_rest(name, at) <==> is_path_rest(name.skip(from), at - from),
    decreases name.len() - at,
{
    if at < name.len() {
        lemma_path_rest_behind(name, from, at + 1);
    }
}

proof fn lemma_path(name: Seq<u8>, at: int)
    requires
        0 <= at <= name.len(),
    ensures
        is_path(name, at) <==> is_tail(name.skip(at)),
{
    if at < name.len() {
        lemma_path_rest_behind(name, at, at + 1);
        lemma_fit_up_to_cr(name.skip(at), 1);
    }
}

proof fn lemma_has_bytes(name: Seq<u8>, at: int, bytes: Seq<u8>)
    requires
        0 <= at,
    ensures
        has_bytes(name, at, bytes) <==> at + bytes.len() <= name.len() && name.subrange(
            at,
            at + bytes.len(),
        ) == bytes,
{
    if at + bytes.len() <= name.len() {
        let part = name.subrange(at, at + bytes.len());
        if has_bytes(name, at, bytes) {
            assert(part =~= bytes) by {
                assert forall|i: int| 0 <= i < bytes.len() implies part[i] == bytes[i] by {
                    assert(name[at + i] == bytes[i]);
                }
            }
        }
        if part == bytes {
            assert forall|i: int| 0 <= i < bytes.len() implies name[at + i] == #[trigger] bytes[i] by {
                assert(part[i] == name[at + i]);
            }
        }
    }
}

proof fn lemma_comment_or_vendor(name: Seq<u8>, root: Seq<u8>, tail: Seq<u8>)
    ensures
        name == root + comment() + tail ==> (is_comment_or_vendor(name, root.len() as int)
            <==> is_tail(tail)),
        name == root + vendor() + tail ==> (is_comment_or_vendor(name, root.len() as int)
            <==> is_vendor_tail(tail)),
{
    let at = root.len() as int;
    lemma_words();
    lemma_has_bytes(name, at, COMMENT@);
    lemma_has_bytes(name, at, VENDOR@);
    if name == root + comment() + tail {
        assert(name.subrange(at, at + 8) =~= comment());
        assert(name.skip(at + 8) =~= tail);
        lemma_path(name, at + 8);
    }
    if name == root + vendor() + tail {
        assert(name.subrange(at, at + 7) =~= vendor());
        assert(name[at + 1] == 0x76);
        if at + 8 <= name.len() {
            assert(name.subrange(at, at + 8)[1] == 0x76);
            assert(comment()[1] == 0x63);
        }
        assert(name.skip(at + 7) =~= tail);
        lemma_path(name, at + 7);
    }
}

/// The names that pass for those of entries, of each root and kind: `/comment` and,
/// under `/shared`, `/admin` with any path or none, `/vendor` with a vendor at least.
pub proof fn law_names_of_entries(tail: Seq<u8>)
    ensures
        is_entry_name(private() + comment() + tail) <==> is_tail(tail),
        is_entry_name(shared() + comment() + tail) <==> is_tail(tail),
        is_entry_name(shared() + admin() + tail) <==> is_tail(tail),
        is_entry_name(private() + vendor() + tail) <==> is_vendor_tail(tail),
        is_entry_name(shared() + vendor() + tail) <==> is_vendor_tail(tail),
{
    lemma_words();
    let names = seq![
        private() + comment() + tail,
        private() + vendor() + tail,
        shared() + comment() + tail,
        shared() + vendor() + tail,
        shared() + admin() + tail,
    ];
    assert forall|i: int| 0 <= i < 5 implies {
        &&& has_bytes(#[trigger] names[i], 0, PRIVATE@) <==> i < 2
        &&& i >= 2 ==> has_bytes(names[i], 0, SHARED@)
        &&& i >= 2 ==> (has_bytes(names[i], 7, ADMIN@) <==> i == 4)
    } by {
        let name = names[i];
        lemma_has_bytes(name, 0, PRIVATE@);
        lemma_has_bytes(name, 0, SHARED@);
        lemma_has_bytes(name, 7, ADMIN@);
        if i < 2 {
            assert(name.subrange(0, 8) =~= private());
        } else {
            assert(name.subrange(0, 7) =~= shared());
            assert(name[1] == 0x73);
            if name.len() >= 8 {
                assert(name.subrange(0, 8)[1] == 0x73);
                assert(private()[1] == 0x70);
            }
            if i == 4 {
                assert(name.subrange(7, 13) =~= admin());
            } else {
                assert(name[8] != 0x61);
                assert(name.subrange(7, 13)[1] == name[8]);
                assert(admin()[1] == 0x61);
            }
        }
    }
    lemma_comment_or_vendor(names[0], private(), tail);
    lemma_comment_or_vendor(names[1], private(), tail);
    lemma_comment_or_vendor(names[2], shared(), tail);
    lemma_comment_or_vendor(names[3], shared(), tail);
    assert(names[4].skip(13) =~= tail);
    lemma_path(names[4], 13);
}

/// Whether `name` is `root`, then `kind`, then anything.
pub open spec fn begins_with(name: Seq<u8>, root: Seq<u8>, kind: Seq<u8>) -> bool {
    name.len() >= root.len() + kind.len() && name == root + kind + name.skip(
        (root.len() + kind.len()) as int,
    )
}

/// No other name passes for that of an entry.
pub proof fn law_other_names_are_no_entries(name: Seq<u8>)
    requires
        is_entry_name(name),
    ensures
        begins_with(name, private(), comment()) || begins_with(name, private(), vendor())
            || begins_with(name, shared(), comment()) || begins_with(name, shared(), vendor())
            || begins_with(name, shared(), admin()),
{
    lemma_words();
    lemma_has_bytes(name, 0, PRIVATE@);
    lemma_has_bytes(name, 0, SHARED@);
    lemma_has_bytes(name, 7, ADMIN@);
    lemma_has_bytes(name, 7, COMMENT@);
    lemma_has_bytes(name, 7, VENDOR@);
    lemma_has_bytes(name, 8, COMMENT@);
    lemma_has_bytes(name, 8, VENDOR@);
    if has_bytes(name, 0, PRIVATE@) {
        if has_bytes(name, 8, COMMENT@) {
            lemma_three_parts(name, private(), comment());
        } else {
            lemma_three_parts(name, private(), vendor());
        }
    } else if has_bytes(name, 7, ADMIN@) {
        lemma_three_parts(name, shared(), admin());
    } else if has_bytes(name, 7, COMMENT@) {
        lemma_three_parts(name, shared(), comment());
    } else {
        lemma_three_parts(name, shared(), vendor());
    }
}

proof fn lemma_three_parts(name: Seq<u8>, root: Seq<u8>, kind: Seq<u8>)
    requires
        root.len() + kind.len() <= name.len(),
        name.subrange(0, root.len() as int) == root,
        name.subrange(root.len() as int, root.len() + kind.len() as int) == kind,
    ensures
        begins_with(name, root, kind),
{
    let split = root.len() as int;
    let end = split + kind.len();
    assert(name =~= name.subrange(0, split) + name.subrange(split, end) + name.skip(end));
}

} // verus!
