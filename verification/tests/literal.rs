use imap_stream::{oversized_literal_boundary, NonZeroSize, OversizedLiteralBoundary};

fn boundary(input: &[u8], needed: usize, limit: usize) -> Option<(usize, usize)> {
    let limit = NonZeroSize::new(limit).unwrap();
    oversized_literal_boundary(input, needed, limit).map(
        |OversizedLiteralBoundary {
             literal_start,
             declared_size,
         }| (literal_start, declared_size),
    )
}

#[test]
fn declaration_must_agree_with_the_missing_bytes() {
    assert_eq!(boundary(b"a {10}\r\nbcd", 7, 9), Some((8, 10)));
    assert_eq!(boundary(b"a {10}\r\nbcd", 6, 9), None);
    assert_eq!(boundary(b"a {10}\r\nbcd", 8, 9), None);
    assert_eq!(boundary(b"a {2}\r\nbcd", 0, 1), None);
}

#[test]
fn literal_must_be_larger_than_the_limit() {
    assert_eq!(boundary(b"{10}\r\n", 10, 10), None);
    assert_eq!(boundary(b"{10}\r\n", 10, 9), Some((6, 10)));
    assert_eq!(boundary(b"{0010}\r\n", 10, 9), Some((8, 10)));
}

#[test]
fn declaration_must_be_well_formed() {
    let malformed: [&[u8]; 9] = [
        b"",
        b"{",
        b"{10",
        b"{10}",
        b"{10}\r",
        b"{10}\n",
        b"{}\r\n",
        b"{+10}\r\n",
        b"{1 0}\r\n",
    ];
    for input in malformed {
        assert_eq!(boundary(input, 10, 1), None);
    }
}

#[test]
fn size_must_be_countable() {
    let max = usize::MAX;
    let input = format!("{{{max}}}\r\n");
    assert_eq!(
        boundary(input.as_bytes(), max, 1),
        Some((input.len(), max))
    );
    let input = format!("{{{max}0}}\r\n");
    assert_eq!(boundary(input.as_bytes(), max, 1), None);
    assert_eq!(boundary(b"{99999999999999999999999999}\r\n", 1, 1), None);
}

#[test]
fn first_declaration_that_agrees_is_taken() {
    // The second declaration agrees as well: 9 - 1 and 3 - 0 differ from each other,
    // 9 - 6 and 3 - 0 do not.
    assert_eq!(boundary(b"{9}\r\nx{3}\r\n", 3, 2), Some((5, 9)));
    assert_eq!(boundary(b"{8}\r\nx{3}\r\n", 3, 2), Some((11, 3)));
    assert_eq!(boundary(b"{ {{4}\r\n", 4, 2), Some((8, 4)));
}
