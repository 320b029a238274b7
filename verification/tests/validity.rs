use expr_codec::{parse_queue, parse_stack, stack_to_queue, ParseError};

/// The outcome by counting alone: operands add a pending subtree, operators
/// take two and give one.
fn by_count(s: &[u8]) -> Result<(), ParseError> {
    let mut pending = 0usize;
    for &c in s {
        if c.is_ascii_lowercase() {
            pending += 1;
        } else if c.is_ascii_uppercase() {
            if pending < 2 {
                return Err(ParseError::Underflow);
            }
            pending -= 1;
        } else {
            return Err(ParseError::MalformedInput);
        }
    }
    if pending == 1 {
        Ok(())
    } else {
        Err(ParseError::EmptyOrAmbiguous)
    }
}

/// Every sequence over `alphabet` of the given length.
fn sequences(alphabet: &[u8], len: usize) -> Vec<Vec<u8>> {
    let mut out = vec![Vec::new()];
    for _ in 0..len {
        let mut next = Vec::new();
        for s in &out {
            for &c in alphabet {
                let mut t = s.clone();
                t.push(c);
                next.push(t);
            }
        }
        out = next;
    }
    out
}

#[test]
fn outcome_is_decided_by_counting() {
    let alphabet = [b'a', b'z', b'A', b'Z', b'1'];
    let mut accepted = 0;
    for len in 0..=7 {
        for s in sequences(&alphabet, len) {
            let expected = by_count(&s);
            assert_eq!(parse_stack(&s).map(|_| ()), expected);
            assert_eq!(parse_queue(&s).map(|_| ()), expected);
            assert_eq!(stack_to_queue(&s).map(|_| ()), expected);
            if expected.is_ok() {
                accepted += 1;
            }
        }
    }
    // Lengths 1, 3, 5, 7 with 1, 1, 2, 5 shapes and two symbols per place.
    assert_eq!(accepted, 2 + 8 + 2 * 32 + 5 * 128);
}

#[test]
fn accepted_lengths_are_odd() {
    for len in [0usize, 2, 4, 6] {
        for s in sequences(&[b'a', b'A'], len) {
            assert!(stack_to_queue(&s).is_err());
        }
    }
}

#[test]
fn each_error_has_an_input() {
    assert_eq!(by_count(b"a#"), Err(ParseError::MalformedInput));
    assert_eq!(stack_to_queue(b"a#"), Err(ParseError::MalformedInput));
    assert_eq!(by_count(b"aB"), Err(ParseError::Underflow));
    assert_eq!(stack_to_queue(b"aB"), Err(ParseError::Underflow));
    assert_eq!(by_count(b"abc"), Err(ParseError::EmptyOrAmbiguous));
    assert_eq!(stack_to_queue(b"abc"), Err(ParseError::EmptyOrAmbiguous));
}
