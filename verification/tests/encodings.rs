use expr_codec::{bf_traverse, parse_queue, parse_stack, stack_to_queue, traverse};
use expr_codec::{Expr, ParseError};

fn leaf(c: u8) -> Box<Expr> {
    Box::new(Expr::Leaf(c))
}

fn node(c: u8, l: Box<Expr>, r: Box<Expr>) -> Box<Expr> {
    Box::new(Expr::Node(c, l, r))
}

#[test]
fn test_1() {
    let ss = b"xyPzwIM";
    let sq = b"wzyxIPM";
    assert_eq!(stack_to_queue(ss), Ok(sq.to_vec()));
}

#[test]
fn test_2() {
    let ss = b"xyPzwIM";
    let sq = b"wzyxIPM";
    assert!(parse_stack(ss).is_ok());
    assert_eq!(parse_stack(ss), parse_queue(sq));
}

#[test]
fn test_3() {
    let ss = b"abcABdefgCDEF";
    let sq = b"gfCecbDdAaEBF";
    assert_eq!(stack_to_queue(ss), Ok(sq.to_vec()));
}

#[test]
fn test_4() {
    let ss = b"abcABdefgCDEF";
    let sq = b"gfCecbDdAaEBF";
    assert!(parse_stack(ss).is_ok());
    assert_eq!(parse_stack(ss), parse_queue(sq));
}

#[test]
fn queue_encoding_reparsed_gives_stack_encoding() {
    let tree = parse_queue(b"gfCecbDdAaEBF").unwrap();
    assert_eq!(traverse(tree), b"abcABdefgCDEF".to_vec());
    let tree = parse_queue(b"wzyxIPM").unwrap();
    assert_eq!(traverse(tree), b"xyPzwIM".to_vec());
}

#[test]
fn stack_builder_shape() {
    // The tree popped first becomes the right child.
    assert_eq!(parse_stack(b"abA"), Ok(node(b'A', leaf(b'a'), leaf(b'b'))));
    assert_eq!(
        parse_stack(b"xyPzwIM"),
        Ok(node(
            b'M',
            node(b'P', leaf(b'x'), leaf(b'y')),
            node(b'I', leaf(b'z'), leaf(b'w')),
        ))
    );
    assert_eq!(parse_stack(b"q"), Ok(leaf(b'q')));
}

#[test]
fn queue_builder_shape() {
    // The tree removed first becomes the right child.
    assert_eq!(parse_queue(b"abA"), Ok(node(b'A', leaf(b'b'), leaf(b'a'))));
    // The same symbols give another tree than under the stack builder.
    assert_eq!(
        parse_queue(b"abcAB"),
        Ok(node(b'B', node(b'A', leaf(b'b'), leaf(b'a')), leaf(b'c')))
    );
    assert_eq!(
        parse_stack(b"abcAB"),
        Ok(node(b'B', leaf(b'a'), node(b'A', leaf(b'b'), leaf(b'c'))))
    );
    assert_eq!(parse_queue(b"q"), Ok(leaf(b'q')));
}

#[test]
fn serializers_on_a_given_tree() {
    let tree = node(
        b'M',
        node(b'P', leaf(b'x'), leaf(b'y')),
        node(b'I', leaf(b'z'), leaf(b'w')),
    );
    assert_eq!(traverse(tree.clone()), b"xyPzwIM".to_vec());
    assert_eq!(bf_traverse(tree), b"wzyxIPM".to_vec());
    assert_eq!(traverse(leaf(b'k')), b"k".to_vec());
    assert_eq!(bf_traverse(leaf(b'k')), b"k".to_vec());
}

#[test]
fn breadth_first_goes_level_by_level() {
    // Levels from the root: F | E d | D c | C b | a e, read from the end.
    let tree = node(
        b'F',
        node(
            b'E',
            node(b'D', node(b'C', leaf(b'a'), leaf(b'e')), leaf(b'b')),
            leaf(b'c'),
        ),
        leaf(b'd'),
    );
    assert_eq!(bf_traverse(tree.clone()), b"eabCcDdEF".to_vec());
    assert_eq!(traverse(tree), b"aeCbDcEdF".to_vec());
}

#[test]
fn malformed_input_is_rejected() {
    assert_eq!(stack_to_queue(b"ab1A"), Err(ParseError::MalformedInput));
    assert_eq!(stack_to_queue(b"a+b"), Err(ParseError::MalformedInput));
    assert_eq!(stack_to_queue(b"7"), Err(ParseError::MalformedInput));
    assert_eq!(stack_to_queue(b" "), Err(ParseError::MalformedInput));
    assert_eq!(parse_stack(b"ab!"), Err(ParseError::MalformedInput));
    assert_eq!(parse_queue(b"ab!"), Err(ParseError::MalformedInput));
    assert_eq!(parse_queue(b"0"), Err(ParseError::MalformedInput));
}

#[test]
fn bytes_next_to_the_letters_are_rejected() {
    for c in [0x40u8, 0x5b, 0x60, 0x7b, 0x00, 0xff] {
        assert_eq!(parse_stack(&[c]), Err(ParseError::MalformedInput));
        assert_eq!(parse_queue(&[c]), Err(ParseError::MalformedInput));
        assert_eq!(stack_to_queue(&[c]), Err(ParseError::MalformedInput));
    }
    for c in [b'a', b'z'] {
        assert_eq!(parse_stack(&[c]), Ok(leaf(c)));
        assert_eq!(parse_queue(&[c]), Ok(leaf(c)));
    }
    for c in [b'A', b'Z'] {
        assert_eq!(parse_stack(&[b'a', b'b', c]), Ok(node(c, leaf(b'a'), leaf(b'b'))));
        assert_eq!(parse_queue(&[b'a', b'b', c]), Ok(node(c, leaf(b'b'), leaf(b'a'))));
    }
}

#[test]
fn operator_without_operands_underflows() {
    assert_eq!(stack_to_queue(b"A"), Err(ParseError::Underflow));
    assert_eq!(parse_stack(b"A"), Err(ParseError::Underflow));
    assert_eq!(parse_queue(b"A"), Err(ParseError::Underflow));
    assert_eq!(stack_to_queue(b"aA"), Err(ParseError::Underflow));
    assert_eq!(parse_queue(b"aA"), Err(ParseError::Underflow));
    assert_eq!(stack_to_queue(b"abAB"), Err(ParseError::Underflow));
    assert_eq!(parse_queue(b"abAB"), Err(ParseError::Underflow));
}

#[test]
fn leftover_operands_are_ambiguous() {
    assert_eq!(stack_to_queue(b"ab"), Err(ParseError::EmptyOrAmbiguous));
    assert_eq!(parse_stack(b"ab"), Err(ParseError::EmptyOrAmbiguous));
    assert_eq!(parse_queue(b"ab"), Err(ParseError::EmptyOrAmbiguous));
    assert_eq!(stack_to_queue(b"abAc"), Err(ParseError::EmptyOrAmbiguous));
    assert_eq!(parse_queue(b"abAc"), Err(ParseError::EmptyOrAmbiguous));
}

#[test]
fn empty_input_is_rejected() {
    assert_eq!(stack_to_queue(b""), Err(ParseError::EmptyOrAmbiguous));
    assert_eq!(parse_stack(b""), Err(ParseError::EmptyOrAmbiguous));
    assert_eq!(parse_queue(b""), Err(ParseError::EmptyOrAmbiguous));
}

#[test]
fn first_violation_is_reported() {
    assert_eq!(stack_to_queue(b"A1"), Err(ParseError::Underflow));
    assert_eq!(stack_to_queue(b"1A"), Err(ParseError::MalformedInput));
    assert_eq!(stack_to_queue(b"ab?"), Err(ParseError::MalformedInput));
    assert_eq!(stack_to_queue(b"abc?"), Err(ParseError::MalformedInput));
    assert_eq!(parse_queue(b"A1"), Err(ParseError::Underflow));
    assert_eq!(parse_queue(b"1A"), Err(ParseError::MalformedInput));
    assert_eq!(parse_queue(b"abc?"), Err(ParseError::MalformedInput));
}

#[test]
fn clone_copies_the_tree() {
    let tree = parse_stack(b"abcABdefgCDEF").unwrap();
    let copy = tree.clone();
    assert_eq!(copy, tree);
    assert_eq!(traverse(copy), b"abcABdefgCDEF".to_vec());
}
