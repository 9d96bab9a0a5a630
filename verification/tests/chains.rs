use pydantic_sifr_core::chains::{build_chain, ChainPart, ChainShape};

#[test]
fn nested_chains_are_spliced_in() {
    match build_chain(vec![ChainPart::Single(1), ChainPart::Nested(vec![2, 3]), ChainPart::Single(4)]) {
        Ok(ChainShape::Many(steps)) => assert_eq!(steps, vec![1, 2, 3, 4]),
        _ => panic!("expected a chain of four steps"),
    }
}

#[test]
fn a_one_step_chain_is_its_step() {
    assert!(matches!(build_chain(vec![ChainPart::Nested(vec!["only"])]), Ok(ChainShape::One("only"))));
    assert!(matches!(build_chain(vec![ChainPart::Nested(Vec::new()), ChainPart::Single(5)]), Ok(ChainShape::One(5))));
}

#[test]
fn an_empty_chain_is_refused() {
    let error = match build_chain::<u8>(Vec::new()) {
        Err(error) => error,
        Ok(_) => panic!("an empty chain must be refused"),
    };
    assert_eq!(error.details()[0].code, "schema_invalid");
    assert_eq!(error.details()[0].message, "A typed chain must contain at least one step");
    assert_eq!(error.details()[0].expected, "nonempty typed chain");
    assert!(build_chain::<u8>(vec![ChainPart::Nested(Vec::new())]).is_err());
}
