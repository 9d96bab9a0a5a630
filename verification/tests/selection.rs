use pydantic_sifr_core::selection::{
    is_prefix, same_segment, selected, SelectionPath, SelectionSegment, SerializationOptions,
};

fn field(name: &str) -> SelectionSegment {
    SelectionSegment::Field(name.to_string())
}

#[test]
fn without_lists_every_path_is_selected() {
    let options = SerializationOptions::default();
    assert!(selected(&options, &[]));
    assert!(selected(&options, &[field("a"), SelectionSegment::Index(3)]));
    assert!(!options.by_alias && !options.exclude_none && !options.exclude_defaults);
}

#[test]
fn inclusion_selects_ancestors_and_descendants() {
    let mut options = SerializationOptions::default();
    options.included = vec![SelectionPath::new(vec![field("a"), field("b")])];
    assert!(selected(&options, &[]));
    assert!(selected(&options, &[field("a")]));
    assert!(selected(&options, &[field("a"), field("b"), SelectionSegment::Index(0)]));
    assert!(!selected(&options, &[field("b")]));
    assert!(!selected(&options, &[field("a"), field("c")]));
}

#[test]
fn exclusion_wins_and_hides_subtrees() {
    let mut options = SerializationOptions::default();
    options.included = vec![SelectionPath::field("a")];
    options.exclude = vec![SelectionPath::new(vec![field("a"), SelectionSegment::Index(1)])];
    assert!(selected(&options, &[field("a")]));
    assert!(selected(&options, &[field("a"), SelectionSegment::Index(0)]));
    assert!(!selected(&options, &[field("a"), SelectionSegment::Index(1)]));
    assert!(!selected(&options, &[field("a"), SelectionSegment::Index(1), field("z")]));
}

#[test]
fn an_unselected_path_hides_its_extensions() {
    let mut options = SerializationOptions::default();
    options.included = vec![SelectionPath::field("keep")];
    let path = vec![field("drop")];
    assert!(!selected(&options, &path));
    let mut longer = path.clone();
    longer.push(SelectionSegment::Index(2));
    longer.push(field("keep"));
    assert!(!selected(&options, &longer));
}

#[test]
fn prefixes_compare_segments_exactly() {
    assert!(is_prefix(&[], &[field("a")]));
    assert!(is_prefix(&[field("a")], &[field("a"), field("b")]));
    assert!(!is_prefix(&[field("a"), field("b")], &[field("a")]));
    assert!(!is_prefix(&[SelectionSegment::Index(0)], &[field("0")]));
    assert!(same_segment(&SelectionSegment::Index(4), &SelectionSegment::Index(4)));
    assert!(!same_segment(&field("x"), &field("y")));
}

#[test]
fn selection_paths_keep_their_segments() {
    let path = SelectionPath::field("name");
    assert_eq!(path.segments(), &[field("name")]);
    let path = SelectionPath::new(vec![SelectionSegment::Index(1), field("x")]);
    assert_eq!(path.segments().len(), 2);
}
