use plexus::{ByIndex, ByKey, GraphError, Selector, VertexKey};

#[test]
fn selector_gives_its_key_or_asks_for_it() {
    let by_key: Selector<VertexKey> = ByKey(VertexKey(3));
    let by_index: Selector<VertexKey> = ByIndex(5);
    assert_eq!(
        Ok(VertexKey(3)),
        by_key.key_or_else(|_| Err(GraphError::TopologyNotFound))
    );
    assert_eq!(
        Ok(VertexKey(50)),
        by_index.key_or_else(|index| Ok(VertexKey(index as u64 * 10)))
    );
    assert_eq!(
        Err(GraphError::TopologyNotFound),
        by_index.key_or_else(|_| Err(GraphError::TopologyNotFound))
    );
}

#[test]
fn selector_gives_its_index_or_asks_for_it() {
    let by_key: Selector<VertexKey> = ByKey(VertexKey(3));
    let by_index: Selector<VertexKey> = ByIndex(5);
    assert_eq!(Ok(5), by_index.index_or_else(|_| Ok(0)));
    assert_eq!(Ok(6), by_key.index_or_else(|key| Ok(key.0 as usize * 2)));
    assert_eq!(
        Err(GraphError::TopologyMalformed),
        by_key.index_or_else(|_| Err(GraphError::TopologyMalformed))
    );
}

#[test]
fn errors_have_messages() {
    assert_eq!(
        "required topology not found",
        GraphError::TopologyNotFound.message()
    );
    assert_eq!(
        "conflicting topology found",
        GraphError::TopologyConflict.message()
    );
    assert_eq!("topology malformed", GraphError::TopologyMalformed.message());
    assert_eq!(
        "arity is non-polygonal",
        GraphError::ArityNonPolygonal.message()
    );
    assert_eq!(
        "conflicting arity; expected 3, but got 4",
        GraphError::ArityConflict { expected: 3, actual: 4 }.message()
    );
    assert_eq!("arity is non-uniform", GraphError::ArityNonUniform.message());
    assert_eq!("geometric operation failed", GraphError::Geometry.message());
}

#[test]
fn selectors_come_from_keys_and_indices() {
    let by_key: Selector<VertexKey> = VertexKey(3).into();
    let by_index: Selector<VertexKey> = 7usize.into();
    assert_eq!(ByKey(VertexKey(3)), by_key);
    assert_eq!(ByIndex(7), by_index);
}

#[test]
fn arities_are_written_in_decimal_digits() {
    for (expected, actual) in [(0, 9), (10, 99), (100, 1_234_567_890), (usize::MAX, 7)] {
        let message = GraphError::ArityConflict { expected, actual }.message();
        assert_eq!(
            format!("conflicting arity; expected {}, but got {}", expected, actual),
            message
        );
    }
}
