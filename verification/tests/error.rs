use survival_tiles::{Error, Vector2};

#[test]
fn cbor_error_is_wrapped() {
    let inner = serde_cbor::from_slice::<u8>(&[]).unwrap_err();
    let text = format!("{:?}", inner);
    match Error::from(inner) {
        Error::SerdeCBOR { inner } => assert_eq!(format!("{:?}", inner), text),
        _ => panic!("expected SerdeCBOR"),
    }
}

#[test]
fn io_error_is_wrapped() {
    let inner = std::io::Error::new(std::io::ErrorKind::UnexpectedEof, "short");
    match Error::from(inner) {
        Error::IO { inner } => assert_eq!(inner.kind(), std::io::ErrorKind::UnexpectedEof),
        _ => panic!("expected IO"),
    }
}

#[test]
fn tiled_error_is_wrapped() {
    let inner = tiled::TiledError::Other("broken".to_string());
    match Error::from(inner) {
        Error::Tiled { inner: tiled::TiledError::Other(text) } => assert_eq!(text, "broken"),
        _ => panic!("expected Tiled"),
    }
}

#[test]
fn out_of_bounds_carries_its_coordinates() {
    let error = Error::OutOfBounds {
        dimensions: Vector2::new(4, 4),
        coordinate: Vector2::new(4, 1),
    };
    let text = format!("{:?}", error);
    assert!(text.contains("OutOfBounds"));
    match error {
        Error::OutOfBounds { dimensions, coordinate } => {
            assert_eq!((dimensions.x, dimensions.y), (4, 4));
            assert_eq!((coordinate.x, coordinate.y), (4, 1));
        }
        _ => panic!("expected OutOfBounds"),
    }
}
