use mandelbrot::size2d::{Size2D, SizeError};

#[test]
fn parses_width_and_height() {
    assert_eq!(Size2D::from_str("640x480"), Ok(Size2D(640, 480)));
    assert_eq!(Size2D::from_str("1x1"), Ok(Size2D(1, 1)));
    assert_eq!(Size2D::from_str("+5x06"), Ok(Size2D(5, 6)));
    assert_eq!(Size2D::from_str("18446744073709551615x0"), Ok(Size2D(usize::MAX, 0)));
}

#[test]
fn missing_height() {
    assert_eq!(Size2D::from_str("640"), Err(SizeError::NoHeight));
    assert_eq!(Size2D::from_str(""), Err(SizeError::NoHeight));
}

#[test]
fn invalid_numbers() {
    assert_eq!(Size2D::from_str("ax480"), Err(SizeError::InvalidNumber));
    assert_eq!(Size2D::from_str("640x"), Err(SizeError::InvalidNumber));
    assert_eq!(Size2D::from_str("x480"), Err(SizeError::InvalidNumber));
    assert_eq!(Size2D::from_str("-1x2"), Err(SizeError::InvalidNumber));
    assert_eq!(Size2D::from_str("+x2"), Err(SizeError::InvalidNumber));
    assert_eq!(Size2D::from_str(" 1x2"), Err(SizeError::InvalidNumber));
    assert_eq!(Size2D::from_str("18446744073709551616x1"), Err(SizeError::InvalidNumber));
    assert_eq!(Size2D::from_str("1x2x"), Err(SizeError::TooManyDimensions));
    assert_eq!(Size2D::from_str("ax2x3"), Err(SizeError::InvalidNumber));
}

#[test]
fn too_many_dimensions() {
    assert_eq!(Size2D::from_str("640x480x3"), Err(SizeError::TooManyDimensions));
    assert_eq!(Size2D::from_str("1x2x3x4"), Err(SizeError::TooManyDimensions));
}
