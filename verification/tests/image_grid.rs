//! Tests of the image grid.

use graphing::{Image, PixelIndex, PixelState};

#[test]
fn image() {
    let mut im = Image::new(34, 45);
    let p = PixelIndex::new(12, 23);

    assert_eq!(im.width(), 34);
    assert_eq!(im.height(), 45);

    assert_eq!(im.state(p), PixelState::Uncertain);
    *im.state_mut(p) = PixelState::True;
    assert_eq!(im.state(p), PixelState::True);
    assert_eq!(
        im.state_iter()
            .into_iter()
            .nth((p.y * im.width() + p.x) as usize),
        Some(PixelState::True)
    );

    assert_eq!(im.last_queued_block(p), 0);
    *im.last_queued_block_mut(p) = 123456;
    assert_eq!(im.last_queued_block(p), 123456);
}
