use glyphflow::animation::Animation;
use glyphflow::sprite::{FillMode, Point, Rect, Size, Sprite};

fn make_sprite() -> Sprite {
    let mut sprite = Sprite::from_size(Size::new(32 * 2, 32 * 2));
    sprite.size = Size::new(32, 32);
    sprite.texture_rect = Rect::new(Point::zero(), sprite.size);
    sprite
}

#[test]
fn test_looping_animation_offset() {
    let stride = 32;
    let sprite = make_sprite();
    let mut animation = Animation::from_sprite(sprite, 2, 2, stride, stride);
    animation.repeat = true;

    // Second frame
    animation.next();
    let actual = animation.sprite.texture_rect.origin;
    let expected = Point::new(stride, 0);
    assert_eq!(expected, actual);

    // Third frame
    animation.next();
    let actual = animation.sprite.texture_rect.origin;
    let expected = Point::new(0, stride);
    assert_eq!(expected, actual);

    // Fourth frame
    animation.next();
    let actual = animation.sprite.texture_rect.origin;
    let expected = Point::new(stride, stride);
    assert_eq!(expected, actual);

    // First frame: the offset stays the same
    animation.next();
    let actual = animation.sprite.texture_rect.origin;
    let expected = Point::zero();
    assert_eq!(expected, actual);
}

#[test]
fn animation_test_looping_animation_offset() {
    let stride = 32;
    let sprite = make_sprite();
    let mut animation = Animation::from_sprite(sprite, 2, 2, stride, stride);
    animation.repeat = true;

    animation.next();
    assert_eq!(Point::new(stride, 0), animation.sprite.texture_rect.origin);
    animation.next();
    assert_eq!(Point::new(0, stride), animation.sprite.texture_rect.origin);
    animation.next();
    assert_eq!(Point::new(stride, stride), animation.sprite.texture_rect.origin);
    animation.next();
    assert_eq!(Point::zero(), animation.sprite.texture_rect.origin);
}

#[test]
fn animation_that_does_not_repeat_stays_at_the_last_frame() {
    let sprite = Sprite::from_size(Size::new(96, 32));
    let mut animation = Animation::from_sprite(sprite, 1, 3, 32, 32);
    assert_eq!(animation.current_frame(), 0);
    assert_eq!(animation.sprite.texture_rect.origin, Point::zero());
    animation.next();
    assert_eq!(animation.sprite.texture_rect.origin, Point::new(32, 0));
    assert_eq!(animation.current_frame(), 1);
    animation.next();
    assert_eq!(animation.sprite.texture_rect.origin, Point::new(64, 0));
    assert_eq!(animation.current_frame(), 2);
    animation.next();
    assert_eq!(animation.sprite.texture_rect.origin, Point::new(64, 0));
    assert_eq!(animation.current_frame(), 2);
}

#[test]
fn a_sprite_shows_its_whole_texture() {
    let sprite = Sprite::from_size(Size::new(64, 48));
    assert_eq!(sprite.size, Size::new(64, 48));
    assert_eq!(sprite.texture_rect, Rect::new(Point::zero(), Size::new(64, 48)));
    assert_eq!(sprite.z_index, 50);
    assert_eq!(sprite.fill, FillMode::Stretch);
}
