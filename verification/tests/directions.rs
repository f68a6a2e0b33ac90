use engine::directions::{Axis, Dir};

#[test]
fn dir_all_in_index_order() {
    let dirs = Dir::all();
    for (i, d) in dirs.iter().enumerate() {
        assert_eq!(d.index(), i);
        assert_eq!(usize::from(*d), i);
        assert_eq!(Dir::from_index(i), *d);
    }
    assert_eq!(dirs[0], Dir::Left);
    assert_eq!(dirs[5], Dir::Backward);
}

#[test]
fn axis_all_in_index_order() {
    let axes = Axis::all();
    assert_eq!(axes, [Axis::X, Axis::Y, Axis::Z]);
    for (i, a) in axes.iter().enumerate() {
        assert_eq!(a.index(), i);
        assert_eq!(usize::from(*a), i);
    }
}

#[test]
fn axis_of_each_direction() {
    assert_eq!(Axis::from(Dir::Left), Axis::X);
    assert_eq!(Axis::from(Dir::Right), Axis::X);
    assert_eq!(Axis::from(Dir::Up), Axis::Y);
    assert_eq!(Axis::from(Dir::Down), Axis::Y);
    assert_eq!(Axis::from_dir(Dir::Forward), Axis::Z);
    assert_eq!(Axis::from_dir(Dir::Backward), Axis::Z);
}
