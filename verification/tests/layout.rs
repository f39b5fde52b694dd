use editor_core::layout::{share, Orientation, Rect};

#[test]
fn shares_divide_an_axis_exactly() {
    assert_eq!(share(10, 3, 0), (0, 3));
    assert_eq!(share(10, 3, 1), (3, 3));
    assert_eq!(share(10, 3, 2), (6, 4));
}

#[test]
fn shares_add_up_to_the_whole() {
    for total in 0..40 {
        for n in 1..7 {
            let mut sum = 0;
            for k in 0..n {
                let (start, length) = share(total, n, k);
                assert_eq!(start, sum);
                if k < n - 1 {
                    assert_eq!(length, total / n);
                } else {
                    assert_eq!(length, total / n + total % n);
                }
                sum += length;
            }
            assert_eq!(sum, total);
        }
    }
}

#[test]
fn a_single_child_gets_everything() {
    assert_eq!(share(7, 1, 0), (0, 7));
    assert_eq!(share(0, 1, 0), (0, 0));
}

#[test]
fn children_side_by_side_share_the_width() {
    let screen = Rect { x: 2, y: 1, width: 81, height: 24 };
    assert_eq!(
        screen.child_rect(Orientation::Horizontal, 2, 0),
        Rect { x: 2, y: 1, width: 40, height: 24 }
    );
    assert_eq!(
        screen.child_rect(Orientation::Horizontal, 2, 1),
        Rect { x: 42, y: 1, width: 41, height: 24 }
    );
}

#[test]
fn stacked_children_share_the_height() {
    let screen = Rect { x: 2, y: 1, width: 81, height: 25 };
    assert_eq!(
        screen.child_rect(Orientation::Vertical, 2, 0),
        Rect { x: 2, y: 1, width: 81, height: 12 }
    );
    assert_eq!(
        screen.child_rect(Orientation::Vertical, 2, 1),
        Rect { x: 2, y: 13, width: 81, height: 13 }
    );
}
