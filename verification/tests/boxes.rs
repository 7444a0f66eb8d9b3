use boxscript::lang::boxes::{Box, Genus, Loc, Relation};
use boxscript::lang::failure::Failure;

fn rect(x0: i32, y0: i32, x1: i32, y1: i32) -> Box<i32> {
    Box::new(Loc { x: x0, y: y0 }, Loc { x: x1, y: y1 }, Genus::Execution).unwrap()
}

#[test]
fn new_accepts_ordered_corners() {
    let b = Box::new(Loc { x: 1i8, y: 2 }, Loc { x: 3, y: 4 }, Genus::Loop).unwrap();
    assert_eq!(b.start(), Loc { x: 1, y: 2 });
    assert_eq!(b.end(), Loc { x: 3, y: 4 });
    assert_eq!(b.genus(), Genus::Loop);
    // A single cell is a box.
    assert!(Box::new(Loc { x: 0i8, y: 0 }, Loc { x: 0, y: 0 }, Genus::NoOp).is_ok());
}

#[test]
fn new_rejects_corners_out_of_order() {
    assert_eq!(
        Box::new(Loc { x: 5i8, y: 0 }, Loc { x: 4, y: 9 }, Genus::Condition),
        Err(Failure::InvalidBounds { start_x: 5, start_y: 0, end_x: 4, end_y: 9 })
    );
    assert_eq!(
        Box::new(Loc { x: 0i64, y: -3 }, Loc { x: 4, y: -4 }, Genus::Condition),
        Err(Failure::InvalidBounds { start_x: 0, start_y: -3, end_x: 4, end_y: -4 })
    );
    assert_eq!(
        Box::new(Loc { x: 5i8, y: 0 }, Loc { x: 4, y: 9 }, Genus::Condition)
            .map_err(|e| e.message()),
        Err("Box start (5, 0) is greater than end (4, 9)".to_string())
    );
}

#[test]
fn a_box_is_its_own_child() {
    let a = rect(0, 0, 4, 4);
    assert_eq!(a.relationship(&a), Relation::Child);
    assert_eq!(a.relationship(&a.clone()), Relation::Child);
    let cell = rect(2, 2, 2, 2);
    assert!(cell.relationship(&cell) != Relation::Other);
}

#[test]
fn relationship_follows_containment() {
    let outer = rect(0, 0, 10, 10);
    let inner = rect(2, 3, 5, 6);
    let edge = rect(0, 0, 10, 5);
    let apart = rect(20, 20, 30, 30);
    let crossing = rect(5, 5, 15, 15);
    assert_eq!(inner.relationship(&outer), Relation::Child);
    assert_eq!(outer.relationship(&inner), Relation::Parent);
    assert_eq!(edge.relationship(&outer), Relation::Child);
    assert_eq!(outer.relationship(&edge), Relation::Parent);
    assert_eq!(outer.relationship(&apart), Relation::Other);
    assert_eq!(apart.relationship(&outer), Relation::Other);
    assert_eq!(outer.relationship(&crossing), Relation::Other);
    assert_eq!(crossing.relationship(&outer), Relation::Other);
}

#[test]
fn order_follows_the_rows() {
    let top = rect(0, 0, 3, 2);
    let below = rect(0, 3, 3, 5);
    let touching = rect(9, 2, 12, 4);
    assert!(top.before(&below));
    assert!(!top.after(&below));
    assert!(!top.simultaneous(&below));
    assert!(below.after(&top));
    assert!(!below.before(&top));
    assert!(!below.simultaneous(&top));
    // Sharing one row is enough, whatever the columns.
    assert!(top.simultaneous(&touching));
    assert!(touching.simultaneous(&top));
    assert!(!top.before(&touching));
    assert!(!top.after(&touching));
}

#[test]
fn exactly_one_order_holds() {
    let mut boxes = Vec::new();
    for y0 in -2..3i32 {
        for y1 in y0..3 {
            boxes.push(rect(y1, y0, y1 + 1, y1));
        }
    }
    for a in &boxes {
        for b in &boxes {
            let held = [a.before(b), a.after(b), a.simultaneous(b)]
                .iter()
                .filter(|h| **h)
                .count();
            assert_eq!(held, 1);
            assert_eq!(a.before(b), b.after(a));
            assert_eq!(a.simultaneous(b), b.simultaneous(a));
        }
    }
}
