use ferrum_hdl::const_val::ConstVal;
use ferrum_hdl::item::{from_bitvec, item_ty, item_width, maybe_from_bitvec, maybe_to_bitvec, to_bitvec, to_const, Item};
use ferrum_hdl::prim_ty::{PrimTy, SignalTy};

fn unsigned(width: u8, value: u128) -> Item {
    Item::Node(PrimTy::Unsigned(width), value)
}

fn values_of(item: &Item) -> Vec<u128> {
    match item {
        Item::Node(_, x) => vec![*x],
        Item::Group(members) => members.iter().flat_map(values_of).collect(),
    }
}

#[test]
fn composite_round_trip() {
    // A nested composite: a 4-bit word, one bit, and a pair of 2-bit words.
    let v = Item::Group(vec![
        unsigned(4, 12),
        Item::Node(PrimTy::Bit, 1),
        Item::Group(vec![unsigned(2, 1), unsigned(2, 3)]),
    ]);

    // The flattened width is the sum of the member widths.
    assert_eq!(item_width(&v), 9);

    // First member topmost: 12 ++ 1 ++ 1 ++ 3 over widths 4,1,2,2.
    let bits = to_bitvec(&v);
    assert_eq!(bits.width(), 9);
    assert_eq!(bits.val(), 0b1100_1_01_11);
    assert_eq!(to_const(&v), Some(0b1100_1_01_11));
    assert_eq!(maybe_to_bitvec(&v).val(), bits.val());

    // Rebuilding from the flattened bits recovers the value exactly.
    let back = from_bitvec(&v, &bits);
    assert_eq!(values_of(&back), values_of(&v));
    let back2 = maybe_from_bitvec(&v, &bits);
    assert_eq!(values_of(&back2), values_of(&v));

    // The shape survives too.
    match item_ty(&back) {
        SignalTy::Group(tys) => assert_eq!(tys.len(), 3),
        SignalTy::Prim(_) => panic!("expected a grouped shape"),
    }
}

#[test]
fn repack() {
    // A 6-bit word re-read as three 2-bit words...
    let bits = ConstVal::new(0b011011, 6);
    let shape = Item::Group(vec![unsigned(2, 0), unsigned(2, 0), unsigned(2, 0)]);
    let repacked = from_bitvec(&shape, &bits);
    assert_eq!(values_of(&repacked), vec![0b01, 0b10, 0b11]);

    // ...and as two groups of three bits each.
    let bit = || Item::Node(PrimTy::Bit, 0);
    let shape2 = Item::Group(vec![
        Item::Group(vec![Item::Group(vec![bit(), bit(), bit()])]),
        Item::Group(vec![Item::Group(vec![bit(), bit(), bit()])]),
    ]);
    let repacked2 = from_bitvec(&shape2, &bits);
    assert_eq!(values_of(&repacked2), vec![0, 1, 1, 0, 1, 1]);
}

#[test]
fn zero_width_members_vanish() {
    // A zero-width member contributes nothing to the flattened bits.
    let v = Item::Group(vec![unsigned(3, 5), unsigned(0, 0), unsigned(3, 2)]);
    assert_eq!(item_width(&v), 6);
    let bits = to_bitvec(&v);
    assert_eq!(bits.val(), 0b101_010);
    let back = from_bitvec(&v, &bits);
    assert_eq!(values_of(&back), vec![5, 0, 2]);
}
