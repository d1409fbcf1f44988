//! Composite values and their bit-vector flattening.
//!
//! An [`Item`] is a value of a composite shape: one primitive value, or a
//! group of items built recursively from primitives. Flattening concatenates
//! the members in declared order, first member in the topmost bits; the
//! flattened width is the sum of the member widths, and flattening is a
//! structural, lossless bijection: [`lemma_bitvec_round_trip`] proves that
//! rebuilding from the flattened bits recovers every conforming value
//! exactly, whatever its shape.

use vstd::prelude::*;
use vstd::arithmetic::power2::pow2;
use crate::const_val::{width_bound, ConstVal};
use crate::prim_ty::{PrimTy, SignalTy};

verus! {

broadcast use vstd::seq::axiom_seq_index_decreases, vstd::std_specs::vec::axiom_vec_index_decreases, vstd::std_specs::vec::axiom_vec_decreases_to_view;

/// The mathematical form of a composite value.
pub enum ItemV {
    Node(PrimTy, u128),
    Group(Seq<ItemV>),
}

/// `2^w` for a non-negative width, as a mathematical integer.
pub open spec fn pow2i(w: int) -> int {
    if w < 0 {
        1
    } else {
        pow2(w as nat) as int
    }
}

/// The total bit width of a value: its primitive width, or the sum of its
/// members' widths.
pub open spec fn item_width_v(v: ItemV) -> int
    decreases v, 0int,
{
    match v {
        ItemV::Node(pt, _) => pt.width_spec() as int,
        ItemV::Group(items) => items_width_v(items, items.len() as int),
    }
}

/// The total bit width of the first `k` members.
pub open spec fn items_width_v(items: Seq<ItemV>, k: int) -> int
    decreases items, k,
{
    if k <= 0 || k > items.len() {
        0
    } else {
        items_width_v(items, k - 1) + item_width_v(items[k - 1])
    }
}

/// A value fits its shape: every primitive magnitude is below its width's
/// bound.
pub open spec fn item_conforms(v: ItemV) -> bool
    decreases v, 0int,
{
    match v {
        ItemV::Node(pt, x) => (x as int) < pow2i(pt.width_spec() as int),
        ItemV::Group(items) => items_conform(items, items.len() as int),
    }
}

pub open spec fn items_conform(items: Seq<ItemV>, k: int) -> bool
    decreases items, k,
{
    if k <= 0 || k > items.len() {
        true
    } else {
        items_conform(items, k - 1) && item_conforms(items[k - 1])
    }
}

/// The flattened magnitude of a value: members concatenated in declared
/// order, the first member in the topmost bits.
pub open spec fn item_bits(v: ItemV) -> int
    decreases v, 0int,
{
    match v {
        ItemV::Node(_, x) => x as int,
        ItemV::Group(items) => items_bits(items, items.len() as int),
    }
}

/// The flattened magnitude of the first `k` members.
pub open spec fn items_bits(items: Seq<ItemV>, k: int) -> int
    decreases items, k,
{
    if k <= 0 || k > items.len() {
        0
    } else {
        items_bits(items, k - 1) * pow2i(item_width_v(items[k - 1])) + item_bits(items[k - 1])
    }
}

/// The value of `v`'s shape whose flattened magnitude is `x`.
pub open spec fn rebuild(v: ItemV, x: int) -> ItemV
    decreases v, 0int,
{
    match v {
        ItemV::Node(pt, _) => ItemV::Node(pt, (x % pow2i(pt.width_spec() as int)) as u128),
        ItemV::Group(items) => ItemV::Group(rebuild_items(items, x, items.len() as int)),
    }
}

/// The first `k` members of `items`'s shapes, rebuilt from the flattened
/// magnitude `x` (the `k`-th member sits in the lowest bits of `x`).
pub open spec fn rebuild_items(items: Seq<ItemV>, x: int, k: int) -> Seq<ItemV>
    decreases items, k,
{
    if k <= 0 || k > items.len() {
        Seq::empty()
    } else {
        let p = pow2i(item_width_v(items[k - 1]));
        rebuild_items(items, x / p, k - 1).push(rebuild(items[k - 1], x % p))
    }
}

/// Widths are non-negative and a conforming value's flattened magnitude stays
/// below the bound of its total width.
pub proof fn lemma_item_bits_bound(v: ItemV)
    requires
        item_conforms(v),
    ensures
        item_width_v(v) >= 0,
        0 <= item_bits(v) < pow2i(item_width_v(v)),
    decreases v, 0int,
{
    match v {
        ItemV::Node(pt, x) => {
            vstd::arithmetic::power2::lemma_pow2_pos(pt.width_spec() as nat);
        },
        ItemV::Group(items) => {
            lemma_items_bits_bound(items, items.len() as int);
        },
    }
}

pub proof fn lemma_items_bits_bound(items: Seq<ItemV>, k: int)
    requires
        items_conform(items, k),
        0 <= k <= items.len(),
    ensures
        items_width_v(items, k) >= 0,
        0 <= items_bits(items, k) < pow2i(items_width_v(items, k)),
    decreases items, k,
{
    if k <= 0 {
        vstd::arithmetic::power2::lemma_pow2_pos(0);
    } else {
        lemma_items_bits_bound(items, k - 1);
        lemma_item_bits_bound(items[k - 1]);
        let wl = item_width_v(items[k - 1]);
        let wr = items_width_v(items, k - 1);
        let p = pow2i(wl);
        let q = pow2i(wr);
        vstd::arithmetic::power2::lemma_pow2_adds(wr as nat, wl as nat);
        assert(pow2i(wr + wl) == q * p);
        let hi = items_bits(items, k - 1);
        let lo = item_bits(items[k - 1]);
        assert(hi * p + lo < q * p) by {
            vstd::arithmetic::mul::lemma_mul_inequality(hi, q - 1, p);
            vstd::arithmetic::mul::lemma_mul_is_distributive_sub_other_way(p, q, 1);
        }
        assert(hi * p >= 0) by {
            vstd::arithmetic::mul::lemma_mul_nonnegative(hi, p);
        }
    }
}

/// Round-trip: rebuilding a conforming composite value from its flattened
/// bit vector recovers it exactly, for every shape and every value.
pub proof fn lemma_bitvec_round_trip(v: ItemV)
    requires
        item_conforms(v),
    ensures
        rebuild(v, item_bits(v)) == v,
    decreases v, 0int,
{
    match v {
        ItemV::Node(pt, x) => {
            lemma_item_bits_bound(v);
            vstd::arithmetic::div_mod::lemma_small_mod(
                x as nat,
                pow2(pt.width_spec() as nat),
            );
        },
        ItemV::Group(items) => {
            lemma_round_trip_items(items, items.len() as int);
            assert(rebuild_items(items, items_bits(items, items.len() as int), items.len() as int)
                =~= items);
        },
    }
}

pub proof fn lemma_round_trip_items(items: Seq<ItemV>, k: int)
    requires
        items_conform(items, k),
        0 <= k <= items.len(),
    ensures
        rebuild_items(items, items_bits(items, k), k) =~= items.take(k),
    decreases items, k,
{
    if k <= 0 {
        assert(rebuild_items(items, items_bits(items, k), k) =~= items.take(k));
    } else {
        let wl = item_width_v(items[k - 1]);
        let p = pow2i(wl);
        let hi = items_bits(items, k - 1);
        let lo = item_bits(items[k - 1]);
        let b = items_bits(items, k);
        lemma_items_bits_bound(items, k - 1);
        lemma_item_bits_bound(items[k - 1]);
        vstd::arithmetic::power2::lemma_pow2_pos(wl as nat);
        assert(b == hi * p + lo);
        vstd::arithmetic::div_mod::lemma_fundamental_div_mod_converse(b, p, hi, lo);
        assert(b % p == lo);
        assert(b / p == hi);
        lemma_round_trip_items(items, k - 1);
        lemma_bitvec_round_trip(items[k - 1]);
        assert(rebuild_items(items, b, k) == rebuild_items(items, hi, k - 1).push(
            rebuild(items[k - 1], lo),
        ));
        assert(items.take(k) =~= items.take(k - 1).push(items[k - 1]));
    }
}

/// A composite value: one primitive, or a group of members.
#[derive(Debug)]
pub enum Item {
    Node(PrimTy, u128),
    Group(Vec<Item>),
}

impl Item {
    /// The mathematical form of this value.
    pub open spec fn view_spec(self) -> ItemV
        decreases self, 0int,
    {
        match self {
            Item::Node(pt, x) => ItemV::Node(pt, x),
            Item::Group(items) => ItemV::Group(
                Seq::new(
                    items.len() as nat,
                    |i: int|
                        if 0 <= i < items.len() {
                            items[i].view_spec()
                        } else {
                            ItemV::Node(PrimTy::Bool, 0)
                        },
                ),
            ),
        }
    }
}

/// The shape of a composite value: the types, with the values dropped.
pub open spec fn shape_of(v: ItemV) -> crate::prim_ty::SignalTyV
    decreases v, 0int,
{
    match v {
        ItemV::Node(pt, _) => crate::prim_ty::SignalTyV::Prim(pt),
        ItemV::Group(items) => crate::prim_ty::SignalTyV::Group(shapes_of(items, items.len() as int)),
    }
}

/// The shapes of the first `k` members.
pub open spec fn shapes_of(items: Seq<ItemV>, k: int) -> Seq<crate::prim_ty::SignalTyV>
    decreases items, k,
{
    if k <= 0 || k > items.len() {
        Seq::empty()
    } else {
        shapes_of(items, k - 1).push(shape_of(items[k - 1]))
    }
}

/// The shape of a composite value.
pub fn item_ty(item: &Item) -> (r: SignalTy)
    ensures
        r.view_spec() == shape_of(item.view_spec()),
    decreases *item,
{
    match item {
        Item::Node(pt, _) => SignalTy::Prim(*pt),
        Item::Group(items) => {
            let ghost itemsv = item.view_spec()->Group_0;
            let mut tys: Vec<SignalTy> = Vec::new();
            let mut i: usize = 0;
            while i < items.len()
                invariant
                    i <= items.len(),
                    tys.len() == i,
                    item is Group,
                    item->Group_0 == *items,
                    itemsv == item.view_spec()->Group_0,
                    item.view_spec() matches ItemV::Group(g) && g == itemsv,
                    itemsv.len() == items.len(),
                    forall|j: int|
                        0 <= j < i ==> (#[trigger] tys@[j]).view_spec() == shape_of(itemsv[j]),
                decreases items.len() - i,
            {
                proof {
                    assert(decreases_to!(*item => item->Group_0));
                    assert(item->Group_0 == *items);
                    assert(decreases_to!(item->Group_0 => items@));
                    assert(decreases_to!(items@ => items@[i as int]));
                    assert(decreases_to!(*item => items@[i as int]));
                    assert(itemsv[i as int] == items@[i as int].view_spec());
                }
                tys.push(item_ty(&items[i]));
                i = i + 1;
            }
            let r = SignalTy::Group(tys);
            proof {
                assert(r.view_spec()->Group_0 =~= shapes_of(itemsv, itemsv.len() as int)) by {
                    lemma_shapes_of_index(itemsv, itemsv.len() as int);
                }
            }
            r
        },
    }
}

/// The total bit width of a composite value: the sum of its members'
/// widths, recursively.
pub fn item_width(item: &Item) -> (r: u128)
    requires
        item_width_v(item.view_spec()) <= u128::MAX,
    ensures
        r == item_width_v(item.view_spec()),
    decreases *item,
{
    match item {
        Item::Node(pt, _) => pt.width() as u128,
        Item::Group(items) => {
            let ghost itemsv = item.view_spec()->Group_0;
            proof {
                lemma_items_width_nonneg(itemsv, itemsv.len() as int);
            }
            let mut total: u128 = 0;
            let mut i: usize = 0;
            while i < items.len()
                invariant
                    i <= items.len(),
                    item is Group,
                    item->Group_0 == *items,
                    itemsv == item.view_spec()->Group_0,
                    item.view_spec() matches ItemV::Group(g) && g == itemsv,
                    itemsv.len() == items.len(),
                    items_width_v(itemsv, itemsv.len() as int) <= u128::MAX,
                    total == items_width_v(itemsv, i as int),
                decreases items.len() - i,
            {
                proof {
                    lemma_items_width_prefix(itemsv, i + 1, itemsv.len() as int);
                    lemma_items_width_nonneg(itemsv, i as int);
                    lemma_item_width_nonneg(itemsv[i as int]);
                    assert(decreases_to!(*item => item->Group_0));
                    assert(item->Group_0 == *items);
                    assert(decreases_to!(item->Group_0 => items@));
                    assert(decreases_to!(items@ => items@[i as int]));
                    assert(decreases_to!(*item => items@[i as int]));
                    assert(itemsv[i as int] == items@[i as int].view_spec());
                }
                let w = item_width(&items[i]);
                total = total + w;
                i = i + 1;
            }
            total
        },
    }
}

/// Member width sums are non-negative and grow with the prefix.
pub proof fn lemma_items_width_nonneg(items: Seq<ItemV>, k: int)
    ensures
        items_width_v(items, k) >= 0,
    decreases items, k,
{
    if 0 < k && k <= items.len() {
        lemma_items_width_nonneg(items, k - 1);
        lemma_item_width_nonneg(items[k - 1]);
    }
}

pub proof fn lemma_item_width_nonneg(v: ItemV)
    ensures
        item_width_v(v) >= 0,
    decreases v, 0int,
{
    match v {
        ItemV::Node(_, _) => {},
        ItemV::Group(items) => {
            lemma_items_width_nonneg(items, items.len() as int);
        },
    }
}

pub proof fn lemma_items_width_prefix(items: Seq<ItemV>, k: int, n: int)
    requires
        0 <= k <= n <= items.len(),
    ensures
        items_width_v(items, k) <= items_width_v(items, n),
    decreases n - k,
{
    if k < n {
        lemma_items_width_prefix(items, k + 1, n);
        lemma_item_width_nonneg(items[k]);
        assert(items_width_v(items, k + 1) == items_width_v(items, k) + item_width_v(items[k]));
    }
}


/// The member shapes, read off index by index.
pub proof fn lemma_shapes_of_index(items: Seq<ItemV>, k: int)
    requires
        0 <= k <= items.len(),
    ensures
        shapes_of(items, k).len() == k,
        forall|j: int| 0 <= j < k ==> #[trigger] shapes_of(items, k)[j] == shape_of(items[j]),
    decreases items, k,
{
    if k > 0 {
        lemma_shapes_of_index(items, k - 1);
    }
}

/// Every member of a conforming prefix conforms.
pub proof fn lemma_items_conform_index(items: Seq<ItemV>, k: int, i: int)
    requires
        items_conform(items, k),
        k <= items.len(),
        0 <= i < k,
    ensures
        item_conforms(items[i]),
    decreases k,
{
    if i < k - 1 {
        lemma_items_conform_index(items, k - 1, i);
    }
}

/// Flattens a conforming composite value into one bit-vector constant: the
/// members concatenated in declared order, first member topmost, at the
/// summed width.
pub fn to_bitvec(item: &Item) -> (r: ConstVal)
    requires
        item_conforms(item.view_spec()),
        item_width_v(item.view_spec()) <= 128,
    ensures
        r.wf(),
        r.width_spec() == item_width_v(item.view_spec()),
        r.val_spec() == item_bits(item.view_spec()),
    decreases *item,
{
    match item {
        Item::Node(pt, x) => {
            let w = pt.width() as u128;
            proof {
                lemma_item_bits_bound(item.view_spec());
                crate::const_val::lemma_mask_is_mod(*x, w);
                crate::const_val::lemma_pow2_fits_u128(w as nat);
                if w < 128 {
                    vstd::arithmetic::div_mod::lemma_small_mod(*x as nat, pow2(w as nat));
                    assert((*x) % (width_bound(w) as u128) == *x);
                }
            }
            ConstVal::new(*x, w)
        },
        Item::Group(items) => {
            let ghost itemsv = item.view_spec()->Group_0;
            proof {
                lemma_items_bits_bound(itemsv, itemsv.len() as int);
            }
            let mut acc = ConstVal::zero(0);
            let mut i: usize = 0;
            while i < items.len()
                invariant
                    i <= items.len(),
                    item is Group,
                    item->Group_0 == *items,
                    itemsv == item.view_spec()->Group_0,
                    item.view_spec() matches ItemV::Group(g) && g == itemsv,
                    itemsv.len() == items.len(),
                    items_conform(itemsv, itemsv.len() as int),
                    items_width_v(itemsv, itemsv.len() as int) <= 128,
                    acc.wf(),
                    acc.width_spec() == items_width_v(itemsv, i as int),
                    acc.val_spec() == items_bits(itemsv, i as int),
                decreases items.len() - i,
            {
                proof {
                    assert(decreases_to!(*item => item->Group_0));
                    assert(item->Group_0 == *items);
                    assert(decreases_to!(item->Group_0 => items@));
                    assert(decreases_to!(items@ => items@[i as int]));
                    assert(decreases_to!(*item => items@[i as int]));
                    assert(itemsv[i as int] == items@[i as int].view_spec());
                    lemma_items_conform_index(itemsv, itemsv.len() as int, i as int);
                    lemma_items_width_prefix(itemsv, i + 1, itemsv.len() as int);
                    lemma_items_width_nonneg(itemsv, i as int);
                    lemma_item_width_nonneg(itemsv[i as int]);
                }
                let sub = to_bitvec(&items[i]);
                proof {
                    lemma_item_bits_bound(itemsv[i as int]);
                }
                acc.shift(sub);
                i = i + 1;
                proof {
                    assert(width_bound(sub.width_spec()) as int == pow2i(
                        item_width_v(itemsv[i - 1]),
                    ));
                    assert(acc.val_spec() == items_bits(itemsv, i as int));
                }
            }
            acc
        },
    }
}

/// Flattens a composite value where it is not already one primitive (on a
/// primitive this is the identity re-masking).
pub fn maybe_to_bitvec(item: &Item) -> (r: ConstVal)
    requires
        item_conforms(item.view_spec()),
        item_width_v(item.view_spec()) <= 128,
    ensures
        r.wf(),
        r.width_spec() == item_width_v(item.view_spec()),
        r.val_spec() == item_bits(item.view_spec()),
{
    to_bitvec(item)
}

/// The compile-time magnitude of a conforming composite value, where its
/// width fits the 128-bit constant container.
pub fn to_const(item: &Item) -> (r: Option<u128>)
    requires
        item_conforms(item.view_spec()),
    ensures
        item_width_v(item.view_spec()) <= 128 ==> r == Some(
            item_bits(item.view_spec()) as u128,
        ),
        item_width_v(item.view_spec()) > 128 ==> r is None,
{
    let w = match item_width_checked(item) {
        Some(w) => w,
        None => {
            return None;
        },
    };
    if w <= 128 {
        Some(to_bitvec(item).val())
    } else {
        None
    }
}

/// The total width of a composite value, where it fits the constant
/// container's measure.
fn item_width_checked(item: &Item) -> (r: Option<u128>)
    ensures
        match r {
            Some(w) => w == item_width_v(item.view_spec()),
            None => item_width_v(item.view_spec()) > 128,
        },
    decreases *item,
{
    match item {
        Item::Node(pt, _) => Some(pt.width() as u128),
        Item::Group(items) => {
            let ghost itemsv = item.view_spec()->Group_0;
            let mut total: u128 = 0;
            let mut i: usize = 0;
            while i < items.len()
                invariant
                    i <= items.len(),
                    item is Group,
                    item->Group_0 == *items,
                    itemsv == item.view_spec()->Group_0,
                    item.view_spec() matches ItemV::Group(g) && g == itemsv,
                    itemsv.len() == items.len(),
                    total == items_width_v(itemsv, i as int),
                    total <= 128,
                decreases items.len() - i,
            {
                proof {
                    assert(decreases_to!(*item => item->Group_0));
                    assert(item->Group_0 == *items);
                    assert(decreases_to!(item->Group_0 => items@));
                    assert(decreases_to!(items@ => items@[i as int]));
                    assert(decreases_to!(*item => items@[i as int]));
                    assert(itemsv[i as int] == items@[i as int].view_spec());
                    lemma_items_width_nonneg(itemsv, i as int);
                    lemma_item_width_nonneg(itemsv[i as int]);
                }
                let w = match item_width_checked(&items[i]) {
                    Some(w) => w,
                    None => {
                        proof {
                            lemma_items_width_tail_grows(itemsv, i as int);
                        }
                        return None;
                    },
                };
                if w > 128 - total {
                    proof {
                        lemma_items_width_tail_grows(itemsv, i + 1);
                        assert(items_width_v(itemsv, i + 1) == items_width_v(itemsv, i as int)
                            + item_width_v(itemsv[i as int]));
                    }
                    return None;
                }
                total = total + w;
                i = i + 1;
            }
            Some(total)
        },
    }
}

/// A member prefix never out-sums the whole: widths only grow rightwards.
pub proof fn lemma_items_width_tail_grows(items: Seq<ItemV>, k: int)
    requires
        0 <= k <= items.len(),
    ensures
        items_width_v(items, items.len() as int) >= items_width_v(items, k),
        k < items.len() ==> items_width_v(items, items.len() as int) >= items_width_v(items, k)
            + item_width_v(items[k]),
    decreases items.len() - k,
{
    lemma_items_width_prefix(items, k, items.len() as int);
    if k < items.len() {
        lemma_items_width_prefix(items, k + 1, items.len() as int);
        assert(items_width_v(items, k + 1) == items_width_v(items, k) + item_width_v(items[k]));
    }
}


/// The mathematical forms of a list of values.
pub open spec fn views_of(items: Seq<Item>) -> Seq<ItemV> {
    Seq::new(
        items.len(),
        |i: int|
            if 0 <= i < items.len() {
                items[i].view_spec()
            } else {
                ItemV::Node(PrimTy::Bool, 0)
            },
    )
}

/// Rebuilds a value of `shape`'s shape from a flattened bit vector: the
/// inverse of [`to_bitvec`] on conforming values (see
/// [`lemma_bitvec_round_trip`]).
pub fn from_bitvec(shape: &Item, bits: &ConstVal) -> (r: Item)
    requires
        bits.wf(),
    ensures
        r.view_spec() == rebuild(shape.view_spec(), bits.val_spec() as int),
{
    rebuild_exec(shape, bits.val())
}

/// Rebuilds a value of `shape`'s shape where it is not already one primitive
/// (on a primitive this is the identity re-masking).
pub fn maybe_from_bitvec(shape: &Item, bits: &ConstVal) -> (r: Item)
    requires
        bits.wf(),
    ensures
        r.view_spec() == rebuild(shape.view_spec(), bits.val_spec() as int),
{
    from_bitvec(shape, bits)
}

/// A magnitude in the container is below any power of two of width 128 or
/// more, so reducing by it changes nothing.
proof fn lemma_mod_big_pow2(x: u128, w: int)
    requires
        w >= 128,
    ensures
        (x as int) % pow2i(w) == x as int,
        (x as int) / pow2i(w) == 0,
{
    vstd::arithmetic::power2::lemma2_to64();
    vstd::arithmetic::power2::lemma_pow2_adds(64, 64);
    assert(pow2(128) == 0x100000000000000000000000000000000nat);
    if w > 128 {
        vstd::arithmetic::power2::lemma_pow2_strictly_increases(128, w as nat);
    }
    vstd::arithmetic::power2::lemma_pow2_pos(w as nat);
    vstd::arithmetic::div_mod::lemma_small_mod(x as nat, pow2(w as nat));
    vstd::arithmetic::div_mod::lemma_basic_div(x as int, pow2i(w));
}

fn rebuild_exec(shape: &Item, x: u128) -> (r: Item)
    ensures
        r.view_spec() == rebuild(shape.view_spec(), x as int),
    decreases *shape, 0int,
{
    match shape {
        Item::Node(pt, _) => {
            let w = pt.width() as u128;
            let value: u128 = if w >= 128 {
                proof {
                    lemma_mod_big_pow2(x, w as int);
                }
                x
            } else {
                proof {
                    crate::const_val::lemma_shl_is_pow2(w);
                }
                x % (1u128 << w)
            };
            Item::Node(*pt, value)
        },
        Item::Group(items) => {
            proof {
                assert(decreases_to!(*shape => shape->Group_0));
                assert(shape->Group_0 == *items);
                assert(decreases_to!(shape->Group_0 => items@));
            }
            let members = rebuild_members(items, x, items.len());
            let r = Item::Group(members);
            proof {
                let itemsv = shape.view_spec()->Group_0;
                assert(itemsv =~= views_of(items@));
                assert(r.view_spec()->Group_0 =~= views_of(members@));
                assert(r.view_spec() == rebuild(shape.view_spec(), x as int));
            }
            r
        },
    }
}

/// Rebuilds the first `k` members of `items`'s shapes from the flattened
/// magnitude `x`, the `k`-th member from the lowest bits.
fn rebuild_members(items: &Vec<Item>, x: u128, k: usize) -> (r: Vec<Item>)
    requires
        k <= items.len(),
    ensures
        r.len() == k,
        views_of(r@) =~= rebuild_items(views_of(items@), x as int, k as int),
    decreases items@, k as int,
{
    if k == 0 {
        let r: Vec<Item> = Vec::new();
        proof {
            assert(views_of(r@) =~= rebuild_items(views_of(items@), x as int, 0));
        }
        r
    } else {
        proof {
            assert(decreases_to!(items@ => items@[k - 1]));
        }
        let ghost itemsv = views_of(items@);
        let ghost wv = item_width_v(itemsv[k - 1]);
        proof {
            lemma_item_width_nonneg(itemsv[k - 1]);
            assert(itemsv[k - 1] == items@[k - 1].view_spec());
        }
        let (lo, hi): (u128, u128) = match item_width_checked(&items[k - 1]) {
            Some(w) => {
                if w >= 128 {
                    proof {
                        lemma_mod_big_pow2(x, wv);
                    }
                    (x, 0)
                } else {
                    proof {
                        crate::const_val::lemma_shl_is_pow2(w);
                        vstd::arithmetic::power2::lemma_pow2_pos(w as nat);
                    }
                    let p = 1u128 << w;
                    (x % p, x / p)
                }
            },
            None => {
                proof {
                    lemma_mod_big_pow2(x, wv);
                }
                (x, 0)
            },
        };
        let mut r = rebuild_members(items, hi, k - 1);
        let m = rebuild_exec(&items[k - 1], lo);
        let ghost r_pre = r@;
        r.push(m);
        proof {
            assert(views_of(r@) =~= views_of(r_pre).push(m.view_spec()));
            assert(rebuild_items(itemsv, x as int, k as int) == rebuild_items(
                itemsv,
                hi as int,
                k - 1,
            ).push(rebuild(itemsv[k - 1], lo as int)));
            assert(views_of(r@) =~= rebuild_items(itemsv, x as int, k as int));
        }
        r
    }
}

} // verus!
