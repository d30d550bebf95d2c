use crate::combo::{ActiveCombo, ComboKey};
use crate::keycode::KeyCode;
use crate::layer::LayerItem;
use crate::tap_dance::PressedKey;
use smallvec::SmallVec;
use vstd::prelude::*;

verus! {

/// A short list of key codes, held inline in smallvec's `SmallVec`.
#[verifier::external_body]
#[derive(Debug)]
pub struct KeyList {
    items: SmallVec<[KeyCode; 4]>,
}

/// What a list of key codes holds, in order.
pub uninterp spec fn listed_keys(v: KeyList) -> Seq<KeyCode>;

/// Relies on smallvec's `SmallVec::new`: a new vector is empty.
#[verifier::external_body]
pub(crate) fn key_list_new() -> (r: KeyList)
    ensures
        listed_keys(r) == Seq::<KeyCode>::empty(),
{
    KeyList { items: SmallVec::new() }
}

/// Relies on smallvec's `push`: appends at the end.
#[verifier::external_body]
pub(crate) fn key_list_push(v: &mut KeyList, x: KeyCode)
    ensures
        listed_keys(*final(v)) == listed_keys(*old(v)).push(x),
{
    v.items.push(x);
}

/// Relies on smallvec's `as_slice`: the items, in order.
#[verifier::external_body]
pub(crate) fn key_list_items(v: &KeyList) -> (r: &[KeyCode])
    ensures
        r@ == listed_keys(*v),
{
    v.items.as_slice()
}

/// A short list of raw key codes, held inline in smallvec's `SmallVec`.
#[verifier::external_body]
#[derive(Debug)]
pub struct CodeList {
    items: SmallVec<[u16; 6]>,
}

/// What a list of raw key codes holds, in order.
pub uninterp spec fn listed_codes(v: CodeList) -> Seq<u16>;

/// Relies on smallvec's `SmallVec::new`: a new vector is empty.
#[verifier::external_body]
pub(crate) fn codes_new() -> (r: CodeList)
    ensures
        listed_codes(r) == Seq::<u16>::empty(),
{
    CodeList { items: SmallVec::new() }
}

/// Relies on smallvec's `push`: appends at the end.
#[verifier::external_body]
pub(crate) fn codes_push(v: &mut CodeList, x: u16)
    ensures
        listed_codes(*final(v)) == listed_codes(*old(v)).push(x),
{
    v.items.push(x);
}

/// Relies on smallvec's `as_slice`: the items, in order.
#[verifier::external_body]
pub(crate) fn codes_items(v: &CodeList) -> (r: &[u16])
    ensures
        r@ == listed_codes(*v),
{
    v.items.as_slice()
}

pub(crate) fn codes_from_vec(v: &Vec<u16>) -> (r: CodeList)
    ensures
        listed_codes(r) == v@,
{
    let mut l = codes_new();
    let mut i: usize = 0;
    while i < v.len()
        invariant
            i <= v@.len(),
            listed_codes(l) == v@.subrange(0, i as int),
        decreases v.len() - i,
    {
        codes_push(&mut l, v[i]);
        assert(v@.subrange(0, i + 1) =~= v@.subrange(0, i as int).push(v@[i as int]));
        i = i + 1;
    }
    assert(v@.subrange(0, v@.len() as int) =~= v@);
    l
}

pub(crate) fn codes_to_vec(l: &CodeList) -> (r: Vec<u16>)
    ensures
        r@ == listed_codes(*l),
{
    let items = codes_items(l);
    let mut v: Vec<u16> = Vec::new();
    let mut i: usize = 0;
    while i < items.len()
        invariant
            i <= items@.len(),
            v@ == items@.subrange(0, i as int),
        decreases items.len() - i,
    {
        v.push(items[i]);
        assert(items@.subrange(0, i + 1) =~= items@.subrange(0, i as int).push(items@[i as int]));
        i = i + 1;
    }
    assert(items@.subrange(0, items@.len() as int) =~= items@);
    v
}

/// A short list of watched tap-dance keys, held inline in smallvec's `SmallVec`.
#[verifier::external_body]
#[derive(Debug)]
pub struct PressedKeyList {
    items: SmallVec<[PressedKey; 4]>,
}

/// What a list of watched tap-dance keys holds, in order.
pub uninterp spec fn listed_pressed(v: PressedKeyList) -> Seq<PressedKey>;

/// Relies on smallvec's `SmallVec::new`: a new vector is empty.
#[verifier::external_body]
pub(crate) fn pressed_new() -> (r: PressedKeyList)
    ensures
        listed_pressed(r) == Seq::<PressedKey>::empty(),
{
    PressedKeyList { items: SmallVec::new() }
}

/// Relies on smallvec's `push`: appends at the end.
#[verifier::external_body]
pub(crate) fn pressed_push(v: &mut PressedKeyList, x: PressedKey)
    ensures
        listed_pressed(*final(v)) == listed_pressed(*old(v)).push(x),
{
    v.items.push(x);
}

/// Relies on smallvec's `as_slice`: the items, in order.
#[verifier::external_body]
pub(crate) fn pressed_items(v: &PressedKeyList) -> (r: &[PressedKey])
    ensures
        r@ == listed_pressed(*v),
{
    v.items.as_slice()
}

pub(crate) fn pressed_from_vec(v: &Vec<PressedKey>) -> (r: PressedKeyList)
    ensures
        listed_pressed(r) == v@,
{
    let mut l = pressed_new();
    let mut i: usize = 0;
    while i < v.len()
        invariant
            i <= v@.len(),
            listed_pressed(l) == v@.subrange(0, i as int),
        decreases v.len() - i,
    {
        pressed_push(&mut l, v[i]);
        assert(v@.subrange(0, i + 1) =~= v@.subrange(0, i as int).push(v@[i as int]));
        i = i + 1;
    }
    assert(v@.subrange(0, v@.len() as int) =~= v@);
    l
}

pub(crate) fn pressed_to_vec(l: &PressedKeyList) -> (r: Vec<PressedKey>)
    ensures
        r@ == listed_pressed(*l),
{
    let items = pressed_items(l);
    let mut v: Vec<PressedKey> = Vec::new();
    let mut i: usize = 0;
    while i < items.len()
        invariant
            i <= items@.len(),
            v@ == items@.subrange(0, i as int),
        decreases items.len() - i,
    {
        v.push(items[i]);
        assert(items@.subrange(0, i + 1) =~= items@.subrange(0, i as int).push(items@[i as int]));
        i = i + 1;
    }
    assert(items@.subrange(0, items@.len() as int) =~= items@);
    v
}

/// A short list of pressed combo keys, held inline in smallvec's `SmallVec`.
#[verifier::external_body]
#[derive(Debug)]
pub struct ComboKeyList {
    items: SmallVec<[ComboKey; 6]>,
}

/// What a list of pressed combo keys holds, in order.
pub uninterp spec fn listed_combo_keys(v: ComboKeyList) -> Seq<ComboKey>;

/// Relies on smallvec's `SmallVec::new`: a new vector is empty.
#[verifier::external_body]
pub(crate) fn combo_keys_new() -> (r: ComboKeyList)
    ensures
        listed_combo_keys(r) == Seq::<ComboKey>::empty(),
{
    ComboKeyList { items: SmallVec::new() }
}

/// Relies on smallvec's `push`: appends at the end.
#[verifier::external_body]
pub(crate) fn combo_keys_push(v: &mut ComboKeyList, x: ComboKey)
    ensures
        listed_combo_keys(*final(v)) == listed_combo_keys(*old(v)).push(x),
{
    v.items.push(x);
}

/// Relies on smallvec's `as_slice`: the items, in order.
#[verifier::external_body]
pub(crate) fn combo_keys_items(v: &ComboKeyList) -> (r: &[ComboKey])
    ensures
        r@ == listed_combo_keys(*v),
{
    v.items.as_slice()
}

pub(crate) fn combo_keys_from_vec(v: &Vec<ComboKey>) -> (r: ComboKeyList)
    ensures
        listed_combo_keys(r) == v@,
{
    let mut l = combo_keys_new();
    let mut i: usize = 0;
    while i < v.len()
        invariant
            i <= v@.len(),
            listed_combo_keys(l) == v@.subrange(0, i as int),
        decreases v.len() - i,
    {
        combo_keys_push(&mut l, v[i]);
        assert(v@.subrange(0, i + 1) =~= v@.subrange(0, i as int).push(v@[i as int]));
        i = i + 1;
    }
    assert(v@.subrange(0, v@.len() as int) =~= v@);
    l
}

pub(crate) fn combo_keys_to_vec(l: &ComboKeyList) -> (r: Vec<ComboKey>)
    ensures
        r@ == listed_combo_keys(*l),
{
    let items = combo_keys_items(l);
    let mut v: Vec<ComboKey> = Vec::new();
    let mut i: usize = 0;
    while i < items.len()
        invariant
            i <= items@.len(),
            v@ == items@.subrange(0, i as int),
        decreases items.len() - i,
    {
        v.push(items[i]);
        assert(items@.subrange(0, i + 1) =~= items@.subrange(0, i as int).push(items@[i as int]));
        i = i + 1;
    }
    assert(items@.subrange(0, items@.len() as int) =~= items@);
    v
}

/// A short list of active combos, held inline in smallvec's `SmallVec`.
#[verifier::external_body]
#[derive(Debug)]
pub struct ActiveComboList {
    items: SmallVec<[ActiveCombo; 3]>,
}

/// What a list of active combos holds, in order.
pub uninterp spec fn listed_active(v: ActiveComboList) -> Seq<ActiveCombo>;

/// Relies on smallvec's `SmallVec::new`: a new vector is empty.
#[verifier::external_body]
pub(crate) fn active_new() -> (r: ActiveComboList)
    ensures
        listed_active(r) == Seq::<ActiveCombo>::empty(),
{
    ActiveComboList { items: SmallVec::new() }
}

/// Relies on smallvec's `push`: appends at the end.
#[verifier::external_body]
pub(crate) fn active_push(v: &mut ActiveComboList, x: ActiveCombo)
    ensures
        listed_active(*final(v)) == listed_active(*old(v)).push(x),
{
    v.items.push(x);
}

/// Relies on smallvec's `as_slice`: the items, in order.
#[verifier::external_body]
pub(crate) fn active_items(v: &ActiveComboList) -> (r: &[ActiveCombo])
    ensures
        r@ == listed_active(*v),
{
    v.items.as_slice()
}

pub(crate) fn active_from_vec(v: &Vec<ActiveCombo>) -> (r: ActiveComboList)
    ensures
        listed_active(r) == v@,
{
    let mut l = active_new();
    let mut i: usize = 0;
    while i < v.len()
        invariant
            i <= v@.len(),
            listed_active(l) == v@.subrange(0, i as int),
        decreases v.len() - i,
    {
        active_push(&mut l, v[i]);
        assert(v@.subrange(0, i + 1) =~= v@.subrange(0, i as int).push(v@[i as int]));
        i = i + 1;
    }
    assert(v@.subrange(0, v@.len() as int) =~= v@);
    l
}

pub(crate) fn active_to_vec(l: &ActiveComboList) -> (r: Vec<ActiveCombo>)
    ensures
        r@ == listed_active(*l),
{
    let items = active_items(l);
    let mut v: Vec<ActiveCombo> = Vec::new();
    let mut i: usize = 0;
    while i < items.len()
        invariant
            i <= items@.len(),
            v@ == items@.subrange(0, i as int),
        decreases items.len() - i,
    {
        v.push(items[i]);
        assert(items@.subrange(0, i + 1) =~= items@.subrange(0, i as int).push(items@[i as int]));
        i = i + 1;
    }
    assert(items@.subrange(0, items@.len() as int) =~= items@);
    v
}

/// A short list of layer items, held inline in smallvec's `SmallVec`.
#[verifier::external_body]
#[derive(Debug)]
pub struct LayerList {
    items: SmallVec<[LayerItem; 5]>,
}

/// What a list of layer items holds, in order.
pub uninterp spec fn listed_layers(v: LayerList) -> Seq<LayerItem>;

/// Relies on smallvec's `SmallVec::new`: a new vector is empty.
#[verifier::external_body]
pub(crate) fn layers_new() -> (r: LayerList)
    ensures
        listed_layers(r) == Seq::<LayerItem>::empty(),
{
    LayerList { items: SmallVec::new() }
}

/// Relies on smallvec's `push`: appends at the end.
#[verifier::external_body]
pub(crate) fn layers_push(v: &mut LayerList, x: LayerItem)
    ensures
        listed_layers(*final(v)) == listed_layers(*old(v)).push(x),
{
    v.items.push(x);
}

/// Relies on smallvec's `as_slice`: the items, in order.
#[verifier::external_body]
pub(crate) fn layers_items(v: &LayerList) -> (r: &[LayerItem])
    ensures
        r@ == listed_layers(*v),
{
    v.items.as_slice()
}

pub(crate) fn layers_from_vec(v: &Vec<LayerItem>) -> (r: LayerList)
    ensures
        listed_layers(r) == v@,
{
    let mut l = layers_new();
    let mut i: usize = 0;
    while i < v.len()
        invariant
            i <= v@.len(),
            listed_layers(l) == v@.subrange(0, i as int),
        decreases v.len() - i,
    {
        layers_push(&mut l, v[i]);
        assert(v@.subrange(0, i + 1) =~= v@.subrange(0, i as int).push(v@[i as int]));
        i = i + 1;
    }
    assert(v@.subrange(0, v@.len() as int) =~= v@);
    l
}

pub(crate) fn layers_to_vec(l: &LayerList) -> (r: Vec<LayerItem>)
    ensures
        r@ == listed_layers(*l),
{
    let items = layers_items(l);
    let mut v: Vec<LayerItem> = Vec::new();
    let mut i: usize = 0;
    while i < items.len()
        invariant
            i <= items@.len(),
            v@ == items@.subrange(0, i as int),
        decreases items.len() - i,
    {
        v.push(items[i]);
        assert(items@.subrange(0, i + 1) =~= items@.subrange(0, i as int).push(items@[i as int]));
        i = i + 1;
    }
    assert(items@.subrange(0, items@.len() as int) =~= items@);
    v
}

/// Whether `c` occurs in `v`.
pub(crate) fn contains_code(v: &Vec<u16>, c: u16) -> (r: bool)
    ensures
        r == v@.contains(c),
{
    let mut i: usize = 0;
    while i < v.len()
        invariant
            i <= v@.len(),
            forall|j: int| 0 <= j < i ==> v@[j] != c,
        decreases v.len() - i,
    {
        if v[i] == c {
            return true;
        }
        i = i + 1;
    }
    false
}

/// The codes other than `code`.
pub open spec fn other_than(code: KeyCode) -> spec_fn(KeyCode) -> bool {
    |x: KeyCode| x != code
}

/// Relies on smallvec's `remove`: takes out the first item, the others
/// moving up in order.
#[verifier::external_body]
pub(crate) fn key_list_remove_first(v: &mut KeyList)
    requires
        listed_keys(*old(v)).len() > 0,
    ensures
        listed_keys(*final(v)) == listed_keys(*old(v)).drop_first(),
{
    v.items.remove(0);
}

/// Whether key code `k` differs from `code`.
pub fn key_differs(k: &KeyCode, code: &KeyCode) -> (r: bool)
    ensures
        r == (*k != *code),
{
    k.0 != code.0
}

/// Whether raw code `x` differs from `c`.
pub fn code_differs(x: &u16, c: &u16) -> (r: bool)
    ensures
        r == (*x != *c),
{
    *x != *c
}

/// Relies on smallvec's `retain`: it keeps exactly the items for which the
/// predicate holds, here those other than `code`.
#[verifier::external_body]
pub(crate) fn key_list_retain_other(v: &mut KeyList, code: KeyCode)
    ensures
        listed_keys(*final(v)) == listed_keys(*old(v)).filter(other_than(code)),
        forall|x: KeyCode| listed_keys(*final(v)).contains(x) == (listed_keys(*old(v)).contains(x) && x != code),
{
    v.items.retain(|k| key_differs(k, &code));
}

/// Relies on smallvec's `retain`: it keeps exactly the items for which the
/// predicate holds, here those other than `c`.
#[verifier::external_body]
pub(crate) fn codes_retain_other(v: &mut CodeList, c: u16)
    ensures
        forall|x: u16| listed_codes(*final(v)).contains(x) == (listed_codes(*old(v)).contains(x) && x != c),
{
    v.items.retain(|x| code_differs(x, &c));
}

/// Relies on smallvec's `IndexMut`: writes item `j` in place.
#[verifier::external_body]
pub(crate) fn pressed_set(v: &mut PressedKeyList, j: usize, x: PressedKey)
    requires
        j < listed_pressed(*old(v)).len(),
    ensures
        listed_pressed(*final(v)) == listed_pressed(*old(v)).update(j as int, x),
{
    v.items[j] = x;
}

/// Relies on smallvec's `IndexMut`: writes item `j` in place.
#[verifier::external_body]
pub(crate) fn combo_keys_set(v: &mut ComboKeyList, j: usize, x: ComboKey)
    requires
        j < listed_combo_keys(*old(v)).len(),
    ensures
        listed_combo_keys(*final(v)) == listed_combo_keys(*old(v)).update(j as int, x),
{
    v.items[j] = x;
}

} // verus!
